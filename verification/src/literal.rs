//! Rewriting JavaScript object literals as JSON.
//!
//! A player config embedded in a page is a JavaScript object literal, which may
//! quote its strings with `'`. JSON knows only `"`. The rewriting here turns
//! the one into the other and leaves everything else alone.

use vstd::prelude::*;

use crate::text::chars_of;

verus! {

/// What surrounds a character of an object literal.
#[derive(Clone, Copy, PartialEq, Eq, Structural)]
pub enum Mode {
    /// Outside any string.
    Plain,
    /// Inside a `"`-delimited string.
    Double,
    /// Inside a `'`-delimited string.
    Single,
}

/// The JSON text for `s`, read from within `mode`.
///
/// The delimiters of a single-quoted string become `"`. Inside such a string
/// an escaped `'` loses its backslash and a bare `"` gains one. Every other
/// escape pair and every other character is kept. A backslash inside a string
/// that nothing follows is dropped.
pub open spec fn rewritten(mode: Mode, s: Seq<char>) -> Seq<char>
    decreases s.len(),
{
    if s.len() == 0 {
        seq![]
    } else {
        let c = s[0];
        let rest = s.drop_first();
        match mode {
            Mode::Plain => if c == '"' {
                seq!['"'] + rewritten(Mode::Double, rest)
            } else if c == '\'' {
                seq!['"'] + rewritten(Mode::Single, rest)
            } else {
                seq![c] + rewritten(Mode::Plain, rest)
            },
            Mode::Double => if c == '\\' {
                if rest.len() == 0 {
                    seq![]
                } else {
                    seq!['\\', rest[0]] + rewritten(Mode::Double, rest.drop_first())
                }
            } else if c == '"' {
                seq!['"'] + rewritten(Mode::Plain, rest)
            } else {
                seq![c] + rewritten(Mode::Double, rest)
            },
            Mode::Single => if c == '\\' {
                if rest.len() == 0 {
                    seq![]
                } else if rest[0] == '\'' {
                    seq!['\''] + rewritten(Mode::Single, rest.drop_first())
                } else {
                    seq!['\\', rest[0]] + rewritten(Mode::Single, rest.drop_first())
                }
            } else if c == '\'' {
                seq!['"'] + rewritten(Mode::Plain, rest)
            } else if c == '"' {
                seq!['\\', '"'] + rewritten(Mode::Single, rest)
            } else {
                seq![c] + rewritten(Mode::Single, rest)
            },
        }
    }
}

/// Converts a JavaScript object literal into JSON by rewriting single-quoted
/// strings as double-quoted ones.
///
/// The text is walked character by character, so text outside ASCII is kept
/// intact. Bare keys (`{url: 'a'}`) are not quoted.
pub fn js_object_literal_to_json(input: &str) -> (out: String)
    ensures
        out@ == rewritten(Mode::Plain, input@),
{
    let chars: Vec<char> = chars_of(input);
    let mut out: String = String::new();
    let mut mode: Mode = Mode::Plain;
    let mut i: usize = 0;
    assert(chars@.skip(0) =~= chars@);
    while i < chars.len()
        invariant
            i <= chars.len(),
            rewritten(Mode::Plain, chars@) == out@ + rewritten(mode, chars@.skip(i as int)),
        decreases chars.len() - i,
    {
        let c: char = chars[i];
        let ghost at = i as int;
        let ghost written = out@;
        let ghost here = chars@.skip(at);
        proof {
            assert(here.drop_first() =~= chars@.skip(at + 1));
            if here.len() > 1 {
                assert(here.drop_first().drop_first() =~= chars@.skip(at + 2));
            }
        }
        i += 1;
        let in_string: bool = match mode {
            Mode::Plain => false,
            _ => true,
        };
        let in_single: bool = match mode {
            Mode::Single => true,
            _ => false,
        };
        if c == '\\' && in_string {
            if i < chars.len() {
                let next: char = chars[i];
                i += 1;
                if !(in_single && next == '\'') {
                    out.push('\\');
                }
                out.push(next);
            }
        } else if c == '"' && in_single {
            out.push('\\');
            out.push('"');
        } else if c == '"' {
            mode = match mode {
                Mode::Plain => Mode::Double,
                _ => Mode::Plain,
            };
            out.push('"');
        } else if c == '\'' && in_single {
            mode = Mode::Plain;
            out.push('"');
        } else if c == '\'' && !in_string {
            mode = Mode::Single;
            out.push('"');
        } else {
            out.push(c);
        }
        proof {
            let tail = rewritten(mode, chars@.skip(i as int));
            let piece = out@.skip(written.len() as int);
            assert(out@ =~= written + piece);
            assert(rewritten(Mode::Plain, chars@) =~= out@ + tail);
        }
    }
    assert(chars@.skip(i as int) =~= Seq::<char>::empty());
    assert(out@ + rewritten(mode, chars@.skip(i as int)) =~= out@);
    out
}

/// Read from within `mode`, `s` quotes with `"` alone: no `'` opens a string,
/// and no string breaks off right behind a backslash.
pub open spec fn is_double_quoted(mode: Mode, s: Seq<char>) -> bool
    decreases s.len(),
{
    if s.len() == 0 {
        true
    } else {
        let c = s[0];
        let rest = s.drop_first();
        match mode {
            Mode::Plain => if c == '"' {
                is_double_quoted(Mode::Double, rest)
            } else {
                c != '\'' && is_double_quoted(Mode::Plain, rest)
            },
            Mode::Double => if c == '\\' {
                rest.len() > 0 && is_double_quoted(Mode::Double, rest.drop_first())
            } else if c == '"' {
                is_double_quoted(Mode::Plain, rest)
            } else {
                is_double_quoted(Mode::Double, rest)
            },
            Mode::Single => false,
        }
    }
}

/// Text that quotes with `"` alone passes through unchanged. Well-formed JSON
/// is such text: no `'` stands outside its strings and every escape in them is
/// complete.
pub proof fn law_json_passes_through(s: Seq<char>)
    requires
        is_double_quoted(Mode::Plain, s),
    ensures
        rewritten(Mode::Plain, s) == s,
{
    lemma_passes_through(Mode::Plain, s);
}

/// The mode behind `c`, where `c` starts no escape pair.
spec fn next_mode(mode: Mode, c: char) -> Mode {
    match mode {
        Mode::Plain => if c == '"' {
            Mode::Double
        } else if c == '\'' {
            Mode::Single
        } else {
            Mode::Plain
        },
        Mode::Double => if c == '"' {
            Mode::Plain
        } else {
            Mode::Double
        },
        Mode::Single => if c == '\'' {
            Mode::Plain
        } else {
            Mode::Single
        },
    }
}

proof fn lemma_passes_through(mode: Mode, s: Seq<char>)
    requires
        is_double_quoted(mode, s),
    ensures
        rewritten(mode, s) == s,
    decreases s.len(),
{
    if s.len() == 0 {
        assert(s =~= Seq::<char>::empty());
    } else {
        let c = s[0];
        let rest = s.drop_first();
        if mode == Mode::Double && c == '\\' {
            lemma_passes_through(Mode::Double, rest.drop_first());
            assert(s =~= seq!['\\', rest[0]] + rest.drop_first());
        } else {
            let next = next_mode(mode, c);
            lemma_passes_through(next, rest);
            assert(s =~= seq![c] + rest);
        }
    }
}

/// The rewriting always quotes with `"` alone, and so rewriting twice changes
/// nothing more.
pub proof fn law_rewriting_is_idempotent(s: Seq<char>)
    ensures
        is_double_quoted(Mode::Plain, rewritten(Mode::Plain, s)),
        rewritten(Mode::Plain, rewritten(Mode::Plain, s)) == rewritten(Mode::Plain, s),
{
    lemma_rewritten_is_double_quoted(Mode::Plain, s);
    law_json_passes_through(rewritten(Mode::Plain, s));
}

/// The mode of the output where the input is in `mode`.
spec fn output_mode(mode: Mode) -> Mode {
    match mode {
        Mode::Single => Mode::Double,
        _ => mode,
    }
}

proof fn lemma_rewritten_is_double_quoted(mode: Mode, s: Seq<char>)
    ensures
        is_double_quoted(output_mode(mode), rewritten(mode, s)),
    decreases s.len(),
{
    if s.len() > 0 {
        let c = s[0];
        let rest = s.drop_first();
        let out = rewritten(mode, s);
        if mode != Mode::Plain && c == '\\' {
            if rest.len() > 0 {
                let tail = rewritten(mode, rest.drop_first());
                lemma_rewritten_is_double_quoted(mode, rest.drop_first());
                if mode == Mode::Single && rest[0] == '\'' {
                    assert(out.drop_first() =~= tail);
                } else {
                    assert(out.drop_first().drop_first() =~= tail);
                }
            }
        } else if mode == Mode::Single && c == '"' {
            let tail = rewritten(mode, rest);
            lemma_rewritten_is_double_quoted(mode, rest);
            assert(out.drop_first().drop_first() =~= tail);
        } else {
            let next = next_mode(mode, c);
            lemma_rewritten_is_double_quoted(next, rest);
            assert(out.drop_first() =~= rewritten(next, rest));
        }
    }
}

/// `s` with its double quotes made single.
pub open spec fn single_quoted(s: Seq<char>) -> Seq<char> {
    s.map_values(
        |c: char|
            if c == '"' {
                '\''
            } else {
                c
            },
    )
}

/// JSON whose double quotes were made single is rewritten back to that JSON,
/// given that it holds no `'` and no `\` of its own.
pub proof fn law_single_quotes_are_undone(s: Seq<char>)
    requires
        !s.contains('\''),
        !s.contains('\\'),
    ensures
        rewritten(Mode::Plain, single_quoted(s)) == s,
{
    assert forall|i: int| 0 <= i < s.len() implies #[trigger] s[i] != '\'' && s[i] != '\\' by {
        assert(s.contains(s[i]));
    }
    lemma_single_quotes_are_undone(Mode::Plain, s);
}

proof fn lemma_single_quotes_are_undone(mode: Mode, s: Seq<char>)
    requires
        mode != Mode::Double,
        forall|i: int| 0 <= i < s.len() ==> #[trigger] s[i] != '\'' && s[i] != '\\',
    ensures
        rewritten(mode, single_quoted(s)) == s,
    decreases s.len(),
{
    if s.len() == 0 {
        assert(s =~= Seq::<char>::empty());
    } else {
        let rest = s.drop_first();
        let next = next_mode(mode, single_quoted(s)[0]);
        assert(single_quoted(s).drop_first() =~= single_quoted(rest));
        lemma_single_quotes_are_undone(next, rest);
        assert(s =~= seq![s[0]] + rest);
    }
}

/// Text without `'` and `\` quotes with `"` alone. With its quotes made single
/// it does not any more, unless it has none.
pub proof fn lemma_single_quoted_is_not_json(s: Seq<char>)
    requires
        !s.contains('\''),
        !s.contains('\\'),
    ensures
        is_double_quoted(Mode::Plain, s),
        s.contains('"') ==> !is_double_quoted(Mode::Plain, single_quoted(s)),
        !s.contains('"') ==> single_quoted(s) == s,
{
    assert forall|i: int| 0 <= i < s.len() implies #[trigger] s[i] != '\'' && s[i] != '\\' by {
        assert(s.contains(s[i]));
    }
    lemma_bare_text_is_double_quoted(Mode::Plain, s);
    if s.contains('"') {
        let i = choose|i: int| 0 <= i < s.len() && s[i] == '"';
        lemma_single_quote_shows(s, i);
    } else {
        assert forall|i: int| 0 <= i < s.len() implies #[trigger] s[i] != '"' by {
            assert(s.contains(s[i]));
        }
        assert(single_quoted(s) =~= s);
    }
}

proof fn lemma_bare_text_is_double_quoted(mode: Mode, s: Seq<char>)
    requires
        mode != Mode::Single,
        forall|i: int| 0 <= i < s.len() ==> #[trigger] s[i] != '\'' && s[i] != '\\',
    ensures
        is_double_quoted(mode, s),
    decreases s.len(),
{
    if s.len() > 0 {
        lemma_bare_text_is_double_quoted(next_mode(mode, s[0]), s.drop_first());
    }
}

proof fn lemma_single_quote_shows(s: Seq<char>, i: int)
    requires
        0 <= i < s.len(),
        s[i] == '"',
    ensures
        !is_double_quoted(Mode::Plain, single_quoted(s)),
    decreases s.len(),
{
    if i > 0 {
        assert(single_quoted(s).drop_first() =~= single_quoted(s.drop_first()));
        lemma_single_quote_shows(s.drop_first(), i - 1);
    }
}

/// A character that the rewriting never touches: neither quote nor backslash.
pub open spec fn is_content(c: char) -> bool {
    c != '"' && c != '\'' && c != '\\'
}

/// Everything but quotes and backslashes comes through unchanged and in
/// order, accented letters and emoji as much as ASCII.
pub proof fn law_content_is_kept(s: Seq<char>)
    ensures
        rewritten(Mode::Plain, s).filter(|c: char| is_content(c)) == s.filter(
            |c: char| is_content(c),
        ),
{
    lemma_content_is_kept(Mode::Plain, s);
}

proof fn lemma_content_is_kept(mode: Mode, s: Seq<char>)
    ensures
        rewritten(mode, s).filter(|c: char| is_content(c)) == s.filter(|c: char| is_content(c)),
    decreases s.len(),
{
    reveal(Seq::filter);
    reveal_with_fuel(Seq::filter, 3);
    let keep = |c: char| is_content(c);
    if s.len() > 0 {
        let c = s[0];
        let rest = s.drop_first();
        let out = rewritten(mode, s);
        if mode != Mode::Plain && c == '\\' {
            if rest.len() > 0 {
                let later = rest.drop_first();
                let tail = rewritten(mode, later);
                let head = out.take(out.len() - tail.len());
                lemma_content_is_kept(mode, later);
                assert(s =~= seq![c, rest[0]] + later);
                assert(out =~= head + tail);
                Seq::filter_distributes_over_add(seq![c, rest[0]], later, keep);
                Seq::filter_distributes_over_add(head, tail, keep);
                assert(seq![c, rest[0]].drop_last() =~= seq![c]);
                assert(seq![c].drop_last() =~= Seq::<char>::empty());
                if mode == Mode::Single && rest[0] == '\'' {
                    assert(head =~= seq!['\'']);
                    assert(head.drop_last() =~= Seq::<char>::empty());
                } else {
                    assert(head =~= seq![c, rest[0]]);
                }
            } else {
                assert(s.drop_last() =~= Seq::<char>::empty());
            }
        } else {
            let next = next_mode(mode, c);
            let tail = rewritten(next, rest);
            let head = out.take(out.len() - tail.len());
            lemma_content_is_kept(next, rest);
            assert(s =~= seq![c] + rest);
            assert(out =~= head + tail);
            Seq::filter_distributes_over_add(seq![c], rest, keep);
            Seq::filter_distributes_over_add(head, tail, keep);
            assert(seq![c].drop_last() =~= Seq::<char>::empty());
            if mode == Mode::Single && c == '"' {
                assert(head =~= seq!['\\', '"']);
                assert(head.drop_last() =~= seq!['\\']);
                assert(seq!['\\'].drop_last() =~= Seq::<char>::empty());
            } else if !is_content(c) {
                assert(head.len() == 1);
                assert(!is_content(head[0]));
                assert(head.drop_last() =~= Seq::<char>::empty());
            } else {
                assert(head =~= seq![c]);
            }
        }
    }
}

// ── What a literal says ──────────────────────────────────────────────────────

/// A piece of what an object literal says.
pub enum Unit {
    /// A character outside any string.
    Code(char),
    /// The beginning or the end of a string, however it is delimited.
    Edge,
    /// A character of a string.
    Text(char),
    /// An escape of a string other than that of a quote, such as `\n` or `\u`.
    Escape(char),
}

/// What an object literal says, read from within a string that `quote` ends,
/// or outside any string. Inside a string an escaped delimiter and `\"` stand
/// for the quote itself.
pub open spec fn reading(quote: Option<char>, s: Seq<char>) -> Seq<Unit>
    decreases s.len(),
{
    if s.len() == 0 {
        seq![]
    } else {
        let c = s[0];
        let rest = s.drop_first();
        match quote {
            None => if c == '"' || c == '\'' {
                seq![Unit::Edge] + reading(Some(c), rest)
            } else {
                seq![Unit::Code(c)] + reading(None, rest)
            },
            Some(q) => if c == q {
                seq![Unit::Edge] + reading(None, rest)
            } else if c != '\\' {
                seq![Unit::Text(c)] + reading(quote, rest)
            } else if rest.len() == 0 {
                seq![]
            } else if rest[0] == q || rest[0] == '"' {
                seq![Unit::Text(rest[0])] + reading(quote, rest.drop_first())
            } else {
                seq![Unit::Escape(rest[0])] + reading(quote, rest.drop_first())
            },
        }
    }
}

/// The delimiter of the string that a mode is inside of.
spec fn quote_of(mode: Mode) -> Option<char> {
    match mode {
        Mode::Plain => None,
        Mode::Double => Some('"'),
        Mode::Single => Some('\''),
    }
}

/// The JSON says what the literal says: strings stay strings with the same
/// characters and the same escapes, and what is outside them stays as it is.
pub proof fn law_rewriting_keeps_the_meaning(s: Seq<char>)
    ensures
        reading(None, rewritten(Mode::Plain, s)) == reading(None, s),
{
    lemma_rewriting_keeps_the_meaning(Mode::Plain, s);
}

proof fn lemma_rewriting_keeps_the_meaning(mode: Mode, s: Seq<char>)
    ensures
        reading(quote_of(output_mode(mode)), rewritten(mode, s)) == reading(quote_of(mode), s),
    decreases s.len(),
{
    if s.len() > 0 {
        let c = s[0];
        let rest = s.drop_first();
        let out = rewritten(mode, s);
        if mode != Mode::Plain && c == '\\' {
            if rest.len() > 0 {
                let tail = rewritten(mode, rest.drop_first());
                lemma_rewriting_keeps_the_meaning(mode, rest.drop_first());
                if mode == Mode::Single && rest[0] == '\'' {
                    assert(out.drop_first() =~= tail);
                } else {
                    assert(out.drop_first().drop_first() =~= tail);
                    assert(out.drop_first()[0] == rest[0]);
                }
            }
        } else if mode == Mode::Single && c == '"' {
            let tail = rewritten(mode, rest);
            lemma_rewriting_keeps_the_meaning(mode, rest);
            assert(out.drop_first().drop_first() =~= tail);
            assert(out.drop_first()[0] == '"');
        } else {
            let next = next_mode(mode, c);
            lemma_rewriting_keeps_the_meaning(next, rest);
            assert(out.drop_first() =~= rewritten(next, rest));
        }
    }
}

/// Only one text that quotes with `"` alone says a given thing: together with
/// the meaning, the quoting fixes the result of a rewriting.
pub proof fn law_meaning_fixes_the_json(a: Seq<char>, b: Seq<char>)
    requires
        is_double_quoted(Mode::Plain, a),
        is_double_quoted(Mode::Plain, b),
        reading(None, a) == reading(None, b),
    ensures
        a == b,
{
    lemma_meaning_fixes_the_json(Mode::Plain, a, b);
}

/// What the first piece of a text with `"` alone says.
spec fn first_unit(mode: Mode, s: Seq<char>) -> Unit {
    if s[0] == '"' {
        Unit::Edge
    } else if mode == Mode::Plain {
        Unit::Code(s[0])
    } else if s[0] != '\\' {
        Unit::Text(s[0])
    } else if s[1] == '"' {
        Unit::Text('"')
    } else {
        Unit::Escape(s[1])
    }
}

/// How many characters that piece has.
spec fn first_width(mode: Mode, s: Seq<char>) -> int {
    if mode == Mode::Double && s[0] == '\\' {
        2
    } else {
        1
    }
}

/// The mode behind that piece.
spec fn mode_behind(mode: Mode, s: Seq<char>) -> Mode {
    if first_width(mode, s) == 2 {
        mode
    } else {
        next_mode(mode, s[0])
    }
}

proof fn lemma_first_unit(mode: Mode, s: Seq<char>)
    requires
        s.len() > 0,
        is_double_quoted(mode, s),
    ensures
        first_width(mode, s) <= s.len(),
        is_double_quoted(mode_behind(mode, s), s.skip(first_width(mode, s))),
        reading(quote_of(mode), s) == seq![first_unit(mode, s)] + reading(
            quote_of(mode_behind(mode, s)),
            s.skip(first_width(mode, s)),
        ),
{
    assert(s.drop_first() =~= s.skip(1));
    if first_width(mode, s) == 2 {
        assert(s.drop_first().drop_first() =~= s.skip(2));
        assert(s.drop_first()[0] == s[1]);
    }
}

proof fn lemma_meaning_fixes_the_json(mode: Mode, a: Seq<char>, b: Seq<char>)
    requires
        is_double_quoted(mode, a),
        is_double_quoted(mode, b),
        reading(quote_of(mode), a) == reading(quote_of(mode), b),
    ensures
        a == b,
    decreases a.len(),
{
    if a.len() > 0 {
        lemma_first_unit(mode, a);
    }
    if b.len() > 0 {
        lemma_first_unit(mode, b);
    }
    if a.len() == 0 || b.len() == 0 {
        assert(reading(quote_of(mode), a).len() > 0 <==> a.len() > 0);
        assert(reading(quote_of(mode), b).len() > 0 <==> b.len() > 0);
        assert(a =~= b);
    } else {
        let n = first_width(mode, a);
        let next = mode_behind(mode, a);
        let x = reading(quote_of(mode), a);
        let y = reading(quote_of(mode), b);
        assert(x[0] == first_unit(mode, a));
        assert(y[0] == first_unit(mode, b));
        assert(a[0] == b[0]);
        assert(n == 2 ==> a[1] == b[1]);
        assert(x.drop_first() =~= reading(quote_of(next), a.skip(n)));
        assert(y.drop_first() =~= reading(quote_of(next), b.skip(n)));
        lemma_meaning_fixes_the_json(next, a.skip(n), b.skip(n));
        assert(a.take(n) =~= b.take(n));
        assert(a =~= a.take(n) + a.skip(n));
        assert(b =~= b.take(n) + b.skip(n));
    }
}

/// Text without quotes and backslashes.
pub open spec fn is_bare(s: Seq<char>) -> bool {
    forall|i: int| 0 <= i < s.len() ==> #[trigger] s[i] != '\'' && s[i] != '"' && s[i] != '\\'
}

proof fn lemma_bare_text_stays(mode: Mode, s: Seq<char>, rest: Seq<char>)
    requires
        is_bare(s),
    ensures
        rewritten(mode, s + rest) == s + rewritten(mode, rest),
    decreases s.len(),
{
    if s.len() == 0 {
        assert(s + rest =~= rest);
        assert(s + rewritten(mode, rest) =~= rewritten(mode, rest));
    } else {
        assert(is_content(s[0]));
        assert((s + rest)[0] == s[0]);
        assert((s + rest).drop_first() =~= s.drop_first() + rest);
        assert forall|i: int| 0 <= i < s.drop_first().len() implies is_content(
            #[trigger] s.drop_first()[i],
        ) by {
            assert(s.drop_first()[i] == s[i + 1]);
        }
        lemma_bare_text_stays(mode, s.drop_first(), rest);
        assert(s + rewritten(mode, rest) =~= seq![s[0]] + (s.drop_first() + rewritten(mode, rest)));
    }
}

/// Inside a single-quoted string every escape but that of `'` comes out as it
/// went in, backslash and all. An escaped `'` becomes a bare one, and a bare
/// `"` becomes an escaped one.
pub proof fn law_escapes_are_kept(a: Seq<char>, x: char, b: Seq<char>)
    requires
        is_bare(a),
        is_bare(b),
    ensures
        x != '\'' ==> rewritten(Mode::Plain, seq!['\''] + a + seq!['\\', x] + b + seq!['\''])
            == seq!['"'] + a + seq!['\\', x] + b + seq!['"'],
        rewritten(Mode::Plain, seq!['\''] + a + seq!['\\', '\''] + b + seq!['\'']) == seq!['"'] + a
            + seq!['\''] + b + seq!['"'],
        rewritten(Mode::Plain, seq!['\''] + a + seq!['"'] + b + seq!['\'']) == seq!['"'] + a + seq![
            '\\',
            '"',
        ] + b + seq!['"'],
{
    let end = seq!['\''];
    assert(end.drop_first() =~= Seq::<char>::empty());
    assert(rewritten(Mode::Single, end) =~= seq!['"']) by {
        assert(rewritten(Mode::Plain, end.drop_first()) =~= Seq::<char>::empty());
    }
    lemma_bare_text_stays(Mode::Single, b, end);
    lemma_single_quoted_piece(a, seq!['\\', x], b);
    lemma_single_quoted_piece(a, seq!['\\', '\''], b);
    lemma_single_quoted_piece(a, seq!['"'], b);
    let tail = b + end;
    let pair = seq!['\\', x] + tail;
    assert(pair.drop_first().drop_first() =~= tail);
    assert(pair.drop_first()[0] == x);
    let quote = seq!['\\', '\''] + tail;
    assert(quote.drop_first().drop_first() =~= tail);
    assert(quote.drop_first()[0] == '\'');
    let double = seq!['"'] + tail;
    assert(double.drop_first() =~= tail);
    if x != '\'' {
        assert(rewritten(Mode::Plain, seq!['\''] + a + seq!['\\', x] + b + end) =~= seq!['"'] + a
            + seq!['\\', x] + b + seq!['"']);
    }
    assert(rewritten(Mode::Plain, seq!['\''] + a + seq!['\\', '\''] + b + end) =~= seq!['"'] + a
        + seq!['\''] + b + seq!['"']);
    assert(rewritten(Mode::Plain, seq!['\''] + a + seq!['"'] + b + end) =~= seq!['"'] + a + seq![
        '\\',
        '"',
    ] + b + seq!['"']);
}

proof fn lemma_single_quoted_piece(a: Seq<char>, piece: Seq<char>, b: Seq<char>)
    requires
        is_bare(a),
    ensures
        rewritten(Mode::Plain, seq!['\''] + a + piece + b + seq!['\'']) == seq!['"'] + a
            + rewritten(Mode::Single, piece + (b + seq!['\''])),
{
    let s = seq!['\''] + a + piece + b + seq!['\''];
    let rest = piece + (b + seq!['\'']);
    assert(s.drop_first() =~= a + rest);
    lemma_bare_text_stays(Mode::Single, a, rest);
    assert(rewritten(Mode::Plain, s) =~= seq!['"'] + a + rewritten(Mode::Single, rest));
}

/// The conversion keeps what a literal says and quotes it with `"` alone, and
/// that leaves it no choice. A text that is quoted so is converted to itself.
pub proof fn law_conversion_keeps_the_meaning(input: &str, out: String, other: Seq<char>)
    requires
        call_ensures(js_object_literal_to_json, (input,), out),
    ensures
        reading(None, out@) == reading(None, input@),
        is_double_quoted(Mode::Plain, out@),
        is_double_quoted(Mode::Plain, other) && reading(None, other) == reading(None, input@)
            ==> out@ == other,
        is_double_quoted(Mode::Plain, input@) ==> out@ == input@,
{
    law_rewriting_keeps_the_meaning(input@);
    law_rewriting_is_idempotent(input@);
    if is_double_quoted(Mode::Plain, other) && reading(None, other) == reading(None, input@) {
        law_meaning_fixes_the_json(out@, other);
    }
    if is_double_quoted(Mode::Plain, input@) {
        law_json_passes_through(input@);
    }
}

/// In a single-quoted string an escape other than that of `'` is converted to
/// itself, backslash and all.
pub proof fn law_conversion_keeps_escapes(
    input: &str,
    out: String,
    a: Seq<char>,
    x: char,
    b: Seq<char>,
)
    requires
        call_ensures(js_object_literal_to_json, (input,), out),
        input@ == seq!['\''] + a + seq!['\\', x] + b + seq!['\''],
        is_bare(a),
        is_bare(b),
    ensures
        x != '\'' ==> out@ == seq!['"'] + a + seq!['\\', x] + b + seq!['"'],
        x == '\'' ==> out@ == seq!['"'] + a + seq!['\''] + b + seq!['"'],
{
    law_escapes_are_kept(a, x, b);
}

} // verus!
