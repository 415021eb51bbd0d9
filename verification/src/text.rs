//! Text helpers on character sequences.
//!
//! Every string is modelled by the sequence of its characters. The functions
//! here pair each executable helper with the specification function that says
//! what it computes.

use vstd::prelude::*;
use vstd::string::StrSliceExecFns;

verus! {

/// `String::push` appends the given character to the end of the string.
pub assume_specification[ String::push ](s: &mut String, c: char)
    ensures
        final(s)@ == old(s)@.push(c),
;

/// `found` is the text that `wanted` says.
pub open spec fn is_text(found: Option<String>, wanted: Option<Seq<char>>) -> bool {
    match wanted {
        Some(content) => found matches Some(s) && s@ == content,
        None => found is None,
    }
}

/// The characters of a string, in order.
pub fn chars_of(s: &str) -> (v: Vec<char>)
    ensures
        v@ == s@,
{
    let mut v: Vec<char> = Vec::new();
    for c in it: s.chars()
        invariant
            v@ == it.seq().take(it.index()),
    {
        v.push(c);
        assert(it.seq().take(it.index() + 1) == it.seq().take(it.index()).push(c));
    }
    v
}

/// Whether two character slices hold the same characters.
fn same_chars(a: &[char], b: &[char]) -> (r: bool)
    ensures
        r == (a@ == b@),
{
    if a.len() != b.len() {
        return false;
    }
    let mut i: usize = 0;
    while i < a.len()
        invariant
            i <= a.len(),
            a.len() == b.len(),
            forall|j: int| 0 <= j < i ==> a@[j] == b@[j],
        decreases a.len() - i,
    {
        if a[i] != b[i] {
            return false;
        }
        i += 1;
    }
    assert(a@ =~= b@);
    true
}

/// Whether two strings hold the same text.
pub fn same_text(a: &str, b: &str) -> (r: bool)
    ensures
        r == (a@ == b@),
{
    let left: Vec<char> = chars_of(a);
    let right: Vec<char> = chars_of(b);
    same_chars(left.as_slice(), right.as_slice())
}

// ── Searching ────────────────────────────────────────────────────────────────

/// Index of the first `c` in `s`; the length of `s` if there is none.
pub open spec fn first_index(s: Seq<char>, c: char) -> int
    decreases s.len(),
{
    if s.len() == 0 || s[0] == c {
        0
    } else {
        1 + first_index(s.drop_first(), c)
    }
}

/// Index of the last `c` in `s`; -1 if there is none.
pub open spec fn last_index(s: Seq<char>, c: char) -> int
    decreases s.len(),
{
    if s.len() == 0 {
        -1
    } else if s.last() == c {
        s.len() - 1
    } else {
        last_index(s.drop_last(), c)
    }
}

/// The part of `s` in front of its first `c`; all of `s` if there is none.
pub open spec fn until_first(s: Seq<char>, c: char) -> Seq<char> {
    s.take(first_index(s, c))
}

/// The part of `s` behind its first `c`.
pub open spec fn behind_first(s: Seq<char>, c: char) -> Seq<char>
    recommends
        s.contains(c),
{
    s.skip(first_index(s, c) + 1)
}

/// The part of `s` behind its last `c`; all of `s` if there is none.
pub open spec fn behind_last(s: Seq<char>, c: char) -> Seq<char> {
    s.skip(last_index(s, c) + 1)
}

/// The first index is the only one that holds `c` with no `c` in front of it.
pub proof fn lemma_first_index(s: Seq<char>, c: char, i: int)
    requires
        0 <= i <= s.len(),
        i < s.len() ==> s[i] == c,
        forall|j: int| 0 <= j < i ==> s[j] != c,
    ensures
        first_index(s, c) == i,
    decreases s.len(),
{
    if s.len() > 0 && s[0] != c {
        assert forall|j: int| 0 <= j < i - 1 implies s.drop_first()[j] != c by {
            assert(s.drop_first()[j] == s[j + 1]);
        }
        lemma_first_index(s.drop_first(), c, i - 1);
    }
}

/// What the first index is.
pub proof fn lemma_first_index_bounds(s: Seq<char>, c: char)
    ensures
        0 <= first_index(s, c) <= s.len(),
        first_index(s, c) < s.len() ==> s[first_index(s, c)] == c,
        forall|j: int| 0 <= j < first_index(s, c) ==> s[j] != c,
        first_index(s, c) < s.len() <==> s.contains(c),
    decreases s.len(),
{
    if s.len() > 0 {
        if s[0] == c {
            assert(s.contains(s[0]));
        } else {
            let rest = s.drop_first();
            lemma_first_index_bounds(rest, c);
            let i = first_index(rest, c);
            assert forall|j: int| 0 <= j < i + 1 implies s[j] != c by {
                if j > 0 {
                    assert(rest[j - 1] == s[j]);
                }
            }
            if i < rest.len() {
                assert(s[i + 1] == c);
            }
        }
    }
}

/// What the last index is.
pub proof fn lemma_last_index_bounds(s: Seq<char>, c: char)
    ensures
        -1 <= last_index(s, c) < s.len(),
        last_index(s, c) >= 0 ==> s[last_index(s, c)] == c,
        forall|j: int| last_index(s, c) < j < s.len() ==> s[j] != c,
        last_index(s, c) >= 0 <==> s.contains(c),
    decreases s.len(),
{
    if s.len() > 0 {
        if s.last() == c {
            assert(s.contains(s.last()));
        } else {
            let rest = s.drop_last();
            lemma_last_index_bounds(rest, c);
            assert forall|j: int| last_index(s, c) < j < s.len() implies s[j] != c by {
                if j < rest.len() {
                    assert(rest[j] == s[j]);
                }
            }
            if last_index(rest, c) >= 0 {
                assert(s[last_index(rest, c)] == c);
            }
        }
    }
}

/// The last index is the only one that holds `c` with no `c` behind it.
pub proof fn lemma_last_index(s: Seq<char>, c: char, i: int)
    requires
        0 <= i < s.len(),
        s[i] == c,
        forall|j: int| i < j < s.len() ==> s[j] != c,
    ensures
        last_index(s, c) == i,
{
    lemma_last_index_bounds(s, c);
    assert(s.contains(s[i]));
}

/// What follows the first `c` has no say in what stands in front of it.
pub proof fn lemma_until_first_extends(s: Seq<char>, tail: Seq<char>, c: char)
    requires
        s.contains(c) || (tail.len() > 0 && tail[0] == c),
    ensures
        until_first(s + tail, c) == until_first(s, c),
        first_index(s + tail, c) == first_index(s, c),
{
    lemma_first_index_bounds(s, c);
    let i = first_index(s, c);
    assert forall|j: int| 0 <= j < i implies (s + tail)[j] != c by {
        assert((s + tail)[j] == s[j]);
    }
    lemma_first_index(s + tail, c, i);
    assert((s + tail).take(i) =~= s.take(i));
}

/// Finds the first `c`.
fn find_first(chars: &[char], c: char) -> (i: usize)
    ensures
        i <= chars.len(),
        i == first_index(chars@, c),
        i < chars.len() <==> chars@.contains(c),
        i < chars.len() ==> chars@[i as int] == c,
{
    let mut i: usize = 0;
    while i < chars.len() && chars[i] != c
        invariant
            i <= chars.len(),
            forall|j: int| 0 <= j < i ==> chars@[j] != c,
        decreases chars.len() - i,
    {
        i += 1;
    }
    proof {
        lemma_first_index(chars@, c, i as int);
        lemma_first_index_bounds(chars@, c);
    }
    i
}

/// The part of `s` in front of its first `c`; all of `s` if there is none.
pub fn until<'a>(s: &'a str, c: char) -> (r: &'a str)
    ensures
        r@ == until_first(s@, c),
{
    let chars: Vec<char> = chars_of(s);
    s.substring_char(0, find_first(chars.as_slice(), c))
}

/// The parts of `s` in front of and behind its first `c`.
pub fn split_once<'a>(s: &'a str, c: char) -> (r: Option<(&'a str, &'a str)>)
    ensures
        match r {
            Some((left, right)) => s@.contains(c) && left@ == until_first(s@, c) && right@
                == behind_first(s@, c),
            None => !s@.contains(c),
        },
{
    let chars: Vec<char> = chars_of(s);
    let i: usize = find_first(chars.as_slice(), c);
    if i < chars.len() {
        Some((s.substring_char(0, i), s.substring_char(i + 1, chars.len())))
    } else {
        None
    }
}

/// The parts of `s` in front of its first `c` and from there on. The second
/// part is empty if there is none.
pub fn split_in_front<'a>(s: &'a str, c: char) -> (r: (&'a str, &'a str))
    ensures
        r.0@ == until_first(s@, c),
        r.1@ == s@.skip(first_index(s@, c)),
{
    let chars: Vec<char> = chars_of(s);
    let i: usize = find_first(chars.as_slice(), c);
    (s.substring_char(0, i), s.substring_char(i, chars.len()))
}

/// The part of `s` up to and with its first `c`.
pub fn through<'a>(s: &'a str, c: char) -> (r: Option<&'a str>)
    ensures
        match r {
            Some(head) => s@.contains(c) && head@ == s@.take(first_index(s@, c) + 1),
            None => !s@.contains(c),
        },
{
    let chars: Vec<char> = chars_of(s);
    let i: usize = find_first(chars.as_slice(), c);
    if i < chars.len() {
        Some(s.substring_char(0, i + 1))
    } else {
        None
    }
}

/// The part of `s` behind its last `c`; all of `s` if there is none.
pub fn after_last<'a>(s: &'a str, c: char) -> (r: &'a str)
    ensures
        r@ == behind_last(s@, c),
{
    match split_last(s, c) {
        Some((_, back)) => back,
        None => {
            proof {
                lemma_last_index_bounds(s@, c);
                assert(s@.skip(0) =~= s@);
            }
            s
        },
    }
}

/// The parts of `s` in front of and behind its last `c`.
pub fn split_last<'a>(s: &'a str, c: char) -> (r: Option<(&'a str, &'a str)>)
    ensures
        match r {
            Some((front, back)) => {
                &&& s@.contains(c)
                &&& front@ == s@.take(last_index(s@, c))
                &&& back@ == behind_last(s@, c)
            },
            None => !s@.contains(c),
        },
{
    let chars: Vec<char> = chars_of(s);
    let mut i: usize = chars.len();
    assert(chars@.take(i as int) =~= chars@);
    while i > 0 && chars[i - 1] != c
        invariant
            i <= chars@.len(),
            last_index(chars@, c) == last_index(chars@.take(i as int), c),
        decreases i,
    {
        i -= 1;
        assert(chars@.take(i + 1).drop_last() =~= chars@.take(i as int));
    }
    proof {
        lemma_last_index_bounds(chars@, c);
    }
    if i == 0 {
        return None;
    }
    Some((s.substring_char(0, i - 1), s.substring_char(i, chars.len())))
}

/// `needle` stands in `s` at `i`.
pub open spec fn stands_at(s: Seq<char>, needle: Seq<char>, i: int) -> bool {
    &&& 0 <= i
    &&& i + needle.len() <= s.len()
    &&& s.subrange(i, i + needle.len()) == needle
}

/// `needle` stands in `s` at `i` and nowhere in front of it.
pub open spec fn stands_first_at(s: Seq<char>, needle: Seq<char>, i: int) -> bool {
    &&& stands_at(s, needle, i)
    &&& forall|j: int| 0 <= j < i ==> !#[trigger] stands_at(s, needle, j)
}

/// Where `needle` first stands in `s`.
pub open spec fn first_stand(s: Seq<char>, needle: Seq<char>) -> Option<int> {
    if exists|i: int| stands_first_at(s, needle, i) {
        Some(choose|i: int| stands_first_at(s, needle, i))
    } else {
        None
    }
}

/// There is only one place where `needle` stands first.
pub proof fn lemma_first_stand(s: Seq<char>, needle: Seq<char>, i: int)
    requires
        stands_first_at(s, needle, i),
    ensures
        first_stand(s, needle) == Some(i),
{
    let k = choose|k: int| stands_first_at(s, needle, k);
    if k < i {
        assert(!stands_at(s, needle, k));
    }
    if i < k {
        assert(!stands_at(s, needle, i));
    }
}

/// Where `needle` stands anywhere, it stands somewhere first.
pub proof fn lemma_stand_has_first(s: Seq<char>, needle: Seq<char>, i: int)
    requires
        stands_at(s, needle, i),
    ensures
        first_stand(s, needle) is Some,
    decreases i,
{
    if exists|j: int| 0 <= j < i && stands_at(s, needle, j) {
        let j = choose|j: int| 0 <= j < i && stands_at(s, needle, j);
        lemma_stand_has_first(s, needle, j);
    } else {
        assert(stands_first_at(s, needle, i));
    }
}

/// Whether `needle` stands at `i`.
fn matches_at(chars: &[char], needle: &[char], i: usize) -> (r: bool)
    requires
        i <= chars.len(),
    ensures
        r == stands_at(chars@, needle@, i as int),
{
    if needle.len() > chars.len() - i {
        return false;
    }
    let mut k: usize = 0;
    while k < needle.len()
        invariant
            i + needle.len() <= chars.len(),
            k <= needle.len(),
            forall|j: int| 0 <= j < k ==> chars@[i + j] == #[trigger] needle@[j],
        decreases needle.len() - k,
    {
        if chars[i + k] != needle[k] {
            assert(chars@.subrange(i as int, i + needle@.len())[k as int] != needle@[k as int]);
            return false;
        }
        k += 1;
    }
    assert(chars@.subrange(i as int, i + needle@.len()) =~= needle@);
    true
}

/// The parts of `s` in front of and behind the first occurrence of `needle`.
pub fn split_once_at<'a>(s: &'a str, needle: &str) -> (r: Option<(&'a str, &'a str)>)
    ensures
        match r {
            Some((left, right)) => {
                &&& first_stand(s@, needle@) matches Some(i)
                &&& left@ == s@.take(i)
                &&& right@ == s@.skip(i + needle@.len())
            },
            None => first_stand(s@, needle@) is None,
        },
{
    let chars: Vec<char> = chars_of(s);
    let wanted: Vec<char> = chars_of(needle);
    let mut i: usize = 0;
    loop
        invariant
            i <= chars.len(),
            chars@ == s@,
            wanted@ == needle@,
            forall|j: int| 0 <= j < i ==> !#[trigger] stands_at(s@, needle@, j),
        decreases chars.len() - i,
    {
        if matches_at(chars.as_slice(), wanted.as_slice(), i) {
            proof {
                lemma_first_stand(s@, needle@, i as int);
            }
            return Some((s.substring_char(0, i), s.substring_char(i + wanted.len(), chars.len())));
        }
        if i == chars.len() {
            assert(forall|j: int| !stands_at(s@, needle@, j));
            return None;
        }
        i += 1;
    }
}

/// What is left of `s` when it starts with `prefix`.
pub open spec fn without_prefix(s: Seq<char>, prefix: Seq<char>) -> Option<Seq<char>> {
    if stands_at(s, prefix, 0) {
        Some(s.skip(prefix.len() as int))
    } else {
        None
    }
}

/// Strips `prefix` from the front of `s`.
pub fn strip_prefix<'a>(s: &'a str, prefix: &str) -> (r: Option<&'a str>)
    ensures
        match r {
            Some(rest) => without_prefix(s@, prefix@) == Some(rest@),
            None => without_prefix(s@, prefix@) is None,
        },
{
    let chars: Vec<char> = chars_of(s);
    let wanted: Vec<char> = chars_of(prefix);
    if matches_at(chars.as_slice(), wanted.as_slice(), 0) {
        Some(s.substring_char(wanted.len(), chars.len()))
    } else {
        None
    }
}

// ── Trimming ─────────────────────────────────────────────────────────────────

/// `s` without the trailing characters that belong to `set`.
pub open spec fn trimmed_end(s: Seq<char>, set: Seq<char>) -> Seq<char>
    decreases s.len(),
{
    if s.len() > 0 && set.contains(s.last()) {
        trimmed_end(s.drop_last(), set)
    } else {
        s
    }
}

/// Strips all trailing characters that belong to `set`.
pub fn trim_end_matches<'a>(s: &'a str, set: &[char]) -> (r: &'a str)
    ensures
        r@ == trimmed_end(s@, set@),
{
    let chars: Vec<char> = chars_of(s);
    let mut n: usize = chars.len();
    assert(chars@.take(n as int) =~= chars@);
    while n > 0 && find_first(set, chars[n - 1]) < set.len()
        invariant
            n <= chars@.len(),
            trimmed_end(chars@, set@) == trimmed_end(chars@.take(n as int), set@),
        decreases n,
    {
        n -= 1;
        assert(chars@.take(n + 1).drop_last() =~= chars@.take(n as int));
    }
    s.substring_char(0, n)
}

/// The Unicode `White_Space` property.
pub open spec fn is_space(c: char) -> bool {
    let u = c as u32;
    ||| 0x09 <= u <= 0x0d
    ||| u == 0x20
    ||| u == 0x85
    ||| u == 0xa0
    ||| u == 0x1680
    ||| 0x2000 <= u <= 0x200a
    ||| u == 0x2028
    ||| u == 0x2029
    ||| u == 0x202f
    ||| u == 0x205f
    ||| u == 0x3000
}

/// Whether `c` has the Unicode `White_Space` property.
pub fn is_white_space(c: char) -> (r: bool)
    ensures
        r == is_space(c),
{
    let u: u32 = c as u32;
    (0x09 <= u && u <= 0x0d) || u == 0x20 || u == 0x85 || u == 0xa0 || u == 0x1680 || (0x2000 <= u
        && u <= 0x200a) || u == 0x2028 || u == 0x2029 || u == 0x202f || u == 0x205f || u == 0x3000
}

/// `s` without leading white space.
pub open spec fn trimmed_start(s: Seq<char>) -> Seq<char>
    decreases s.len(),
{
    if s.len() > 0 && is_space(s[0]) {
        trimmed_start(s.drop_first())
    } else {
        s
    }
}

/// `s` without trailing white space.
pub open spec fn trimmed_back(s: Seq<char>) -> Seq<char>
    decreases s.len(),
{
    if s.len() > 0 && is_space(s.last()) {
        trimmed_back(s.drop_last())
    } else {
        s
    }
}

/// `s` without leading and trailing white space.
pub open spec fn trimmed(s: Seq<char>) -> Seq<char> {
    trimmed_back(trimmed_start(s))
}

/// Strips leading and trailing white space.
pub fn trim<'a>(s: &'a str) -> (r: &'a str)
    ensures
        r@ == trimmed(s@),
{
    let chars: Vec<char> = chars_of(s);
    let mut from: usize = 0;
    assert(chars@.skip(0) =~= chars@);
    while from < chars.len() && is_white_space(chars[from])
        invariant
            from <= chars.len(),
            trimmed_start(chars@) == trimmed_start(chars@.skip(from as int)),
        decreases chars.len() - from,
    {
        from += 1;
        assert(chars@.skip(from - 1).drop_first() =~= chars@.skip(from as int));
    }
    let ghost rest = chars@.skip(from as int);
    assert(trimmed_start(chars@) == rest);
    let mut to: usize = chars.len();
    assert(rest.take(to - from) =~= rest);
    while to > from && is_white_space(chars[to - 1])
        invariant
            from <= to <= chars.len(),
            rest == chars@.skip(from as int),
            trimmed_back(rest) == trimmed_back(rest.take(to - from)),
        decreases to,
    {
        assert(rest.take(to - from).drop_last() =~= rest.take(to - 1 - from));
        to -= 1;
    }
    assert(chars@.subrange(from as int, to as int) =~= rest.take(to - from));
    s.substring_char(from, to)
}

/// What is left of a text after trimming is a part of it.
pub proof fn lemma_trimmed_is_part(s: Seq<char>)
    ensures
        forall|c: char| trimmed(s).contains(c) ==> s.contains(c),
{
    lemma_trimmed_start_is_part(s);
    lemma_trimmed_back_is_part(trimmed_start(s));
}

proof fn lemma_trimmed_start_is_part(s: Seq<char>)
    ensures
        forall|c: char| trimmed_start(s).contains(c) ==> s.contains(c),
    decreases s.len(),
{
    if s.len() > 0 && is_space(s[0]) {
        lemma_trimmed_start_is_part(s.drop_first());
        assert forall|c: char| s.drop_first().contains(c) implies s.contains(c) by {
            let i = choose|i: int| 0 <= i < s.drop_first().len() && s.drop_first()[i] == c;
            assert(s[i + 1] == c);
        }
    }
}

proof fn lemma_trimmed_back_is_part(s: Seq<char>)
    ensures
        forall|c: char| trimmed_back(s).contains(c) ==> s.contains(c),
    decreases s.len(),
{
    if s.len() > 0 && is_space(s.last()) {
        lemma_trimmed_back_is_part(s.drop_last());
        assert forall|c: char| s.drop_last().contains(c) implies s.contains(c) by {
            let i = choose|i: int| 0 <= i < s.drop_last().len() && s.drop_last()[i] == c;
            assert(s[i] == c);
        }
    }
}

// ── Letter case ──────────────────────────────────────────────────────────────

/// `c` with an ASCII upper-case letter made lower case.
pub open spec fn lower_char(c: char) -> char {
    if 'A' <= c <= 'Z' {
        ((c as u8) + 32) as char
    } else {
        c
    }
}

/// `c` with an ASCII lower-case letter made upper case.
pub open spec fn upper_char(c: char) -> char {
    if 'a' <= c <= 'z' {
        ((c as u8) - 32) as char
    } else {
        c
    }
}

/// `s` with its ASCII letters made lower case.
pub open spec fn lowered(s: Seq<char>) -> Seq<char> {
    s.map_values(|c: char| lower_char(c))
}

/// `s` with its ASCII letters made upper case.
pub open spec fn uppered(s: Seq<char>) -> Seq<char> {
    s.map_values(|c: char| upper_char(c))
}

/// A text without upper-case letters is its own lower-case form.
pub proof fn lemma_lowered_stays(s: Seq<char>)
    requires
        forall|i: int| 0 <= i < s.len() ==> !('A' <= #[trigger] s[i] <= 'Z'),
    ensures
        lowered(s) == s,
{
    assert(lowered(s) =~= s);
}

fn to_lower(c: char) -> (r: char)
    ensures
        r == lower_char(c),
{
    if 'A' <= c && c <= 'Z' {
        (c as u8 + 32) as char
    } else {
        c
    }
}

fn to_upper(c: char) -> (r: char)
    ensures
        r == upper_char(c),
{
    if 'a' <= c && c <= 'z' {
        (c as u8 - 32) as char
    } else {
        c
    }
}

/// Makes the ASCII letters of `s` lower case.
pub fn to_ascii_lowercase(s: &str) -> (r: String)
    ensures
        r@ == lowered(s@),
{
    let chars: Vec<char> = chars_of(s);
    let mut out: String = String::new();
    let mut i: usize = 0;
    while i < chars.len()
        invariant
            i <= chars.len(),
            out@ == lowered(chars@.take(i as int)),
        decreases chars.len() - i,
    {
        out.push(to_lower(chars[i]));
        i += 1;
        assert(lowered(chars@.take(i as int)) =~= lowered(chars@.take(i - 1)).push(
            lower_char(chars@[i - 1]),
        ));
    }
    assert(chars@.take(i as int) =~= s@);
    out
}

/// Makes the ASCII letters of `s` upper case.
pub fn to_ascii_uppercase(s: &str) -> (r: String)
    ensures
        r@ == uppered(s@),
{
    let chars: Vec<char> = chars_of(s);
    let mut out: String = String::new();
    let mut i: usize = 0;
    while i < chars.len()
        invariant
            i <= chars.len(),
            out@ == uppered(chars@.take(i as int)),
        decreases chars.len() - i,
    {
        out.push(to_upper(chars[i]));
        i += 1;
        assert(uppered(chars@.take(i as int)) =~= uppered(chars@.take(i - 1)).push(
            upper_char(chars@[i - 1]),
        ));
    }
    assert(chars@.take(i as int) =~= s@);
    out
}

/// Whether two strings are the same up to the case of their ASCII letters.
pub fn eq_ignore_ascii_case(a: &str, b: &str) -> (r: bool)
    ensures
        r == (lowered(a@) == lowered(b@)),
{
    let left: String = to_ascii_lowercase(a);
    let right: String = to_ascii_lowercase(b);
    same_text(left.as_str(), right.as_str())
}

// ── Numbers ──────────────────────────────────────────────────────────────────

/// An ASCII decimal digit.
pub open spec fn is_digit(c: char) -> bool {
    '0' <= c <= '9'
}

/// The digit for a value below ten.
pub open spec fn digit(d: nat) -> char {
    ((48 + d) as u8) as char
}

/// The decimal notation of `n`, without leading zeros.
pub open spec fn decimal(n: nat) -> Seq<char>
    decreases n,
{
    if n < 10 {
        seq![digit(n)]
    } else {
        decimal(n / 10).push(digit(n % 10))
    }
}

/// The number that a sequence of digits denotes.
pub open spec fn value_of(s: Seq<char>) -> nat
    decreases s.len(),
{
    if s.len() == 0 {
        0
    } else {
        value_of(s.drop_last()) * 10 + ((s.last() as u8) - 48) as nat
    }
}

/// All characters of `s` are ASCII digits.
pub open spec fn all_digits(s: Seq<char>) -> bool {
    forall|i: int| 0 <= i < s.len() ==> is_digit(#[trigger] s[i])
}

/// `s` without one leading `+`.
pub open spec fn without_plus(s: Seq<char>) -> Seq<char> {
    if s.len() > 0 && s[0] == '+' {
        s.skip(1)
    } else {
        s
    }
}

/// The number written in `s`: an optional `+`, then at least one digit, and no
/// more than fits 32 bits.
pub open spec fn number_in(s: Seq<char>) -> Option<u32> {
    let digits = without_plus(s);
    if digits.len() > 0 && all_digits(digits) && value_of(digits) <= u32::MAX {
        Some(value_of(digits) as u32)
    } else {
        None
    }
}

/// Writes `n` in decimal notation.
pub fn decimal_of(n: u64) -> (s: String)
    ensures
        s@ == decimal(n as nat),
    decreases n,
{
    let last: char = (48 + (n % 10) as u8) as char;
    let mut s: String = if n < 10 {
        String::new()
    } else {
        decimal_of(n / 10)
    };
    s.push(last);
    s
}

/// Cutting digits off never makes the number larger.
proof fn lemma_value_grows(s: Seq<char>, n: int)
    requires
        0 <= n <= s.len(),
    ensures
        value_of(s.take(n)) <= value_of(s),
    decreases s.len() - n,
{
    if n < s.len() {
        lemma_value_grows(s, n + 1);
        assert(s.take(n + 1).drop_last() =~= s.take(n));
    } else {
        assert(s.take(n) =~= s);
    }
}

/// Reads the number written in `s`.
pub fn parse_u32(s: &str) -> (r: Option<u32>)
    ensures
        r == number_in(s@),
{
    let chars: Vec<char> = chars_of(s);
    let start: usize = if chars.len() > 0 && chars[0] == '+' {
        1
    } else {
        0
    };
    let ghost digits = without_plus(s@);
    assert(digits =~= chars@.skip(start as int));
    if start == chars.len() {
        return None;
    }
    let mut value: u64 = 0;
    let mut i: usize = start;
    while i < chars.len()
        invariant
            start <= i <= chars.len(),
            digits == without_plus(s@),
            digits == chars@.skip(start as int),
            digits.len() > 0,
            all_digits(digits.take(i - start)),
            value == value_of(digits.take(i - start)),
            value <= u32::MAX,
        decreases chars.len() - i,
    {
        let c: char = chars[i];
        assert(digits[i - start] == c);
        if !('0' <= c && c <= '9') {
            return None;
        }
        value = value * 10 + (c as u8 - 48) as u64;
        i += 1;
        assert(digits.take(i - start).drop_last() =~= digits.take(i - 1 - start));
        assert(digits.take(i - start).last() == c);
        if value > 0xffff_ffff {
            proof {
                lemma_value_grows(digits, i - start);
            }
            return None;
        }
    }
    assert(digits.take(i - start) =~= digits);
    Some(value as u32)
}

/// Reading a number back from its decimal notation gives the number.
pub proof fn law_decimal_reads_back(n: nat)
    requires
        n <= u32::MAX,
    ensures
        number_in(decimal(n)) == Some(n as u32),
{
    lemma_decimal(n);
}

/// The decimal notation is made of digits and denotes the number.
pub proof fn lemma_decimal(n: nat)
    ensures
        decimal(n).len() > 0,
        all_digits(decimal(n)),
        value_of(decimal(n)) == n,
    decreases n,
{
    reveal_with_fuel(value_of, 2);
    if n >= 10 {
        lemma_decimal(n / 10);
        assert(decimal(n).drop_last() =~= decimal(n / 10));
    }
}

// ── Laws ─────────────────────────────────────────────────────────────────────

/// A text stands at `i` of another exactly if the other is made of `i`
/// characters, that text and something behind it.
pub proof fn law_stand_is_a_split(s: Seq<char>, needle: Seq<char>, i: int)
    ensures
        stands_at(s, needle, i) <==> exists|a: Seq<char>, b: Seq<char>|
            a.len() == i && s == #[trigger] (a + needle + b),
{
    if stands_at(s, needle, i) {
        let a = s.take(i);
        let b = s.skip(i + needle.len());
        assert(s =~= a + s.subrange(i, i + needle.len()) + b);
        assert(s == a + needle + b);
    }
    if exists|a: Seq<char>, b: Seq<char>| a.len() == i && s == #[trigger] (a + needle + b) {
        let (a, b) = choose|a: Seq<char>, b: Seq<char>|
            a.len() == i && s == #[trigger] (a + needle + b);
        assert(s.subrange(i, i + needle.len()) =~= needle);
    }
}

/// The first stand is a stand with none in front of it. Where there is none,
/// the text stands nowhere.
pub proof fn law_first_stand_is_first(s: Seq<char>, needle: Seq<char>)
    ensures
        match first_stand(s, needle) {
            Some(i) => stands_at(s, needle, i) && forall|j: int|
                0 <= j < i ==> !#[trigger] stands_at(s, needle, j),
            None => forall|j: int| !#[trigger] stands_at(s, needle, j),
        },
{
    if first_stand(s, needle) is None {
        assert forall|j: int| !#[trigger] stands_at(s, needle, j) by {
            if stands_at(s, needle, j) {
                lemma_stand_has_first(s, needle, j);
            }
        }
    }
}

/// Stripping a prefix undoes putting it in front, and nothing else is stripped.
pub proof fn law_prefix_is_undone(prefix: Seq<char>, s: Seq<char>)
    ensures
        without_prefix(prefix + s, prefix) == Some(s),
        without_prefix(s, prefix) matches Some(rest) ==> s == prefix + rest,
{
    assert((prefix + s).subrange(0, prefix.len() as int) =~= prefix);
    assert((prefix + s).skip(prefix.len() as int) =~= s);
    if stands_at(s, prefix, 0) {
        assert(s =~= s.subrange(0, prefix.len() as int) + s.skip(prefix.len() as int));
    }
}

/// Trailing characters of a set are stripped, however many, and stripping
/// stops at the first character from behind that is not one of them.
pub proof fn law_trailing_marks_are_stripped(s: Seq<char>, marks: Seq<char>, set: Seq<char>)
    requires
        forall|i: int| 0 <= i < marks.len() ==> set.contains(#[trigger] marks[i]),
        s.len() > 0 ==> !set.contains(s.last()),
    ensures
        trimmed_end(s + marks, set) == s,
    decreases marks.len(),
{
    if marks.len() == 0 {
        assert(s + marks =~= s);
    } else {
        assert((s + marks).drop_last() =~= s + marks.drop_last());
        assert((s + marks).last() == marks[marks.len() - 1]);
        law_trailing_marks_are_stripped(s, marks.drop_last(), set);
    }
}

/// White space within ASCII is the blank and the five control characters from
/// tab to carriage return. Beyond ASCII it is the no-break, the next-line and
/// the wide blanks.
pub proof fn law_white_space(c: char)
    ensures
        c <= '\x7f' ==> (is_space(c) <==> c == ' ' || c == '\t' || c == '\n' || c == '\x0b' || c
            == '\x0c' || c == '\r'),
        c > '\x7f' ==> (is_space(c) <==> c == '\u{85}' || c == '\u{a0}' || c == '\u{1680}' || (
        '\u{2000}' <= c <= '\u{200a}') || c == '\u{2028}' || c == '\u{2029}' || c == '\u{202f}' || c
            == '\u{205f}' || c == '\u{3000}'),
{
}

/// All of `s` is white space.
pub open spec fn is_blank(s: Seq<char>) -> bool {
    forall|i: int| 0 <= i < s.len() ==> is_space(#[trigger] s[i])
}

/// `s` is not empty and neither begins nor ends in white space.
pub open spec fn is_tight(s: Seq<char>) -> bool {
    s.len() > 0 && !is_space(s[0]) && !is_space(s.last())
}

/// Trimming takes away the white space around a text and leaves the text as it
/// is, character for character.
pub proof fn law_trimming_keeps_the_text(front: Seq<char>, s: Seq<char>, back: Seq<char>)
    requires
        is_blank(front),
        is_blank(back),
        is_tight(s),
    ensures
        trimmed(front + s + back) == s,
{
    lemma_trimmed_start(front, s + back);
    assert(front + s + back =~= front + (s + back));
    lemma_trimmed_back(s, back);
}

/// Of white space alone nothing is left.
pub proof fn law_blank_is_trimmed_away(s: Seq<char>)
    requires
        is_blank(s),
    ensures
        trimmed(s) == Seq::<char>::empty(),
    decreases s.len(),
{
    if s.len() > 0 {
        assert(is_blank(s.drop_first())) by {
            assert forall|i: int| 0 <= i < s.drop_first().len() implies is_space(
                #[trigger] s.drop_first()[i],
            ) by {
                assert(s.drop_first()[i] == s[i + 1]);
            }
        }
        law_blank_is_trimmed_away(s.drop_first());
    } else {
        assert(s =~= Seq::<char>::empty());
    }
}

/// What trimming leaves is nothing or a tight text, and only white space was
/// around it.
pub proof fn law_trimmed_is_tight(s: Seq<char>)
    ensures
        trimmed(s).len() == 0 || is_tight(trimmed(s)),
        trimmed(s).len() == 0 ==> is_blank(s),
{
    lemma_trimmed_start_is_suffix(s);
    lemma_trimmed_back_is_prefix(trimmed_start(s));
}

proof fn lemma_trimmed_start_is_suffix(s: Seq<char>)
    ensures
        trimmed_start(s).len() > 0 ==> !is_space(trimmed_start(s)[0]),
        trimmed_start(s).len() == 0 ==> is_blank(s),
    decreases s.len(),
{
    if s.len() > 0 && is_space(s[0]) {
        lemma_trimmed_start_is_suffix(s.drop_first());
        if trimmed_start(s).len() == 0 {
            assert forall|i: int| 0 <= i < s.len() implies is_space(#[trigger] s[i]) by {
                if i > 0 {
                    assert(s.drop_first()[i - 1] == s[i]);
                }
            }
        }
    }
}

proof fn lemma_trimmed_back_is_prefix(s: Seq<char>)
    requires
        s.len() > 0 ==> !is_space(s[0]),
    ensures
        trimmed_back(s).len() > 0 ==> !is_space(trimmed_back(s).last()) && trimmed_back(s)[0]
            == s[0],
        trimmed_back(s).len() == 0 ==> s.len() == 0,
    decreases s.len(),
{
    if s.len() > 0 && is_space(s.last()) {
        assert(s.len() > 1);
        lemma_trimmed_back_is_prefix(s.drop_last());
    }
}

proof fn lemma_trimmed_start(front: Seq<char>, s: Seq<char>)
    requires
        is_blank(front),
        s.len() > 0,
        !is_space(s[0]),
    ensures
        trimmed_start(front + s) == s,
    decreases front.len(),
{
    if front.len() == 0 {
        assert(front + s =~= s);
    } else {
        assert((front + s)[0] == front[0]);
        assert((front + s).drop_first() =~= front.drop_first() + s);
        assert(is_blank(front.drop_first())) by {
            assert forall|i: int| 0 <= i < front.drop_first().len() implies is_space(
                #[trigger] front.drop_first()[i],
            ) by {
                assert(front.drop_first()[i] == front[i + 1]);
            }
        }
        lemma_trimmed_start(front.drop_first(), s);
    }
}

proof fn lemma_trimmed_back(s: Seq<char>, back: Seq<char>)
    requires
        is_blank(back),
        s.len() > 0,
        !is_space(s.last()),
    ensures
        trimmed_back(s + back) == s,
    decreases back.len(),
{
    if back.len() == 0 {
        assert(s + back =~= s);
    } else {
        assert((s + back).last() == back[back.len() - 1]);
        assert((s + back).drop_last() =~= s + back.drop_last());
        lemma_trimmed_back(s, back.drop_last());
    }
}

/// Changing the case touches the twenty-six letters of ASCII and nothing else:
/// `A` and `a` stand at the same distance as any other pair.
pub proof fn law_letter_case(s: Seq<char>, i: int)
    requires
        0 <= i < s.len(),
    ensures
        lowered(s).len() == s.len(),
        uppered(s).len() == s.len(),
        lowered(s)[i] as int == (if 65 <= s[i] as int <= 90 {
            s[i] as int + 32
        } else {
            s[i] as int
        }),
        uppered(s)[i] as int == (if 97 <= s[i] as int <= 122 {
            s[i] as int - 32
        } else {
            s[i] as int
        }),
{
}

/// A digit behind a decimal number is ten times that number and the digit.
pub proof fn law_decimal_appends_digits(n: nat, d: nat, c: char)
    requires
        d < 10,
        c as int == 48 + d,
    ensures
        decimal(d) == seq![c],
        n > 0 ==> decimal(10 * n + d) == decimal(n).push(c),
{
    assert((10 * n + d) / 10 == n && (10 * n + d) % 10 == d);
}

/// The decimal notation of a number begins with a zero only for zero itself.
pub proof fn lemma_decimal_has_no_leading_zero(n: nat)
    ensures
        decimal(n).len() > 0,
        n > 0 ==> decimal(n)[0] != '0',
    decreases n,
{
    if n >= 10 {
        lemma_decimal_has_no_leading_zero(n / 10);
    }
}

/// `k` zeros.
pub open spec fn zeros(k: nat) -> Seq<char> {
    Seq::new(k, |i: int| '0')
}

/// A decimal number is read as itself, with a `+` and any zeros in front of it,
/// if it fits 32 bits. A larger one is not read at all.
pub proof fn law_number_is_read(k: nat, n: nat)
    ensures
        number_in(zeros(k) + decimal(n)) == if n <= u32::MAX {
            Some(n as u32)
        } else {
            None
        },
        number_in(seq!['+'] + zeros(k) + decimal(n)) == if n <= u32::MAX {
            Some(n as u32)
        } else {
            None
        },
{
    let s = zeros(k) + decimal(n);
    lemma_decimal(n);
    lemma_zeros_do_not_count(k, decimal(n));
    assert forall|i: int| 0 <= i < s.len() implies is_digit(#[trigger] s[i]) by {
        if i >= k {
            assert(s[i] == decimal(n)[i - k]);
        }
    }
    assert(is_digit(s[0]));
    assert(without_plus(s) == s);
    let signed = seq!['+'] + zeros(k) + decimal(n);
    assert(signed.skip(1) =~= s);
}

proof fn lemma_zeros_do_not_count(k: nat, s: Seq<char>)
    ensures
        value_of(zeros(k) + s) == value_of(s),
    decreases k + s.len(),
{
    let t = zeros(k) + s;
    if s.len() > 0 {
        assert(t.drop_last() =~= zeros(k) + s.drop_last());
        assert(t.last() == s.last());
        lemma_zeros_do_not_count(k, s.drop_last());
    } else if k > 0 {
        assert(t.drop_last() =~= zeros((k - 1) as nat) + s);
        assert(t.last() == '0');
        lemma_zeros_do_not_count((k - 1) as nat, s);
    } else {
        assert(t =~= s);
    }
}

/// What is read as a number is that number in decimal, behind zeros and one `+`
/// at most.
pub proof fn law_only_numbers_are_read(s: Seq<char>)
    ensures
        number_in(s) matches Some(n) ==> exists|k: nat|
            s == #[trigger] zeros(k) + decimal(n as nat) || s == seq!['+'] + zeros(k) + decimal(
                n as nat,
            ),
{
    if let Some(n) = number_in(s) {
        let digits = without_plus(s);
        lemma_digits_are_a_number(digits);
        let k = choose|k: nat| digits == #[trigger] zeros(k) + decimal(value_of(digits));
        if s[0] == '+' {
            assert(s =~= seq!['+'] + digits);
            assert(seq!['+'] + zeros(k) + decimal(n as nat) =~= seq!['+'] + digits);
        }
        assert(s == zeros(k) + decimal(n as nat) || s == seq!['+'] + zeros(k) + decimal(n as nat));
    }
}

proof fn lemma_digits_are_a_number(s: Seq<char>)
    requires
        s.len() > 0,
        all_digits(s),
    ensures
        exists|k: nat| s == #[trigger] zeros(k) + decimal(value_of(s)),
    decreases s.len(),
{
    let c = s.last();
    let front = s.drop_last();
    let d = (c as int - 48) as nat;
    assert(is_digit(s[s.len() - 1]));
    assert forall|i: int| 0 <= i < front.len() implies is_digit(#[trigger] front[i]) by {
        assert(front[i] == s[i]);
    }
    if front.len() == 0 {
        assert(value_of(front) == 0);
        law_decimal_appends_digits(0, d, c);
        assert(s =~= zeros(0) + decimal(value_of(s)));
    } else {
        lemma_digits_are_a_number(front);
        let v = value_of(front);
        let k = choose|k: nat| front == #[trigger] zeros(k) + decimal(v);
        law_decimal_appends_digits(v, d, c);
        assert(value_of(s) == 10 * v + d);
        assert(s =~= front.push(c));
        if v > 0 {
            assert(decimal(value_of(s)) == decimal(v).push(c));
            assert(s =~= zeros(k) + decimal(value_of(s)));
        } else {
            law_decimal_appends_digits(0, 0, '0');
            assert(front =~= zeros(k + 1));
            assert(s =~= zeros(k + 1) + decimal(value_of(s)));
        }
    }
}

/// What is stripped from the end is marks alone.
pub proof fn law_only_marks_are_stripped(s: Seq<char>, set: Seq<char>)
    ensures
        exists|marks: Seq<char>|
            s == #[trigger] (trimmed_end(s, set) + marks) && forall|i: int|
                0 <= i < marks.len() ==> set.contains(#[trigger] marks[i]),
        trimmed_end(s, set).len() > 0 ==> !set.contains(trimmed_end(s, set).last()),
    decreases s.len(),
{
    if s.len() > 0 && set.contains(s.last()) {
        let front = s.drop_last();
        law_only_marks_are_stripped(front, set);
        let marks = choose|marks: Seq<char>|
            front == #[trigger] (trimmed_end(front, set) + marks) && forall|i: int|
                0 <= i < marks.len() ==> set.contains(#[trigger] marks[i]);
        let all = marks.push(s.last());
        let core = trimmed_end(front, set);
        assert(trimmed_end(s, set) == core);
        assert(front == core + marks);
        assert(s =~= front.push(s.last()));
        assert((core + marks).push(s.last()) =~= core + all);
        assert(s == trimmed_end(s, set) + all);
        assert forall|i: int| 0 <= i < all.len() implies set.contains(#[trigger] all[i]) by {
            if i < marks.len() {
                assert(all[i] == marks[i]);
            }
        }
    } else {
        assert(s =~= trimmed_end(s, set) + Seq::<char>::empty());
    }
}

/// Decimal numbers hold no white space at either end, and no letters.
pub proof fn lemma_decimal_is_tight(n: nat)
    ensures
        is_tight(decimal(n)),
        is_digit(decimal(n)[0]),
        is_digit(decimal(n).last()),
        uppered(decimal(n)) == decimal(n),
{
    lemma_decimal(n);
    assert(is_digit(decimal(n)[0]));
    assert(is_digit(decimal(n)[decimal(n).len() - 1]));
    assert forall|i: int| 0 <= i < decimal(n).len() implies #[trigger] uppered(decimal(n))[i]
        == decimal(n)[i] by {
        assert(is_digit(decimal(n)[i]));
    }
    assert(uppered(decimal(n)) =~= decimal(n));
}

} // verus!
