//! Flat JSON objects, as the host functions take them.

use vstd::prelude::*;

use crate::text;

verus! {

/// A value of a flat JSON object.
#[derive(Debug)]
pub enum JsonValue {
    Text(String),
    Number(u32),
    Flag(bool),
    Null,
}

/// The model of a [`JsonValue`].
pub enum JsonModel {
    Text(Seq<char>),
    Number(u32),
    Flag(bool),
    Null,
}

impl View for JsonValue {
    type V = JsonModel;

    open spec fn view(&self) -> JsonModel {
        match self {
            JsonValue::Text(s) => JsonModel::Text(s@),
            JsonValue::Number(n) => JsonModel::Number(*n),
            JsonValue::Flag(b) => JsonModel::Flag(*b),
            JsonValue::Null => JsonModel::Null,
        }
    }
}

/// The lower-case hexadecimal digit for a value below sixteen.
pub open spec fn lower_hex_digit(d: int) -> char {
    if d < 10 {
        ((48 + d) as u8) as char
    } else {
        ((87 + d) as u8) as char
    }
}

/// How a character is written inside a JSON string.
pub open spec fn escaped(c: char) -> Seq<char> {
    if c == '"' {
        seq!['\\', '"']
    } else if c == '\\' {
        seq!['\\', '\\']
    } else if c == '\x08' {
        seq!['\\', 'b']
    } else if c == '\x0c' {
        seq!['\\', 'f']
    } else if c == '\n' {
        seq!['\\', 'n']
    } else if c == '\r' {
        seq!['\\', 'r']
    } else if c == '\t' {
        seq!['\\', 't']
    } else if (c as int) < 32 {
        seq![
            '\\',
            'u',
            '0',
            '0',
            lower_hex_digit((c as int) / 16),
            lower_hex_digit((c as int) % 16),
        ]
    } else {
        seq![c]
    }
}

/// The characters of a JSON string, each written as [`escaped`] says.
pub open spec fn all_escaped(s: Seq<char>) -> Seq<char>
    decreases s.len(),
{
    if s.len() == 0 {
        seq![]
    } else {
        escaped(s[0]) + all_escaped(s.drop_first())
    }
}

/// A JSON string with its quotes.
pub open spec fn quoted(s: Seq<char>) -> Seq<char> {
    seq!['"'] + all_escaped(s) + seq!['"']
}

/// A JSON value.
pub open spec fn value_text(value: JsonModel) -> Seq<char> {
    match value {
        JsonModel::Text(s) => quoted(s),
        JsonModel::Number(n) => text::decimal(n as nat),
        JsonModel::Flag(b) => if b {
            "true"@
        } else {
            "false"@
        },
        JsonModel::Null => "null"@,
    }
}

/// The members of a JSON object, separated by commas.
pub open spec fn members_text(fields: Seq<(Seq<char>, JsonModel)>) -> Seq<char>
    decreases fields.len(),
{
    if fields.len() == 0 {
        seq![]
    } else {
        let member = quoted(fields.last().0) + seq![':'] + value_text(fields.last().1);
        if fields.len() == 1 {
            member
        } else {
            members_text(fields.drop_last()) + seq![','] + member
        }
    }
}

/// A JSON object without white space, its members in the given order.
pub open spec fn object_text(fields: Seq<(Seq<char>, JsonModel)>) -> Seq<char> {
    seq!['{'] + members_text(fields) + seq!['}']
}

/// The model of a list of fields.
pub open spec fn models(fields: Seq<(String, JsonValue)>) -> Seq<(Seq<char>, JsonModel)> {
    fields.map_values(|field: (String, JsonValue)| (field.0@, field.1@))
}

/// No key occurs twice.
pub open spec fn has_distinct_keys(fields: Seq<(Seq<char>, JsonModel)>) -> bool {
    forall|i: int, j: int|
        0 <= i < j < fields.len() ==> (#[trigger] fields[i]).0 != (#[trigger] fields[j]).0
}

/// `serde_json::to_string` on an object with the given members.
///
/// The text is compact, keeps the order of the members, escapes quotes,
/// backslashes and control characters in strings and nothing else, and writes
/// numbers in decimal. An object with string keys and such values always
/// serialises.
#[verifier::external_body]
pub(crate) fn object_to_string(
    fields: Vec<(String, JsonValue)>,
) -> (r: Result<String, serde_json::Error>)
    requires
        has_distinct_keys(models(fields@)),
    ensures
        r is Ok,
        r->Ok_0@ == object_text(models(fields@)),
{
    let convert = |(key, value): (String, JsonValue)| match value {
        JsonValue::Text(s) => (key, serde_json::Value::String(s)),
        JsonValue::Number(n) => (key, serde_json::Value::from(n)),
        JsonValue::Flag(b) => (key, serde_json::Value::Bool(b)),
        JsonValue::Null => (key, serde_json::Value::Null),
    };
    let object: serde_json::Map<_, _> = fields.into_iter().map(convert).collect();
    serde_json::to_string(&object)
}

// ── Reading back ─────────────────────────────────────────────────────────────

/// The value of a hexadecimal digit in either case.
pub open spec fn hex_digit_value(c: char) -> int {
    if '0' <= c <= '9' {
        c as int - 48
    } else if 'a' <= c <= 'f' {
        c as int - 87
    } else {
        c as int - 55
    }
}

/// The character that a JSON string begins with, and how many characters it is
/// written in. There is none at the end of the string and where the text is
/// not JSON.
pub open spec fn first_char(s: Seq<char>) -> Option<(char, int)> {
    if s.len() == 0 || s[0] == '"' || (s[0] as int) < 32 {
        None
    } else if s[0] != '\\' {
        Some((s[0], 1))
    } else if s.len() < 2 {
        None
    } else if s[1] == '"' || s[1] == '\\' || s[1] == '/' {
        Some((s[1], 2))
    } else if s[1] == 'b' {
        Some(('\u{8}', 2))
    } else if s[1] == 'f' {
        Some(('\u{c}', 2))
    } else if s[1] == 'n' {
        Some(('\u{a}', 2))
    } else if s[1] == 'r' {
        Some(('\u{d}', 2))
    } else if s[1] == 't' {
        Some(('\u{9}', 2))
    } else if s[1] == 'u' && s.len() >= 6 {
        Some(
            (
                (((hex_digit_value(s[2]) * 16 + hex_digit_value(s[3])) * 16 + hex_digit_value(
                    s[4],
                )) * 16 + hex_digit_value(s[5])) as u32 as char,
                6,
            ),
        )
    } else {
        None
    }
}

/// The rest of a JSON string up to its closing quote, and what follows.
pub open spec fn string_content(s: Seq<char>) -> Option<(Seq<char>, Seq<char>)>
    decreases s.len(),
{
    if s.len() > 0 && s[0] == '"' {
        Some((seq![], s.skip(1)))
    } else {
        match first_char(s) {
            Some((c, n)) => if n <= s.len() {
                match string_content(s.skip(n)) {
                    Some((content, rest)) => Some((seq![c] + content, rest)),
                    None => None,
                }
            } else {
                None
            },
            None => None,
        }
    }
}

/// A quoted text is read back as that text, whatever characters it holds and
/// whatever follows it.
pub proof fn law_quoted_text_reads_back(s: Seq<char>, rest: Seq<char>)
    ensures
        (quoted(s) + rest)[0] == '"',
        string_content((quoted(s) + rest).skip(1)) == Some((s, rest)),
{
    assert((quoted(s) + rest).skip(1) =~= all_escaped(s) + seq!['"'] + rest);
    lemma_content_reads_back(s, rest);
}

proof fn lemma_hex_digit(d: int)
    requires
        0 <= d < 16,
    ensures
        hex_digit_value(lower_hex_digit(d)) == d,
{
}

/// A character is read back from the way it is written.
proof fn lemma_escape_reads_back(c: char, tail: Seq<char>)
    ensures
        escaped(c)[0] != '"',
        escaped(c).len() > 0,
        first_char(escaped(c) + tail) == Some((c, escaped(c).len() as int)),
{
    let head = escaped(c);
    let all = head + tail;
    let short = c == '"' || c == '\\' || c == '\x08' || c == '\x0c' || c == '\n' || c == '\r' || c
        == '\t';
    assert(all[0] == head[0]);
    if short {
        assert(all[1] == head[1]);
    } else if (c as int) < 32 {
        let high = (c as int) / 16;
        let low = (c as int) % 16;
        assert(all[1] == 'u' && all[2] == '0' && all[3] == '0');
        assert(all[4] == lower_hex_digit(high) && all[5] == lower_hex_digit(low));
        assert(0 <= high <= 1 && 0 <= low < 16 && high * 16 + low == c as int);
        lemma_hex_digit(high);
        lemma_hex_digit(low);
        assert(hex_digit_value('0') == 0);
    }
}

proof fn lemma_content_reads_back(s: Seq<char>, rest: Seq<char>)
    ensures
        string_content(all_escaped(s) + seq!['"'] + rest) == Some((s, rest)),
    decreases s.len(),
{
    let all = all_escaped(s) + seq!['"'] + rest;
    if s.len() == 0 {
        assert(all.skip(1) =~= rest);
        assert(s =~= Seq::<char>::empty());
    } else {
        let c = s[0];
        let head = escaped(c);
        let tail = all_escaped(s.drop_first()) + seq!['"'] + rest;
        lemma_content_reads_back(s.drop_first(), rest);
        assert(all =~= head + tail);
        let n = head.len() as int;
        assert(all.skip(n) =~= tail);
        lemma_escape_reads_back(c, tail);
        assert(seq![c] + s.drop_first() =~= s);
    }
}

/// Characters that are no control characters, no quote and no backslash stand
/// for themselves.
pub proof fn lemma_plain_text_is_not_escaped(s: Seq<char>)
    requires
        forall|i: int|
            0 <= i < s.len() ==> #[trigger] s[i] != '"' && s[i] != '\\' && (s[i] as int) >= 32,
    ensures
        all_escaped(s) == s,
    decreases s.len(),
{
    if s.len() > 0 {
        assert forall|i: int| 0 <= i < s.drop_first().len() implies #[trigger] s.drop_first()[i]
            != '"' && s.drop_first()[i] != '\\' && (s.drop_first()[i] as int) >= 32 by {
            assert(s.drop_first()[i] == s[i + 1]);
        }
        lemma_plain_text_is_not_escaped(s.drop_first());
        assert(s =~= seq![s[0]] + s.drop_first());
    } else {
        assert(s =~= Seq::<char>::empty());
    }
}

} // verus!
