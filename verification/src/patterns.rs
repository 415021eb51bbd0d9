//! The path shapes of Vimeo URLs, as regular expressions.

use vstd::prelude::*;

use crate::text;

verus! {

/// A public video: `/<id>`.
pub const VIDEO_PATTERN: &'static str = r"^/(\d{6,})$";

/// A private share link: `/<id>/<hash>`.
pub const PRIVATE_VIDEO_PATTERN: &'static str = r"^/(\d{6,})/([a-f0-9]{8,})$";

/// A showcase or album: `/showcase/<id>` or `/album/<id>`.
pub const SHOWCASE_PATTERN: &'static str = r"^/(?:showcase|album)/(\d+)$";

/// An embedded player: `/video/<id>`.
pub const PLAYER_VIDEO_PATTERN: &'static str = r"^/video/(\d{6,})$";

/// Whether a character outside ASCII is a decimal digit (Unicode `Nd`), as the
/// `regex` crate's table for `\d` has it.
pub uninterp spec fn is_decimal_beyond_ascii(c: char) -> bool;

/// The class `\d`: the ASCII digits and the decimal digits beyond ASCII.
pub open spec fn is_decimal(c: char) -> bool {
    if c <= '\x7f' {
        text::is_digit(c)
    } else {
        is_decimal_beyond_ascii(c)
    }
}

/// At least `min` characters, all of the class `\d`.
pub open spec fn is_number(s: Seq<char>, min: int) -> bool {
    &&& s.len() >= min
    &&& forall|i: int| 0 <= i < s.len() ==> is_decimal(#[trigger] s[i])
}

/// A lower-case hexadecimal digit.
pub open spec fn is_lower_hex(c: char) -> bool {
    text::is_digit(c) || 'a' <= c <= 'f'
}

/// A share token: at least eight lower-case hexadecimal digits.
pub open spec fn is_token(s: Seq<char>) -> bool {
    &&& s.len() >= 8
    &&& forall|i: int| 0 <= i < s.len() ==> is_lower_hex(#[trigger] s[i])
}

/// The id of a public video path.
pub open spec fn video_path(path: Seq<char>) -> Option<Seq<char>> {
    match text::without_prefix(path, "/"@) {
        Some(id) => if is_number(id, 6) {
            Some(id)
        } else {
            None
        },
        None => None,
    }
}

/// The id and the token of a private share path.
pub open spec fn private_video_path(path: Seq<char>) -> Option<(Seq<char>, Seq<char>)> {
    match text::without_prefix(path, "/"@) {
        Some(rest) => if rest.contains('/') && is_number(text::until_first(rest, '/'), 6)
            && is_token(text::behind_first(rest, '/')) {
            Some((text::until_first(rest, '/'), text::behind_first(rest, '/')))
        } else {
            None
        },
        None => None,
    }
}

/// The id of a showcase or album path.
pub open spec fn showcase_path(path: Seq<char>) -> Option<Seq<char>> {
    let id = match text::without_prefix(path, "/showcase/"@) {
        Some(id) => Some(id),
        None => text::without_prefix(path, "/album/"@),
    };
    match id {
        Some(id) => if is_number(id, 1) {
            Some(id)
        } else {
            None
        },
        None => None,
    }
}

/// The id of an embedded player path.
pub open spec fn player_video_path(path: Seq<char>) -> Option<Seq<char>> {
    match text::without_prefix(path, "/video/"@) {
        Some(id) => if is_number(id, 6) {
            Some(id)
        } else {
            None
        },
        None => None,
    }
}

/// `groups` are the whole match and one captured group, or there is no match.
pub open spec fn captured_one(
    groups: Option<Vec<Option<String>>>,
    path: Seq<char>,
    id: Option<Seq<char>>,
) -> bool {
    match id {
        Some(id) => {
            &&& groups matches Some(g)
            &&& g@.len() == 2
            &&& g@[0] matches Some(whole)
            &&& whole@ == path
            &&& g@[1] matches Some(first)
            &&& first@ == id
        },
        None => groups is None,
    }
}

/// `groups` are the whole match and two captured groups, or there is no match.
pub open spec fn captured_two(
    groups: Option<Vec<Option<String>>>,
    path: Seq<char>,
    parts: Option<(Seq<char>, Seq<char>)>,
) -> bool {
    match parts {
        Some((id, token)) => {
            &&& groups matches Some(g)
            &&& g@.len() == 3
            &&& g@[0] matches Some(whole)
            &&& whole@ == path
            &&& g@[1] matches Some(first)
            &&& first@ == id
            &&& g@[2] matches Some(second)
            &&& second@ == token
        },
        None => groups is None,
    }
}

/// `regex::Regex::captures` with one of the four patterns of this module: the
/// captured groups of the only match, the whole match first, or `None`.
///
/// All four patterns are anchored at both ends, so a match spans all of
/// `path`. `\d` is the Unicode class of decimal digits; the contract says what
/// it holds within ASCII and names it beyond.
#[verifier::external_body]
pub(crate) fn captures(pattern: &str, path: &str) -> (groups: Option<Vec<Option<String>>>)
    requires
        pattern@ == VIDEO_PATTERN@ || pattern@ == PRIVATE_VIDEO_PATTERN@ || pattern@
            == SHOWCASE_PATTERN@ || pattern@ == PLAYER_VIDEO_PATTERN@,
    ensures
        pattern@ == VIDEO_PATTERN@ ==> captured_one(groups, path@, video_path(path@)),
        pattern@ == PRIVATE_VIDEO_PATTERN@ ==> captured_two(
            groups,
            path@,
            private_video_path(path@),
        ),
        pattern@ == SHOWCASE_PATTERN@ ==> captured_one(groups, path@, showcase_path(path@)),
        pattern@ == PLAYER_VIDEO_PATTERN@ ==> captured_one(groups, path@, player_video_path(path@)),
        groups matches Some(g) ==> (g@[1] matches Some(id) ==> forall|i: int|
            0 <= i < id@.len() && id@[i] > '\x7f' ==> is_decimal_beyond_ascii(#[trigger] id@[i])),
{
    let regex = regex::Regex::new(pattern).expect("a constant pattern compiles");
    let captures = regex.captures(path)?;
    Some(captures.iter().map(|group| group.map(|m| m.as_str().to_string())).collect())
}

} // verus!
