//! Scanning page HTML for the player configuration.
//!
//! The player page assigns a JavaScript object literal to
//! `window.playerConfig`. Finding that object means telling code from string
//! literals: a marker, an `=` or a brace inside a quoted string is data. All
//! scans here work on the bytes of the page and share one notion of quoting,
//! [`Quoting`].

use vstd::prelude::*;
use vstd::string::{StrSliceExecFns, StringSliceAdditionalSpecFns};
use vstd::utf8;

use crate::error::PluginError;

verus! {

pub const DOUBLE_QUOTE: u8 = 0x22;

pub const SINGLE_QUOTE: u8 = 0x27;

pub const BACKSLASH: u8 = 0x5c;

pub const OPEN_BRACE: u8 = 0x7b;

pub const CLOSE_BRACE: u8 = 0x7d;

pub const EQUALS: u8 = 0x3d;

pub const BANG: u8 = 0x21;

pub const LESS: u8 = 0x3c;

pub const GREATER: u8 = 0x3e;

/// What surrounds a position of JavaScript text.
#[derive(Clone, Copy, PartialEq, Eq, Structural)]
pub enum Quoting {
    /// Outside any string literal.
    Code,
    /// Inside a `"`-delimited string.
    Double,
    /// Inside a `'`-delimited string.
    Single,
    /// Right after a backslash inside a `"`-delimited string.
    DoubleEscape,
    /// Right after a backslash inside a `'`-delimited string.
    SingleEscape,
}

impl Quoting {
    /// What surrounds the position behind byte `b`, when `self` surrounds the
    /// position in front of it.
    pub open spec fn then_byte(self, b: u8) -> Quoting {
        match self {
            Quoting::Code => if b == DOUBLE_QUOTE {
                Quoting::Double
            } else if b == SINGLE_QUOTE {
                Quoting::Single
            } else {
                Quoting::Code
            },
            Quoting::Double => if b == BACKSLASH {
                Quoting::DoubleEscape
            } else if b == DOUBLE_QUOTE {
                Quoting::Code
            } else {
                Quoting::Double
            },
            Quoting::Single => if b == BACKSLASH {
                Quoting::SingleEscape
            } else if b == SINGLE_QUOTE {
                Quoting::Code
            } else {
                Quoting::Single
            },
            Quoting::DoubleEscape => Quoting::Double,
            Quoting::SingleEscape => Quoting::Single,
        }
    }

    /// Moves the scan over one byte.
    pub fn step(self, b: u8) -> (next: Quoting)
        ensures
            next == self.then_byte(b),
    {
        match self {
            Quoting::Code => if b == DOUBLE_QUOTE {
                Quoting::Double
            } else if b == SINGLE_QUOTE {
                Quoting::Single
            } else {
                Quoting::Code
            },
            Quoting::Double => if b == BACKSLASH {
                Quoting::DoubleEscape
            } else if b == DOUBLE_QUOTE {
                Quoting::Code
            } else {
                Quoting::Double
            },
            Quoting::Single => if b == BACKSLASH {
                Quoting::SingleEscape
            } else if b == SINGLE_QUOTE {
                Quoting::Code
            } else {
                Quoting::Single
            },
            Quoting::DoubleEscape => Quoting::Double,
            Quoting::SingleEscape => Quoting::Single,
        }
    }

    /// Whether the position is outside any string literal.
    pub fn is_code(self) -> (r: bool)
        ensures
            r == (self == Quoting::Code),
    {
        match self {
            Quoting::Code => true,
            _ => false,
        }
    }
}

/// What surrounds position `i` of `bytes` when a scan enters `start` outside
/// any string.
pub open spec fn quoting_at(bytes: Seq<u8>, start: int, i: int) -> Quoting
    decreases i - start,
{
    if i <= start {
        Quoting::Code
    } else {
        quoting_at(bytes, start, i - 1).then_byte(bytes[i - 1])
    }
}

/// Position `i` is outside any string literal for a scan from `start`.
pub open spec fn in_code(bytes: Seq<u8>, start: int, i: int) -> bool {
    quoting_at(bytes, start, i) == Quoting::Code
}

/// There is a `{` outside any string at `i`.
pub open spec fn brace_at(bytes: Seq<u8>, start: int, i: int) -> bool {
    &&& start <= i < bytes.len()
    &&& bytes[i] == OPEN_BRACE
    &&& in_code(bytes, start, i)
}

/// `i` holds the first `{` outside strings at or behind `start`.
pub open spec fn is_first_brace(bytes: Seq<u8>, start: int, i: int) -> bool {
    &&& brace_at(bytes, start, i)
    &&& forall|j: int| start <= j < i ==> !#[trigger] brace_at(bytes, start, j)
}

/// A byte that can continue an ASCII JavaScript identifier.
pub open spec fn is_ident_byte(b: u8) -> bool {
    ||| 0x30 <= b <= 0x39
    ||| 0x41 <= b <= 0x5a
    ||| 0x61 <= b <= 0x7a
    ||| b == 0x5f
    ||| b == 0x24
}

/// JavaScript ASCII identifier-continuation check: letters, digits, `_`, `$`.
pub fn is_js_ident_continue(b: u8) -> (r: bool)
    ensures
        r == is_ident_byte(b),
{
    (0x30 <= b && b <= 0x39) || (0x41 <= b && b <= 0x5a) || (0x61 <= b && b <= 0x7a) || b == 0x5f
        || b == 0x24
}

/// There is an assignment operator at `j`: an `=` outside strings that is not
/// part of `==`, `===`, `!=`, `!==`, `<=`, `>=` or `=>`. The byte in front of
/// `start` does not count as a neighbour.
pub open spec fn assignment_at(bytes: Seq<u8>, start: int, j: int) -> bool {
    &&& start <= j < bytes.len()
    &&& bytes[j] == EQUALS
    &&& in_code(bytes, start, j)
    &&& j > start ==> bytes[j - 1] != EQUALS && bytes[j - 1] != BANG && bytes[j - 1] != LESS
        && bytes[j - 1] != GREATER
    &&& j + 1 < bytes.len() ==> bytes[j + 1] != EQUALS && bytes[j + 1] != GREATER
}

/// Code behind `start` assigns before it opens its first brace.
pub open spec fn assigns_before_brace(bytes: Seq<u8>, start: int) -> bool {
    exists|b: int| #[trigger]
        is_first_brace(bytes, start, b) && exists|j: int|
            start <= j < b && #[trigger] assignment_at(bytes, start, j)
}

/// Finds the first `{` at or behind `start` that is outside any JavaScript
/// string literal, taking `start` itself to be outside.
pub fn find_brace_outside_strings(bytes: &[u8], start: usize) -> (r: Option<usize>)
    ensures
        match r {
            Some(i) => is_first_brace(bytes@, start as int, i as int),
            None => forall|i: int| !#[trigger] brace_at(bytes@, start as int, i),
        },
{
    let mut state: Quoting = Quoting::Code;
    let mut i: usize = start;
    while i < bytes.len()
        invariant
            start <= i,
            i <= bytes.len() || i == start,
            state == quoting_at(bytes@, start as int, i as int),
            forall|j: int| start <= j < i ==> !#[trigger] brace_at(bytes@, start as int, j),
        decreases bytes.len() - i,
    {
        let b: u8 = bytes[i];
        if state.is_code() && b == OPEN_BRACE {
            return Some(i);
        }
        state = state.step(b);
        i += 1;
    }
    None
}

/// Whether the code from `start` on holds an assignment operator before its
/// first `{`. Without any `{` outside strings the answer is `false`.
pub fn gap_has_assignment_then_brace(bytes: &[u8], start: usize) -> (r: bool)
    ensures
        r == assigns_before_brace(bytes@, start as int),
{
    let mut state: Quoting = Quoting::Code;
    let mut found: bool = false;
    let mut i: usize = start;
    while i < bytes.len()
        invariant
            start <= i,
            i <= bytes.len() || i == start,
            state == quoting_at(bytes@, start as int, i as int),
            forall|j: int| start <= j < i ==> !#[trigger] brace_at(bytes@, start as int, j),
            found <==> exists|j: int|
                start <= j < i && #[trigger] assignment_at(bytes@, start as int, j),
        decreases bytes.len() - i,
    {
        let b: u8 = bytes[i];
        if state.is_code() {
            if b == OPEN_BRACE {
                proof {
                    lemma_gap_answer(bytes@, start as int, i as int);
                }
                return found;
            }
            if b == EQUALS {
                let prev: u8 = if i == start {
                    0
                } else {
                    bytes[i - 1]
                };
                let next: u8 = if i + 1 < bytes.len() {
                    bytes[i + 1]
                } else {
                    0
                };
                let compares: bool = prev == EQUALS || prev == BANG || prev == LESS || prev == GREATER
                    || next == EQUALS || next == GREATER;
                assert(assignment_at(bytes@, start as int, i as int) <==> !compares);
                if !compares {
                    found = true;
                }
            }
        }
        state = state.step(b);
        i += 1;
    }
    false
}

/// With its first brace at `b`, the gap assigns exactly when some operator
/// stands in front of `b`.
proof fn lemma_gap_answer(bytes: Seq<u8>, start: int, b: int)
    requires
        is_first_brace(bytes, start, b),
    ensures
        assigns_before_brace(bytes, start) <==> exists|j: int|
            start <= j < b && #[trigger] assignment_at(bytes, start, j),
{
    assert forall|c: int| #[trigger] is_first_brace(bytes, start, c) implies c == b by {
        lemma_first_brace_is_unique(bytes, start, c, b);
    }
}

/// There is only one first brace.
proof fn lemma_first_brace_is_unique(bytes: Seq<u8>, start: int, b: int, c: int)
    requires
        is_first_brace(bytes, start, b),
        is_first_brace(bytes, start, c),
    ensures
        b == c,
{
    if b < c {
        assert(!brace_at(bytes, start, b));
    }
    if c < b {
        assert(!brace_at(bytes, start, c));
    }
}

/// Whether a gap in front of a brace holds an assignment operator. The gap is
/// taken to start outside any string.
pub fn gap_contains_assignment(gap: &str) -> (r: bool)
    ensures
        r == assigns_before_brace(gap.spec_bytes().push(OPEN_BRACE), 0),
{
    let mut bytes: Vec<u8> = gap.as_bytes_vec();
    bytes.push(OPEN_BRACE);
    gap_has_assignment_then_brace(bytes.as_slice(), 0)
}

/// Whether a marker must be followed by an `=` operator in front of the next
/// `{`.
#[derive(Debug, Clone, Copy, PartialEq, Eq, Structural)]
pub enum RequireAssignment {
    /// The marker is a bare name: look for the operator in the gap.
    Yes,
    /// The marker holds the operator itself.
    No,
}

/// A marker whose bytes leave the quoting alone and that cannot begin anew
/// inside itself: wherever its first byte comes back, an identifier byte
/// stands in front.
pub open spec fn is_plain_marker(needle: Seq<u8>) -> bool {
    &&& forall|k: int|
        0 <= k < needle.len() ==> #[trigger] needle[k] != DOUBLE_QUOTE && needle[k] != SINGLE_QUOTE
    &&& forall|k: int|
        1 <= k < needle.len() && #[trigger] needle[k] == needle[0] ==> is_ident_byte(needle[k - 1])
}

/// `needle` stands at `i` as a whole word of code: outside any string literal,
/// with no identifier byte on either side and, where asked for, followed by an
/// assignment in front of the next `{`.
pub open spec fn marker_at(
    bytes: Seq<u8>,
    needle: Seq<u8>,
    require: RequireAssignment,
    i: int,
) -> bool {
    let after = i + needle.len();
    &&& needle.len() > 0
    &&& 0 <= i
    &&& after <= bytes.len()
    &&& bytes.subrange(i, after) == needle
    &&& in_code(bytes, 0, i)
    &&& i > 0 ==> !is_ident_byte(bytes[i - 1])
    &&& after < bytes.len() ==> !is_ident_byte(bytes[after])
    &&& require == RequireAssignment::Yes ==> assigns_before_brace(bytes, after)
}

/// `i` holds the first such marker.
pub open spec fn is_first_marker(
    bytes: Seq<u8>,
    needle: Seq<u8>,
    require: RequireAssignment,
    i: int,
) -> bool {
    &&& marker_at(bytes, needle, require, i)
    &&& forall|j: int| 0 <= j < i ==> !#[trigger] marker_at(bytes, needle, require, j)
}

/// A stretch without quote bytes that begins in code ends in code.
proof fn lemma_plain_stretch(bytes: Seq<u8>, start: int, i: int, k: int)
    requires
        start <= i <= k <= bytes.len(),
        in_code(bytes, start, i),
        forall|j: int|
            i <= j < k ==> #[trigger] bytes[j] != DOUBLE_QUOTE && bytes[j] != SINGLE_QUOTE,
    ensures
        in_code(bytes, start, k),
    decreases k - i,
{
    if i < k {
        lemma_plain_stretch(bytes, start, i, k - 1);
    }
}

/// Whether `needle` stands at `i`.
fn stands_at(bytes: &[u8], needle: &[u8], i: usize) -> (r: bool)
    requires
        i <= bytes.len(),
    ensures
        r == (i + needle@.len() <= bytes@.len() && bytes@.subrange(i as int, i + needle@.len())
            == needle@),
{
    if needle.len() > bytes.len() - i {
        return false;
    }
    let mut k: usize = 0;
    while k < needle.len()
        invariant
            i + needle.len() <= bytes.len(),
            k <= needle.len(),
            forall|j: int| 0 <= j < k ==> bytes@[i + j] == #[trigger] needle@[j],
        decreases needle.len() - k,
    {
        if bytes[i + k] != needle[k] {
            assert(bytes@.subrange(i as int, i + needle@.len())[k as int] != needle@[k as int]);
            return false;
        }
        k += 1;
    }
    assert(bytes@.subrange(i as int, i + needle@.len()) =~= needle@);
    true
}

/// Finds the first occurrence of `needle` that is outside any string literal,
/// is bounded on both sides by non-identifier bytes and, if asked for, is
/// followed by an assignment in front of the next `{`. Returns its offset and
/// the length of the needle.
fn find_assignment_marker(
    haystack: &str,
    needle: &str,
    require_assignment: RequireAssignment,
) -> (r: Option<(usize, usize)>)
    requires
        is_plain_marker(needle.spec_bytes()),
    ensures
        match r {
            Some((i, n)) => n == needle.spec_bytes().len() && is_first_marker(
                haystack.spec_bytes(),
                needle.spec_bytes(),
                require_assignment,
                i as int,
            ),
            None => forall|i: int|
                !#[trigger] marker_at(
                    haystack.spec_bytes(),
                    needle.spec_bytes(),
                    require_assignment,
                    i,
                ),
        },
{
    let bytes: &[u8] = haystack.as_bytes();
    let needle_bytes: &[u8] = needle.as_bytes();
    let nlen: usize = needle_bytes.len();
    if nlen == 0 {
        return None;
    }
    let mut state: Quoting = Quoting::Code;
    let mut i: usize = 0;
    while i < bytes.len()
        invariant
            i <= bytes.len(),
            nlen == needle_bytes.len(),
            nlen > 0,
            bytes@ == haystack.spec_bytes(),
            needle_bytes@ == needle.spec_bytes(),
            is_plain_marker(needle_bytes@),
            state == quoting_at(bytes@, 0, i as int),
            forall|j: int|
                0 <= j < i ==> !#[trigger] marker_at(
                    bytes@,
                    needle_bytes@,
                    require_assignment,
                    j,
                ),
        decreases bytes.len() - i,
    {
        if state.is_code() && stands_at(bytes, needle_bytes, i) {
            let after: usize = i + nlen;
            let left_ok: bool = i == 0 || !is_js_ident_continue(bytes[i - 1]);
            let right_ok: bool = after == bytes.len() || !is_js_ident_continue(bytes[after]);
            if left_ok && right_ok {
                let assignment_ok: bool = match require_assignment {
                    RequireAssignment::No => true,
                    RequireAssignment::Yes => gap_has_assignment_then_brace(bytes, after),
                };
                if assignment_ok {
                    return Some((i, nlen));
                }
            }
            proof {
                let found = bytes@.subrange(i as int, after as int);
                assert forall|j: int| i <= j < after implies #[trigger] bytes@[j] != DOUBLE_QUOTE
                    && bytes@[j] != SINGLE_QUOTE by {
                    assert(bytes@[j] == found[j - i]);
                }
                lemma_plain_stretch(bytes@, 0, i as int, after as int);
                assert forall|j: int| i < j < after implies !#[trigger] marker_at(
                    bytes@,
                    needle_bytes@,
                    require_assignment,
                    j,
                ) by {
                    assert(bytes@[j] == found[j - i]);
                    assert(bytes@[j - 1] == found[j - i - 1]);
                    if marker_at(bytes@, needle_bytes@, require_assignment, j) {
                        assert(bytes@.subrange(j, j + needle_bytes@.len())[0] == bytes@[j]);
                    }
                }
            }
            i = after;
        } else {
            state = state.step(bytes[i]);
            i += 1;
        }
    }
    None
}

/// Nesting depth at `i`, counting the braces outside strings from `start` on.
pub open spec fn depth_at(bytes: Seq<u8>, start: int, i: int) -> int
    decreases i - start,
{
    if i <= start {
        0
    } else {
        let before = depth_at(bytes, start, i - 1);
        if !in_code(bytes, start, i - 1) {
            before
        } else if bytes[i - 1] == OPEN_BRACE {
            before + 1
        } else if bytes[i - 1] == CLOSE_BRACE {
            before - 1
        } else {
            before
        }
    }
}

/// The brace opened at `start` is closed at `e`.
pub open spec fn closes_at(bytes: Seq<u8>, start: int, e: int) -> bool {
    &&& start <= e < bytes.len()
    &&& bytes[e] == CLOSE_BRACE
    &&& in_code(bytes, start, e)
    &&& depth_at(bytes, start, e + 1) == 0
}

/// `e` is the first position that closes the brace opened at `start`.
pub open spec fn is_object_end(bytes: Seq<u8>, start: int, e: int) -> bool {
    &&& closes_at(bytes, start, e)
    &&& forall|j: int| start <= j < e ==> !#[trigger] closes_at(bytes, start, j)
}

/// Finds the `}` that balances the `{` at `start`, skipping string literals.
fn find_object_end(bytes: &[u8], start: usize) -> (r: Option<usize>)
    requires
        brace_at(bytes@, start as int, start as int),
    ensures
        match r {
            Some(e) => is_object_end(bytes@, start as int, e as int),
            None => forall|e: int| !#[trigger] closes_at(bytes@, start as int, e),
        },
{
    let mut state: Quoting = Quoting::Code;
    let mut depth: usize = 0;
    let mut i: usize = start;
    while i < bytes.len()
        invariant
            start <= i <= bytes.len(),
            brace_at(bytes@, start as int, start as int),
            state == quoting_at(bytes@, start as int, i as int),
            depth == depth_at(bytes@, start as int, i as int),
            depth <= i - start,
            i > start ==> depth >= 1,
            forall|j: int| start <= j < i ==> !#[trigger] closes_at(bytes@, start as int, j),
        decreases bytes.len() - i,
    {
        let b: u8 = bytes[i];
        if state.is_code() {
            if b == OPEN_BRACE {
                depth += 1;
            } else if b == CLOSE_BRACE {
                depth -= 1;
                if depth == 0 {
                    return Some(i);
                }
            }
        }
        state = state.step(b);
        i += 1;
    }
    None
}

/// The canonical assignment target.
pub const CANONICAL: &'static str = "window.playerConfig";

/// The assignment without its `window.` prefix.
pub const FALLBACK: &'static str = "playerConfig =";

/// `s` is the position behind the assignment marker of the page: behind the
/// first canonical marker or, where the page holds none, behind the first
/// fallback marker.
pub open spec fn is_marker_end(bytes: Seq<u8>, s: int) -> bool {
    let canonical = CANONICAL.spec_bytes();
    let fallback = FALLBACK.spec_bytes();
    ||| is_first_marker(bytes, canonical, RequireAssignment::Yes, s - canonical.len())
    ||| {
        &&& forall|j: int| !#[trigger] marker_at(bytes, canonical, RequireAssignment::Yes, j)
        &&& is_first_marker(bytes, fallback, RequireAssignment::No, s - fallback.len())
    }
}

/// The player config of the page spans the bytes from `a` to `e`, both braces
/// counted: `a` is the first brace behind the assignment marker and `e` closes
/// it.
pub open spec fn is_config_block(bytes: Seq<u8>, a: int, e: int) -> bool {
    exists|s: int| #[trigger]
        is_marker_end(bytes, s) && is_first_brace(bytes, s, a) && is_object_end(bytes, a, e)
}

/// A page has at most one assignment marker that counts, and so at most one
/// player config block.
pub proof fn law_config_block_is_unique(bytes: Seq<u8>, a1: int, e1: int, a2: int, e2: int)
    requires
        is_config_block(bytes, a1, e1),
        is_config_block(bytes, a2, e2),
    ensures
        a1 == a2,
        e1 == e2,
{
    let s1 = choose|s: int| #[trigger]
        is_marker_end(bytes, s) && is_first_brace(bytes, s, a1) && is_object_end(bytes, a1, e1);
    let s2 = choose|s: int| #[trigger]
        is_marker_end(bytes, s) && is_first_brace(bytes, s, a2) && is_object_end(bytes, a2, e2);
    lemma_marker_end_is_unique(bytes, s1, s2);
    lemma_first_brace_is_unique(bytes, s1, a1, a2);
    if e1 < e2 {
        assert(!closes_at(bytes, a1, e1));
    }
    if e2 < e1 {
        assert(!closes_at(bytes, a1, e2));
    }
}

/// The position behind the marker is determined by the page.
proof fn lemma_marker_end_is_unique(bytes: Seq<u8>, s1: int, s2: int)
    requires
        is_marker_end(bytes, s1),
        is_marker_end(bytes, s2),
    ensures
        s1 == s2,
{
    let c = CANONICAL.spec_bytes();
    let f = FALLBACK.spec_bytes();
    assert(marker_at(bytes, c, RequireAssignment::Yes, s1 - c.len()) || marker_at(
        bytes,
        f,
        RequireAssignment::No,
        s1 - f.len(),
    ));
    assert(marker_at(bytes, c, RequireAssignment::Yes, s2 - c.len()) || marker_at(
        bytes,
        f,
        RequireAssignment::No,
        s2 - f.len(),
    ));
}

/// The two markers hold no quotes and cannot begin inside themselves.
proof fn lemma_markers_are_plain()
    ensures
        is_plain_marker(CANONICAL.spec_bytes()),
        is_plain_marker(FALLBACK.spec_bytes()),
        CANONICAL.spec_bytes().len() == 19,
        FALLBACK.spec_bytes().len() == 14,
{
    reveal_strlit("window.playerConfig");
    reveal_strlit("playerConfig =");
    let c = CANONICAL@;
    let f = FALLBACK@;
    assert(c =~= seq![
        'w', 'i', 'n', 'd', 'o', 'w', '.', 'p', 'l', 'a', 'y', 'e', 'r', 'C', 'o', 'n', 'f', 'i', 'g',
    ]);
    assert(f =~= seq!['p', 'l', 'a', 'y', 'e', 'r', 'C', 'o', 'n', 'f', 'i', 'g', ' ', '=']);
    assert(utf8::is_ascii_chars(c));
    assert(utf8::is_ascii_chars(f));
    utf8::is_ascii_chars_encode_utf8(c);
    utf8::is_ascii_chars_encode_utf8(f);
}

/// A position behind an ASCII byte is a character boundary.
proof fn lemma_boundary_behind_ascii(bytes: Seq<u8>, i: int)
    requires
        utf8::valid_utf8(bytes),
        0 <= i < bytes.len(),
        bytes[i] < 0x80,
    ensures
        utf8::is_char_boundary(bytes, i),
        utf8::is_char_boundary(bytes, i + 1),
    decreases bytes.len(),
{
    utf8::is_char_boundary_iff_not_is_continuation_byte(bytes, i);
    let n = utf8::length_of_first_scalar(bytes);
    let rest = utf8::pop_first_scalar(bytes);
    if i == 0 {
        assert(utf8::is_char_boundary(rest, 0));
    } else {
        assert(utf8::is_char_boundary(bytes, i) == utf8::is_char_boundary(rest, i - n));
        assert(i >= n);
        assert(rest[i - n] == bytes[i]);
        lemma_boundary_behind_ascii(rest, i - n);
    }
}

/// `r` is what extraction gives on `html`: the config block, or an error if
/// there is none.
pub open spec fn is_extracted(html: &str, r: Result<&str, PluginError>) -> bool {
    match r {
        Ok(block) => exists|a: int, e: int|
            #![trigger is_config_block(html.spec_bytes(), a, e)]
            is_config_block(html.spec_bytes(), a, e) && block.spec_bytes()
                == html.spec_bytes().subrange(a, e + 1),
        Err(error) => error is PlayerConfigNotFound && forall|a: int, e: int|
            !#[trigger] is_config_block(html.spec_bytes(), a, e),
    }
}

/// Extracts the `{…}` block of the `window.playerConfig = {…};` assignment
/// embedded in a player page.
///
/// The scan balances braces outside string literals and knows both `"` and
/// `'` as delimiters, so nested objects and braces inside strings are kept
/// whole.
pub fn extract_player_config_from_html(html: &str) -> (r: Result<&str, PluginError>)
    ensures
        is_extracted(html, r),
{
    proof {
        lemma_markers_are_plain();
    }
    let ghost page = html.spec_bytes();
    let bytes: &[u8] = html.as_bytes();
    let total: usize = bytes.len();
    let canonical = find_assignment_marker(html, CANONICAL, RequireAssignment::Yes);
    let marker = match canonical {
        Some(found) => Some(found),
        None => find_assignment_marker(html, FALLBACK, RequireAssignment::No),
    };
    let needle_end: usize = match marker {
        Some((i, n)) => i + n,
        None => {
            return Err(PluginError::PlayerConfigNotFound);
        },
    };
    assert(needle_end <= total);
    assert(is_marker_end(page, needle_end as int));
    assert forall|s: int| #[trigger] is_marker_end(page, s) implies s == needle_end by {
        lemma_marker_end_is_unique(page, s, needle_end as int);
    }
    let brace_start: usize = match find_brace_outside_strings(bytes, needle_end) {
        Some(i) => i,
        None => {
            assert(forall|a: int| !is_first_brace(page, needle_end as int, a));
            return Err(PluginError::PlayerConfigNotFound);
        },
    };
    let end: usize = match find_object_end(bytes, brace_start) {
        Some(i) => i,
        None => {
            assert forall|a: int, e: int| !#[trigger] is_config_block(page, a, e) by {
                if is_config_block(page, a, e) {
                    lemma_first_brace_is_unique(page, needle_end as int, a, brace_start as int);
                    assert(!closes_at(page, a, e));
                }
            }
            return Err(PluginError::PlayerConfigNotFound);
        },
    };
    assert(is_config_block(page, brace_start as int, end as int));
    proof {
        utf8::encode_utf8_valid_utf8(html@);
        lemma_boundary_behind_ascii(page, end as int);
    }
    let (head, _) = html.split_at(end + 1);
    proof {
        utf8::encode_utf8_valid_utf8(head@);
        lemma_boundary_behind_ascii(head.spec_bytes(), brace_start as int);
    }
    let (_, block) = head.split_at(brace_start);
    assert(block.spec_bytes() =~= page.subrange(brace_start as int, end + 1));
    Ok(block)
}

/// A scan that enters `mid` outside any string goes on as one that starts
/// there.
proof fn lemma_scan_restarts(bytes: Seq<u8>, start: int, mid: int, i: int)
    requires
        start <= mid <= i,
        in_code(bytes, start, mid),
    ensures
        quoting_at(bytes, start, i) == quoting_at(bytes, mid, i),
    decreases i - mid,
{
    if mid < i {
        lemma_scan_restarts(bytes, start, mid, i - 1);
    }
}

/// The player config block begins with `{` and ends with `}`, and both stand
/// outside every string literal of the page as a whole: the quoting is tracked
/// from the very first byte and never lost.
pub proof fn law_config_block_is_code(bytes: Seq<u8>, a: int, e: int)
    requires
        is_config_block(bytes, a, e),
    ensures
        0 <= a < e < bytes.len(),
        bytes[a] == OPEN_BRACE,
        bytes[e] == CLOSE_BRACE,
        in_code(bytes, 0, a),
        in_code(bytes, 0, e),
        depth_at(bytes, a, e + 1) == 0,
{
    let s = choose|s: int| #[trigger]
        is_marker_end(bytes, s) && is_first_brace(bytes, s, a) && is_object_end(bytes, a, e);
    let needle = if is_first_marker(
        bytes,
        CANONICAL.spec_bytes(),
        RequireAssignment::Yes,
        s - CANONICAL.spec_bytes().len(),
    ) {
        CANONICAL.spec_bytes()
    } else {
        FALLBACK.spec_bytes()
    };
    let i = s - needle.len();
    lemma_markers_are_plain();
    assert(bytes.subrange(i, s) == needle);
    assert forall|j: int| i <= j < s implies #[trigger] bytes[j] != DOUBLE_QUOTE && bytes[j]
        != SINGLE_QUOTE by {
        assert(bytes[j] == bytes.subrange(i, s)[j - i]);
    }
    lemma_plain_stretch(bytes, 0, i, s);
    lemma_scan_restarts(bytes, 0, s, a);
    lemma_scan_restarts(bytes, 0, a, e);
}

/// A stretch of the page is scanned as the same bytes on their own.
proof fn lemma_quoting_of_part(bytes: Seq<u8>, part: Seq<u8>, start: int, i: int)
    requires
        0 <= start,
        0 <= i <= part.len(),
        start + part.len() <= bytes.len(),
        bytes.subrange(start, start + part.len()) == part,
    ensures
        quoting_at(bytes, start, start + i) == quoting_at(part, 0, i),
        depth_at(bytes, start, start + i) == depth_at(part, 0, i),
    decreases i,
{
    if i > 0 {
        lemma_quoting_of_part(bytes, part, start, i - 1);
        assert(bytes[start + i - 1] == part[i - 1]);
    }
}

/// The text between the marker and the object: it starts with a byte that
/// ends the marker's name, assigns, and holds no brace of its own outside
/// strings.
pub open spec fn is_assigning_gap(gap: Seq<u8>) -> bool {
    &&& gap.len() > 0
    &&& !is_ident_byte(gap[0])
    &&& is_first_brace(gap.push(OPEN_BRACE), 0, gap.len() as int)
    &&& assigns_before_brace(gap.push(OPEN_BRACE), 0)
}

/// An object literal that is complete at its last byte and not before.
pub open spec fn is_object_text(object: Seq<u8>) -> bool {
    &&& brace_at(object, 0, 0)
    &&& is_object_end(object, 0, object.len() - 1)
}

/// Behind a gap without braces of its own stands the object, from its first
/// byte to its last.
proof fn lemma_object_behind_gap(page: Seq<u8>, s: int, gap: Seq<u8>, object: Seq<u8>)
    requires
        0 <= s,
        s + gap.len() + object.len() <= page.len(),
        is_first_brace(gap.push(OPEN_BRACE), 0, gap.len() as int),
        is_object_text(object),
        page.subrange(s, s + gap.len()) == gap,
        page.subrange(s + gap.len(), s + gap.len() + object.len()) == object,
    ensures
        is_first_brace(page, s, s + gap.len()),
        is_object_end(page, s + gap.len(), s + gap.len() + object.len() - 1),
{
    let gap_and_brace = gap.push(OPEN_BRACE);
    let a = s + gap.len();
    let e = a + object.len() - 1;
    assert(page[a] == page.subrange(a, a + object.len())[0]);
    assert forall|j: int| 0 <= j < gap_and_brace.len() implies page[s + j]
        == #[trigger] gap_and_brace[j] by {
        if j < gap.len() {
            assert(page[s + j] == page.subrange(s, a)[j]);
        }
    }
    assert(page.subrange(s, s + gap_and_brace.len()) =~= gap_and_brace);
    assert forall|j: int| 0 <= j <= gap.len() implies #[trigger] brace_at(page, s, s + j)
        == brace_at(gap_and_brace, 0, j) by {
        lemma_quoting_of_part(page, gap_and_brace, s, j);
        assert(page[s + j] == gap_and_brace[j]);
    }
    assert(brace_at(page, s, s + gap.len()));
    assert forall|j: int| s <= j < a implies !#[trigger] brace_at(page, s, j) by {
        assert(brace_at(page, s, s + (j - s)) == brace_at(gap_and_brace, 0, j - s));
        assert(!brace_at(gap_and_brace, 0, j - s));
    }
    assert forall|j: int| 0 <= j < object.len() implies #[trigger] closes_at(page, a, a + j)
        == closes_at(object, 0, j) by {
        lemma_quoting_of_part(page, object, a, j);
        lemma_quoting_of_part(page, object, a, j + 1);
        assert(page[a + j] == page.subrange(a, a + object.len())[j]);
    }
    assert(closes_at(page, a, a + (object.len() - 1)));
    assert forall|j: int| a <= j < e implies !#[trigger] closes_at(page, a, j) by {
        assert(closes_at(page, a, a + (j - a)) == closes_at(object, 0, j - a));
        assert(!closes_at(object, 0, j - a));
    }
}

/// What a page assigns to `window.playerConfig` is what is extracted from it,
/// byte for byte, whatever follows: for any text `before` that ends outside
/// strings and in front of a new word and holds no earlier assignment marker,
/// the block of the page `before window.playerConfig gap object rest` is
/// `object`.
pub proof fn law_assigned_object_is_extracted(
    before: Seq<u8>,
    gap: Seq<u8>,
    object: Seq<u8>,
    rest: Seq<u8>,
)
    requires
        in_code(before, 0, before.len() as int),
        before.len() > 0 ==> !is_ident_byte(before.last()),
        is_assigning_gap(gap),
        is_object_text(object),
        forall|j: int|
            0 <= j < before.len() ==> !#[trigger] marker_at(
                before + CANONICAL.spec_bytes() + gap + object + rest,
                CANONICAL.spec_bytes(),
                RequireAssignment::Yes,
                j,
            ),
    ensures
        ({
            let page = before + CANONICAL.spec_bytes() + gap + object + rest;
            let a = before.len() + CANONICAL.spec_bytes().len() + gap.len();
            let e = a + object.len() - 1;
            &&& is_config_block(page, a as int, e)
            &&& page.subrange(a as int, e + 1) == object
        }),
{
    let needle = CANONICAL.spec_bytes();
    let page = before + needle + gap + object + rest;
    let i = before.len() as int;
    let s = i + needle.len();
    let a = s + gap.len();
    let gap_and_brace = gap.push(OPEN_BRACE);
    lemma_markers_are_plain();
    assert(page.subrange(0, i) =~= before);
    assert(page.subrange(i, s) =~= needle);
    assert(page.subrange(s, a) =~= gap);
    assert(page.subrange(a, a + object.len()) =~= object);
    assert(page.subrange(s, s + gap_and_brace.len()) =~= gap_and_brace);
    lemma_quoting_of_part(page, before, 0, i);
    lemma_object_behind_gap(page, s, gap, object);
    assert(page[s] == gap[0]);
    assert(assigns_before_brace(page, s)) by {
        let b = choose|b: int| #[trigger]
            is_first_brace(gap_and_brace, 0, b) && exists|j: int|
                0 <= j < b && #[trigger] assignment_at(gap_and_brace, 0, j);
        lemma_first_brace_is_unique(gap_and_brace, 0, b, gap.len() as int);
        let j = choose|j: int| 0 <= j < b && #[trigger] assignment_at(gap_and_brace, 0, j);
        lemma_quoting_of_part(page, gap_and_brace, s, j);
        assert(page[s + j] == gap_and_brace[j]);
        assert(page[s + j + 1] == gap_and_brace[j + 1]);
        if j > 0 {
            assert(page[s + j - 1] == gap_and_brace[j - 1]);
        }
        assert(assignment_at(page, s, s + j));
    }
    if i > 0 {
        assert(page[i - 1] == before.last());
    }
    assert(marker_at(page, needle, RequireAssignment::Yes, i));
    assert(is_marker_end(page, s));
}

/// A page that never assigns to `window.playerConfig` may assign to
/// `playerConfig` alone: then that object is extracted, byte for byte.
pub proof fn law_unprefixed_object_is_extracted(
    before: Seq<u8>,
    gap: Seq<u8>,
    object: Seq<u8>,
    rest: Seq<u8>,
)
    requires
        in_code(before, 0, before.len() as int),
        before.len() > 0 ==> !is_ident_byte(before.last()),
        gap.len() > 0 ==> !is_ident_byte(gap[0]),
        is_first_brace(gap.push(OPEN_BRACE), 0, gap.len() as int),
        is_object_text(object),
        forall|j: int|
            !#[trigger] marker_at(
                before + FALLBACK.spec_bytes() + gap + object + rest,
                CANONICAL.spec_bytes(),
                RequireAssignment::Yes,
                j,
            ),
        forall|j: int|
            0 <= j < before.len() ==> !#[trigger] marker_at(
                before + FALLBACK.spec_bytes() + gap + object + rest,
                FALLBACK.spec_bytes(),
                RequireAssignment::No,
                j,
            ),
    ensures
        ({
            let page = before + FALLBACK.spec_bytes() + gap + object + rest;
            let a = before.len() + FALLBACK.spec_bytes().len() + gap.len();
            let e = a + object.len() - 1;
            &&& is_config_block(page, a as int, e)
            &&& page.subrange(a as int, e + 1) == object
        }),
{
    let needle = FALLBACK.spec_bytes();
    let page = before + needle + gap + object + rest;
    let i = before.len() as int;
    let s = i + needle.len();
    let a = s + gap.len();
    lemma_markers_are_plain();
    assert(page.subrange(0, i) =~= before);
    assert(page.subrange(i, s) =~= needle);
    assert(page.subrange(s, a) =~= gap);
    assert(page.subrange(a, a + object.len()) =~= object);
    lemma_quoting_of_part(page, before, 0, i);
    lemma_object_behind_gap(page, s, gap, object);
    assert(page[s] == if gap.len() > 0 {
        gap[0]
    } else {
        object[0]
    });
    if i > 0 {
        assert(page[i - 1] == before.last());
    }
    assert(marker_at(page, needle, RequireAssignment::No, i));
    assert(is_marker_end(page, s));
}

// ── Strings, objects, assignments ────────────────────────────────────────────

/// What can stand between two quotes `q`: bytes other than `q` and `\`, and
/// pairs of a `\` and any byte.
pub open spec fn is_string_body(q: u8, t: Seq<u8>) -> bool
    decreases t.len(),
{
    if t.len() == 0 {
        true
    } else if t[0] == 0x5c {
        t.len() >= 2 && is_string_body(q, t.skip(2))
    } else {
        t[0] != q && is_string_body(q, t.skip(1))
    }
}

/// A `"` or a `'`.
pub open spec fn is_quote(q: u8) -> bool {
    q == 0x22 || q == 0x27
}

/// The quoting inside a string that `q` delimits.
spec fn inside(q: u8) -> Quoting {
    if q == 0x22 {
        Quoting::Double
    } else {
        Quoting::Single
    }
}

/// The body of a string is inside it from end to end.
proof fn lemma_string_body(bytes: Seq<u8>, start: int, i: int, q: u8, t: Seq<u8>)
    requires
        is_quote(q),
        is_string_body(q, t),
        0 <= start <= i,
        i + t.len() <= bytes.len(),
        bytes.subrange(i, i + t.len()) == t,
        quoting_at(bytes, start, i) == inside(q),
    ensures
        quoting_at(bytes, start, i + t.len()) == inside(q),
        forall|j: int| i <= j <= i + t.len() ==> !#[trigger] in_code(bytes, start, j),
    decreases t.len(),
{
    if t.len() > 0 {
        let n: int = if t[0] == 0x5c {
            2
        } else {
            1
        };
        assert(bytes[i] == bytes.subrange(i, i + t.len())[0]);
        assert(quoting_at(bytes, start, i + 1) == quoting_at(bytes, start, i).then_byte(bytes[i]));
        if n == 2 {
            assert(quoting_at(bytes, start, i + 2) == quoting_at(bytes, start, i + 1).then_byte(
                bytes[i + 1],
            ));
        }
        assert(bytes.subrange(i + n, i + t.len()) =~= t.skip(n));
        lemma_string_body(bytes, start, i + n, q, t.skip(n));
        assert forall|j: int| i <= j <= i + t.len() implies !#[trigger] in_code(
            bytes,
            start,
            j,
        ) by {
            if j < i + n {
                assert(j == i || j == i + 1);
            }
        }
    }
}

/// A string that begins in code is skipped to its end.
proof fn lemma_string_in(bytes: Seq<u8>, start: int, i: int, q: u8, t: Seq<u8>)
    requires
        is_quote(q),
        is_string_body(q, t),
        0 <= start <= i,
        i + t.len() + 2 <= bytes.len(),
        bytes.subrange(i, i + t.len() + 2) == seq![q] + t + seq![q],
        in_code(bytes, start, i),
    ensures
        in_code(bytes, start, i + t.len() + 2),
        forall|j: int| i < j < i + t.len() + 2 ==> !#[trigger] in_code(bytes, start, j),
{
    let all = seq![q] + t + seq![q];
    assert(bytes[i] == bytes.subrange(i, i + t.len() + 2)[0]);
    assert(bytes[i + 1 + t.len()] == bytes.subrange(i, i + t.len() + 2)[1 + t.len() as int]);
    assert(bytes.subrange(i + 1, i + 1 + t.len()) =~= t) by {
        assert forall|k: int| 0 <= k < t.len() implies bytes[i + 1 + k] == #[trigger] t[k] by {
            assert(bytes[i + 1 + k] == bytes.subrange(i, i + t.len() + 2)[1 + k]);
            assert(all[1 + k] == t[k]);
        }
    }
    lemma_string_body(bytes, start, i + 1, q, t);
}

/// Nothing precedes the first byte, and what is outside strings stays outside
/// with every byte that is no quote. A backslash there is a byte like others.
pub proof fn law_code_goes_on(before: Seq<u8>, b: u8)
    requires
        in_code(before, 0, before.len() as int),
        !is_quote(b),
    ensures
        in_code(Seq::empty(), 0, 0),
        in_code(before.push(b), 0, before.len() as int + 1),
{
    let page = before.push(b);
    assert(page.subrange(0, before.len() as int) =~= before);
    lemma_quoting_of_part(page, before, 0, before.len() as int);
}

/// A string is skipped from quote to quote, whatever escapes it holds: behind
/// it is code again, and none of its bytes is.
pub proof fn law_string_is_skipped(before: Seq<u8>, q: u8, t: Seq<u8>, after: Seq<u8>)
    requires
        in_code(before, 0, before.len() as int),
        is_quote(q),
        is_string_body(q, t),
    ensures
        ({
            let page = before + (seq![q] + t + seq![q]) + after;
            let end = before.len() + t.len() + 2;
            &&& in_code(page, 0, end as int)
            &&& forall|j: int| before.len() < j < end ==> !#[trigger] in_code(page, 0, j)
        }),
{
    let page = before + (seq![q] + t + seq![q]) + after;
    let i = before.len() as int;
    assert(page.subrange(0, i) =~= before);
    lemma_quoting_of_part(page, before, 0, i);
    assert(page.subrange(i, i + t.len() + 2) =~= seq![q] + t + seq![q]);
    lemma_string_in(page, 0, i, q, t);
}

/// A piece of an object: a byte that is no quote and no brace, a string, or
/// another object.
pub open spec fn is_object_piece(p: Seq<u8>) -> bool {
    ||| p.len() == 1 && !is_quote(p[0]) && p[0] != 0x7b && p[0] != 0x7d
    ||| exists|q: u8, t: Seq<u8>|
        is_quote(q) && is_string_body(q, t) && p == #[trigger] (seq![q] + t + seq![q])
    ||| is_object_text(p)
}

/// Inside an object that is not closed yet, the depth is at least one.
proof fn lemma_depth_is_positive(o: Seq<u8>, e: int, j: int)
    requires
        brace_at(o, 0, 0),
        0 < j <= e <= o.len(),
        forall|k: int| 0 <= k < e ==> !#[trigger] closes_at(o, 0, k),
    ensures
        depth_at(o, 0, j) >= 1,
    decreases j,
{
    if j == 1 {
        assert(depth_at(o, 0, 0) == 0);
    } else {
        lemma_depth_is_positive(o, e, j - 1);
        assert(!closes_at(o, 0, j - 1));
    }
}

/// Scanned from within another text, an object has the quoting that it has
/// alone, and its depth on top of that around it.
proof fn lemma_scan_of_inner(page: Seq<u8>, n: int, p: Seq<u8>, j: int)
    requires
        0 <= n,
        0 <= j <= p.len(),
        n + p.len() <= page.len(),
        page.subrange(n, n + p.len()) == p,
        in_code(page, 0, n),
    ensures
        quoting_at(page, 0, n + j) == quoting_at(p, 0, j),
        depth_at(page, 0, n + j) == depth_at(page, 0, n) + depth_at(p, 0, j),
    decreases j,
{
    if j > 0 {
        lemma_scan_of_inner(page, n, p, j - 1);
        assert(page[n + j - 1] == page.subrange(n, n + p.len())[j - 1]);
    }
}

/// A piece inside an object ends outside strings and at the depth at which it
/// began, and does not close the object.
proof fn lemma_piece_is_neutral(page: Seq<u8>, n: int, p: Seq<u8>)
    requires
        is_object_piece(p),
        0 <= n,
        n + p.len() <= page.len(),
        page.subrange(n, n + p.len()) == p,
        in_code(page, 0, n),
        depth_at(page, 0, n) >= 1,
    ensures
        in_code(page, 0, n + p.len()),
        depth_at(page, 0, n + p.len()) == depth_at(page, 0, n),
        forall|k: int| n <= k < n + p.len() ==> !#[trigger] closes_at(page, 0, k),
{
    if is_object_text(p) {
        let e = p.len() - 1;
        lemma_scan_of_inner(page, n, p, p.len() as int);
        lemma_scan_of_inner(page, n, p, e);
        assert(p[e] == 0x7d);
        assert forall|k: int| n <= k < n + p.len() implies !#[trigger] closes_at(page, 0, k) by {
            let j = k - n;
            lemma_scan_of_inner(page, n, p, j + 1);
            if j + 1 <= e {
                lemma_depth_is_positive(p, e, j + 1);
            }
        }
        assert(quoting_at(p, 0, p.len() as int) == quoting_at(p, 0, e).then_byte(p[e]));
    } else if exists|q: u8, t: Seq<u8>|
        is_quote(q) && is_string_body(q, t) && p == #[trigger] (seq![q] + t + seq![q]) {
        let (q, t) = choose|q: u8, t: Seq<u8>|
            is_quote(q) && is_string_body(q, t) && p == #[trigger] (seq![q] + t + seq![q]);
        lemma_string_in(page, 0, n, q, t);
        assert(page[n] == page.subrange(n, n + p.len())[0]);
        lemma_depth_stays(page, n, n + p.len());
        assert forall|k: int| n <= k < n + p.len() implies !#[trigger] closes_at(page, 0, k) by {
            if k > n {
                assert(!in_code(page, 0, k));
            }
        }
    } else {
        assert(page[n] == page.subrange(n, n + p.len())[0]);
    }
}

/// Where no brace stands in code, the depth stays.
proof fn lemma_depth_stays(page: Seq<u8>, n: int, e: int)
    requires
        0 <= n <= e <= page.len(),
        forall|j: int| n < j < e ==> !#[trigger] in_code(page, 0, j),
        n < e ==> page[n] != 0x7b && page[n] != 0x7d,
    ensures
        depth_at(page, 0, e) == depth_at(page, 0, n),
    decreases e - n,
{
    if n < e {
        lemma_depth_stays(page, n, e - 1);
        if e - 1 > n {
            assert(!in_code(page, 0, e - 1));
        }
    }
}

/// Two braces are an object, and an object goes on being one with another
/// piece in front of its last brace. So every text of nested braces, strings
/// with their escapes and other bytes is an object up to its last brace.
pub proof fn law_object_grows(u: Seq<u8>, p: Seq<u8>)
    requires
        is_object_text(seq![0x7b] + u + seq![0x7d]),
        is_object_piece(p),
    ensures
        is_object_text(seq![0x7b, 0x7d]),
        is_object_text(seq![0x7b] + (u + p) + seq![0x7d]),
{
    let pair: Seq<u8> = seq![0x7b, 0x7d];
    assert(depth_at(pair, 0, 0) == 0);
    assert(depth_at(pair, 0, 1) == 1);
    assert(depth_at(pair, 0, 2) == 0);
    assert(brace_at(pair, 0, 0));
    assert(closes_at(pair, 0, 1));
    let old_object: Seq<u8> = seq![0x7b] + u + seq![0x7d];
    let object: Seq<u8> = seq![0x7b] + (u + p) + seq![0x7d];
    let front: Seq<u8> = seq![0x7b] + u;
    let n = front.len() as int;
    let e = n + p.len();
    assert(old_object.subrange(0, n) =~= front);
    assert(object.subrange(0, n) =~= front);
    assert(object.subrange(n, e) =~= p);
    assert(object[0] == 0x7b && object[e] == 0x7d && object.len() == e + 1);
    assert(old_object[n] == 0x7d && old_object.len() == n + 1);
    assert forall|j: int| 0 <= j <= n implies quoting_at(object, 0, j) == quoting_at(
        old_object,
        0,
        j,
    ) && #[trigger] depth_at(object, 0, j) == depth_at(old_object, 0, j) by {
        lemma_quoting_of_part(object, front, 0, j);
        lemma_quoting_of_part(old_object, front, 0, j);
    }
    assert(depth_at(old_object, 0, n + 1) == 0);
    assert(depth_at(old_object, 0, n) == 1);
    assert(depth_at(object, 0, n) == 1);
    lemma_piece_is_neutral(object, n, p);
    assert(closes_at(object, 0, e));
    assert forall|k: int| 0 <= k < e implies !#[trigger] closes_at(object, 0, k) by {
        if k < n {
            assert(!closes_at(old_object, 0, k));
            assert(depth_at(object, 0, k + 1) == depth_at(old_object, 0, k + 1));
            assert(depth_at(object, 0, k) == depth_at(old_object, 0, k));
            assert(object[k] == front[k] && old_object[k] == front[k]);
        }
    }
    assert(depth_at(object, 0, 0) == depth_at(old_object, 0, 0));
}

/// An object ends where it ends: none begins with another that is shorter.
pub proof fn law_object_has_one_end(a: Seq<u8>, rest: Seq<u8>)
    requires
        is_object_text(a),
        is_object_text(a + rest),
    ensures
        rest.len() == 0,
{
    if rest.len() > 0 {
        let b = a + rest;
        let e = a.len() - 1;
        assert(b.subrange(0, a.len() as int) =~= a);
        lemma_quoting_of_part(b, a, 0, e);
        lemma_quoting_of_part(b, a, 0, e + 1);
        assert(b[e] == a[e]);
        assert(!closes_at(b, 0, e));
    }
}

/// A string with any escapes in it, between braces, is one object that closes
/// at its last byte.
pub proof fn law_quoted_text_is_an_object(q: u8, t: Seq<u8>)
    requires
        is_quote(q),
        is_string_body(q, t),
    ensures
        is_object_text(seq![0x7b] + (seq![q] + t + seq![q]) + seq![0x7d]),
{
    let literal = seq![q] + t + seq![q];
    let none = Seq::<u8>::empty();
    let pair: Seq<u8> = seq![0x7b, 0x7d];
    assert(depth_at(pair, 0, 0) == 0);
    assert(depth_at(pair, 0, 1) == 1);
    assert(depth_at(pair, 0, 2) == 0);
    assert(brace_at(pair, 0, 0));
    assert(closes_at(pair, 0, 1));
    assert(seq![0x7bu8] + none + seq![0x7du8] =~= pair);
    assert(is_object_text(pair));
    assert(is_object_piece(literal));
    law_object_grows(none, literal);
    assert(none + literal =~= literal);
}

/// A letter, a digit, `_` or `$` in ASCII.
pub open spec fn is_word_byte(b: u8) -> bool {
    ||| '0' as u8 <= b <= '9' as u8
    ||| 'A' as u8 <= b <= 'Z' as u8
    ||| 'a' as u8 <= b <= 'z' as u8
    ||| b == '_' as u8
    ||| b == '$' as u8
}

/// A bare `=` is an assignment: with anything but quotes and braces around it,
/// as long as it makes no comparison and no arrow with its neighbours.
pub proof fn law_bare_equals_assigns(left: Seq<u8>, right: Seq<u8>)
    requires
        forall|i: int| 0 <= i < left.len() ==> !is_quote(#[trigger] left[i]) && left[i] != 0x7b,
        forall|i: int| 0 <= i < right.len() ==> !is_quote(#[trigger] right[i]) && right[i] != 0x7b,
        left.len() > 0 ==> !is_word_byte(left[0]) && left.last() != '=' as u8 && left.last()
            != '!' as u8 && left.last() != '<' as u8 && left.last() != '>' as u8,
        right.len() > 0 ==> right[0] != '=' as u8 && right[0] != '>' as u8,
    ensures
        is_assigning_gap(left + seq!['=' as u8] + right),
{
    let gap = left + seq!['=' as u8] + right;
    let bytes = gap.push(OPEN_BRACE);
    let n = left.len() as int;
    assert forall|i: int| 0 <= i < gap.len() implies !is_quote(#[trigger] bytes[i]) && bytes[i]
        != 0x7b by {
        if i < n {
            assert(bytes[i] == left[i]);
        } else if i > n {
            assert(bytes[i] == right[i - n - 1]);
        }
    }
    assert forall|i: int| 0 <= i <= gap.len() implies #[trigger] in_code(bytes, 0, i) by {
        lemma_plain_stretch(bytes, 0, 0, i);
    }
    let b = gap.len() as int;
    assert(is_first_brace(bytes, 0, b));
    assert(bytes[n] == '=' as u8);
    assert(in_code(bytes, 0, n));
    if n > 0 {
        assert(bytes[n - 1] == left.last());
    }
    if right.len() > 0 {
        assert(bytes[n + 1] == right[0]);
    }
    assert(assignment_at(bytes, 0, n));
    assert(gap[0] == bytes[0]);
}

/// Comparisons and arrows are no assignments: a gap in which every `=` has
/// another `=`, or a `!`, `<` or `>` in front of it, or a `=` or `>` behind it,
/// does not assign. Nor does one without any `=`.
pub proof fn law_comparisons_do_not_assign(gap: Seq<u8>)
    requires
        forall|j: int|
            0 <= j < gap.len() && #[trigger] gap[j] == '=' as u8 ==> (j > 0 && (gap[j - 1]
                == '=' as u8 || gap[j - 1] == '!' as u8 || gap[j - 1] == '<' as u8 || gap[j - 1]
                == '>' as u8)) || (j + 1 < gap.len() && (gap[j + 1] == '=' as u8 || gap[j + 1]
                == '>' as u8)),
    ensures
        !assigns_before_brace(gap.push(0x7b), 0),
{
    let bytes = gap.push(0x7b);
    assert forall|j: int| !#[trigger] assignment_at(bytes, 0, j) by {
        if assignment_at(bytes, 0, j) {
            assert(j < gap.len());
            assert(bytes[j] == gap[j]);
            if j > 0 {
                assert(bytes[j - 1] == gap[j - 1]);
            }
            if j + 1 < gap.len() {
                assert(bytes[j + 1] == gap[j + 1]);
            }
        }
    }
}

/// An `=` inside a string does not assign.
pub proof fn law_quoted_equals_does_not_assign(a: Seq<u8>, q: u8, t: Seq<u8>, b: Seq<u8>)
    requires
        is_quote(q),
        is_string_body(q, t),
        forall|i: int| 0 <= i < a.len() ==> !is_quote(#[trigger] a[i]) && a[i] != '=' as u8,
        forall|i: int| 0 <= i < b.len() ==> #[trigger] b[i] != '=' as u8,
    ensures
        !assigns_before_brace((a + (seq![q] + t + seq![q]) + b).push(0x7b), 0),
{
    let literal = seq![q] + t + seq![q];
    let bytes = (a + literal + b).push(0x7b);
    let n = a.len() as int;
    assert forall|j: int| 0 <= j < n implies #[trigger] bytes[j] != DOUBLE_QUOTE && bytes[j]
        != SINGLE_QUOTE by {
        assert(bytes[j] == a[j]);
    }
    lemma_plain_stretch(bytes, 0, 0, n);
    assert(bytes.subrange(n, n + t.len() + 2) =~= literal);
    lemma_string_in(bytes, 0, n, q, t);
    assert forall|j: int| !#[trigger] assignment_at(bytes, 0, j) by {
        if assignment_at(bytes, 0, j) {
            if j < n {
                assert(bytes[j] == a[j]);
            } else if j == n {
                assert(bytes[j] == literal[0]);
            } else if j < n + literal.len() {
                assert(!in_code(bytes, 0, j));
            } else if j < n + literal.len() + b.len() {
                assert(bytes[j] == b[j - n - literal.len()]);
            }
        }
    }
}

/// A marker is a whole word: with a letter, a digit, `_` or `$` on either side
/// it is part of another name.
pub proof fn law_marker_is_a_word(
    page: Seq<u8>,
    needle: Seq<u8>,
    require: RequireAssignment,
    j: int,
)
    requires
        (0 < j <= page.len() && is_word_byte(page[j - 1])) || (0 <= j + needle.len() < page.len()
            && is_word_byte(page[j + needle.len()])),
    ensures
        !marker_at(page, needle, require, j),
{
}

/// What stands inside a string is no marker.
pub proof fn law_marker_in_a_string_is_data(
    before: Seq<u8>,
    q: u8,
    t: Seq<u8>,
    after: Seq<u8>,
    needle: Seq<u8>,
    require: RequireAssignment,
    j: int,
)
    requires
        in_code(before, 0, before.len() as int),
        is_quote(q),
        is_string_body(q, t),
        before.len() < j < before.len() + t.len() + 2,
    ensures
        !marker_at(before + (seq![q] + t + seq![q]) + after, needle, require, j),
{
    let page = before + (seq![q] + t + seq![q]) + after;
    law_string_is_skipped(before, q, t, after);
    assert(!in_code(page, 0, j));
}

/// A name that is only referred to or compared with is no marker of an
/// assignment: between it and the next brace every `=` is part of a comparison
/// or an arrow, or there is none.
pub proof fn law_reference_is_no_marker(
    before: Seq<u8>,
    needle: Seq<u8>,
    gap: Seq<u8>,
    rest: Seq<u8>,
)
    requires
        forall|j: int| 0 <= j < gap.len() ==> !is_quote(#[trigger] gap[j]),
        forall|j: int|
            0 <= j < gap.len() && #[trigger] gap[j] == '=' as u8 ==> (j > 0 && (gap[j - 1]
                == '=' as u8 || gap[j - 1] == '!' as u8 || gap[j - 1] == '<' as u8 || gap[j - 1]
                == '>' as u8)) || (j + 1 < gap.len() && (gap[j + 1] == '=' as u8 || gap[j + 1]
                == '>' as u8)),
    ensures
        !marker_at(
            before + needle + gap + seq![0x7b] + rest,
            needle,
            RequireAssignment::Yes,
            before.len() as int,
        ),
{
    let page = before + needle + gap + seq![0x7b] + rest;
    let s = (before.len() + needle.len()) as int;
    let b = s + gap.len();
    assert forall|j: int| 0 <= j < gap.len() implies page[s + j] == #[trigger] gap[j] by {}
    assert(page[b] == 0x7b);
    assert forall|j: int| s <= j < b implies #[trigger] page[j] != DOUBLE_QUOTE && page[j]
        != SINGLE_QUOTE by {
        assert(page[j] == gap[j - s]);
    }
    lemma_plain_stretch(page, s, s, b);
    assert(brace_at(page, s, b));
    if assigns_before_brace(page, s) {
        let c = choose|c: int| #[trigger]
            is_first_brace(page, s, c) && exists|j: int|
                s <= j < c && #[trigger] assignment_at(page, s, j);
        let j = choose|j: int| s <= j < c && #[trigger] assignment_at(page, s, j);
        assert(c <= b) by {
            if b < c {
                assert(!brace_at(page, s, b));
            }
        }
        let k = j - s;
        assert(page[j] == gap[k]);
        if k > 0 {
            assert(page[j - 1] == gap[k - 1]);
        }
        if k + 1 < gap.len() {
            assert(page[j + 1] == gap[k + 1]);
        }
    }
}

/// The config of a page is what the page assigns: behind text that ends outside
/// strings and does not name `window.playerConfig`, the object that is assigned
/// to it with a bare `=` is what extraction gives, byte for byte.
pub proof fn law_assigned_config_is_the_result(
    before: Seq<u8>,
    left: Seq<u8>,
    right: Seq<u8>,
    object: Seq<u8>,
    rest: Seq<u8>,
    html: &str,
    r: Result<&str, PluginError>,
)
    requires
        call_ensures(extract_player_config_from_html, (html,), r),
        is_object_text(object),
        html.spec_bytes() == before + "window.playerConfig".spec_bytes() + (left + seq!['=' as u8]
            + right) + object + rest,
        in_code(before, 0, before.len() as int),
        before.len() > 0 ==> !is_word_byte(before.last()),
        forall|i: int|
            0 <= i < before.len() ==> #[trigger] html.spec_bytes().subrange(i, i + 19)
                != "window.playerConfig".spec_bytes(),
        forall|i: int| 0 <= i < left.len() ==> !is_quote(#[trigger] left[i]) && left[i] != 0x7b,
        forall|i: int| 0 <= i < right.len() ==> !is_quote(#[trigger] right[i]) && right[i] != 0x7b,
        left.len() > 0 ==> !is_word_byte(left[0]) && left.last() != '=' as u8 && left.last()
            != '!' as u8 && left.last() != '<' as u8 && left.last() != '>' as u8,
        right.len() > 0 ==> right[0] != '=' as u8 && right[0] != '>' as u8,
    ensures
        r matches Ok(block) && block.spec_bytes() == object,
{
    let gap = left + seq!['=' as u8] + right;
    let page = html.spec_bytes();
    let needle = "window.playerConfig".spec_bytes();
    lemma_markers_are_plain();
    law_bare_equals_assigns(left, right);
    assert forall|j: int| 0 <= j < before.len() implies !#[trigger] marker_at(
        page,
        needle,
        RequireAssignment::Yes,
        j,
    ) by {
        assert(page.subrange(j, j + 19) != needle);
    }
    law_assigned_object_is_extracted(before, gap, object, rest);
    let a = (before.len() + needle.len() + gap.len()) as int;
    let e = a + object.len() - 1;
    match r {
        Ok(block) => {
            let (a2, e2) = choose|a2: int, e2: int|
                #![trigger is_config_block(page, a2, e2)]
                is_config_block(page, a2, e2) && block.spec_bytes() == page.subrange(a2, e2 + 1);
            law_config_block_is_unique(page, a, e, a2, e2);
        },
        Err(_) => {
            assert(!is_config_block(page, a, e));
        },
    }
}

/// Without any `window.playerConfig` in the page, it is the object assigned to
/// `playerConfig` alone.
pub proof fn law_unprefixed_config_is_the_result(
    before: Seq<u8>,
    right: Seq<u8>,
    object: Seq<u8>,
    rest: Seq<u8>,
    html: &str,
    r: Result<&str, PluginError>,
)
    requires
        call_ensures(extract_player_config_from_html, (html,), r),
        is_object_text(object),
        html.spec_bytes() == before + "playerConfig =".spec_bytes() + right + object + rest,
        in_code(before, 0, before.len() as int),
        before.len() > 0 ==> !is_word_byte(before.last()),
        forall|i: int|
            0 <= i && i + 19 <= html.spec_bytes().len() ==> #[trigger] html.spec_bytes().subrange(
                i,
                i + 19,
            ) != "window.playerConfig".spec_bytes(),
        forall|i: int|
            0 <= i < before.len() ==> #[trigger] html.spec_bytes().subrange(i, i + 14)
                != "playerConfig =".spec_bytes(),
        forall|i: int| 0 <= i < right.len() ==> !is_quote(#[trigger] right[i]) && right[i] != 0x7b,
        right.len() > 0 ==> !is_word_byte(right[0]),
    ensures
        r matches Ok(block) && block.spec_bytes() == object,
{
    let page = html.spec_bytes();
    let canonical = "window.playerConfig".spec_bytes();
    let needle = "playerConfig =".spec_bytes();
    lemma_markers_are_plain();
    let bytes = right.push(OPEN_BRACE);
    assert forall|i: int| 0 <= i < right.len() implies !is_quote(#[trigger] bytes[i]) && bytes[i]
        != 0x7b by {
        assert(bytes[i] == right[i]);
    }
    lemma_plain_stretch(bytes, 0, 0, right.len() as int);
    assert(is_first_brace(bytes, 0, right.len() as int));
    assert forall|j: int| !#[trigger] marker_at(page, canonical, RequireAssignment::Yes, j) by {
        if marker_at(page, canonical, RequireAssignment::Yes, j) {
            assert(page.subrange(j, j + 19) == canonical);
        }
    }
    assert forall|j: int| 0 <= j < before.len() implies !#[trigger] marker_at(
        page,
        needle,
        RequireAssignment::No,
        j,
    ) by {
        assert(page.subrange(j, j + 14) != needle);
    }
    law_unprefixed_object_is_extracted(before, right, object, rest);
    let a = (before.len() + needle.len() + right.len()) as int;
    let e = a + object.len() - 1;
    match r {
        Ok(block) => {
            let (a2, e2) = choose|a2: int, e2: int|
                #![trigger is_config_block(page, a2, e2)]
                is_config_block(page, a2, e2) && block.spec_bytes() == page.subrange(a2, e2 + 1);
            law_config_block_is_unique(page, a, e, a2, e2);
        },
        Err(_) => {
            assert(!is_config_block(page, a, e));
        },
    }
}

/// A page that does not hold the name `playerConfig` has no config.
pub proof fn law_page_without_the_name_has_no_config(html: &str, r: Result<&str, PluginError>)
    requires
        call_ensures(extract_player_config_from_html, (html,), r),
        forall|i: int|
            0 <= i && i + 12 <= html.spec_bytes().len() ==> #[trigger] html.spec_bytes().subrange(
                i,
                i + 12,
            ) != "playerConfig".spec_bytes(),
    ensures
        r matches Err(PluginError::PlayerConfigNotFound),
{
    let page = html.spec_bytes();
    if let Ok(block) = r {
        let (a, e) = choose|a: int, e: int|
            #![trigger is_config_block(page, a, e)]
            is_config_block(page, a, e) && block.spec_bytes() == page.subrange(a, e + 1);
        let s = choose|s: int| #[trigger]
            is_marker_end(page, s) && is_first_brace(page, s, a) && is_object_end(page, a, e);
        lemma_name_in_markers();
        let c = CANONICAL.spec_bytes();
        let f = FALLBACK.spec_bytes();
        if is_first_marker(page, c, RequireAssignment::Yes, s - c.len()) {
            let i = s - c.len();
            assert(page.subrange(i, s) == c);
            let k = i + 7;
            assert(page.subrange(k, k + 12) =~= page.subrange(i, s).subrange(7, 19));
        } else {
            let i = s - f.len();
            assert(page.subrange(i, s) == f);
            assert(page.subrange(i, i + 12) =~= page.subrange(i, s).subrange(0, 12));
        }
    }
}

/// Both markers hold the name.
proof fn lemma_name_in_markers()
    ensures
        CANONICAL.spec_bytes().len() == 19,
        FALLBACK.spec_bytes().len() == 14,
        CANONICAL.spec_bytes().subrange(7, 19) == "playerConfig".spec_bytes(),
        FALLBACK.spec_bytes().subrange(0, 12) == "playerConfig".spec_bytes(),
{
    lemma_markers_are_plain();
    reveal_strlit("window.playerConfig");
    reveal_strlit("playerConfig =");
    reveal_strlit("playerConfig");
    let c = CANONICAL@;
    let f = FALLBACK@;
    let n = "playerConfig"@;
    assert(utf8::is_ascii_chars(c));
    assert(utf8::is_ascii_chars(f));
    assert(utf8::is_ascii_chars(n));
    utf8::is_ascii_chars_encode_utf8(c);
    utf8::is_ascii_chars_encode_utf8(f);
    utf8::is_ascii_chars_encode_utf8(n);
    assert(CANONICAL.spec_bytes().subrange(7, 19) =~= "playerConfig".spec_bytes());
    assert(FALLBACK.spec_bytes().subrange(0, 12) =~= "playerConfig".spec_bytes());
}

/// An assignment to `window.playerConfig` opens the object at its brace.
#[verifier::spinoff_prover]
proof fn lemma_assignment_opens(before: Seq<u8>, gap: Seq<u8>, rest: Seq<u8>)
    requires
        in_code(before, 0, before.len() as int),
        before.len() > 0 ==> !is_ident_byte(before.last()),
        is_assigning_gap(gap),
        forall|j: int|
            0 <= j < before.len() ==> !#[trigger] marker_at(
                before + CANONICAL.spec_bytes() + gap.push(OPEN_BRACE) + rest,
                CANONICAL.spec_bytes(),
                RequireAssignment::Yes,
                j,
            ),
    ensures
        ({
            let page = before + CANONICAL.spec_bytes() + gap.push(OPEN_BRACE) + rest;
            let s = before.len() + CANONICAL.spec_bytes().len();
            &&& is_marker_end(page, s as int)
            &&& is_first_brace(page, s as int, (s + gap.len()) as int)
        }),
{
    let needle = CANONICAL.spec_bytes();
    let opened = gap.push(OPEN_BRACE);
    let page = before + needle + opened + rest;
    let i = before.len() as int;
    let s = i + needle.len();
    lemma_markers_are_plain();
    assert(page.subrange(0, i) =~= before);
    assert(page.subrange(i, s) =~= needle);
    assert(page.subrange(s, s + opened.len()) =~= opened);
    lemma_quoting_of_part(page, before, 0, i);
    assert forall|j: int| 0 <= j <= gap.len() implies #[trigger] brace_at(page, s, s + j)
        == brace_at(opened, 0, j) by {
        lemma_quoting_of_part(page, opened, s, j);
        assert(page[s + j] == opened[j]);
    }
    assert(brace_at(page, s, s + gap.len()));
    assert forall|j: int| s <= j < s + gap.len() implies !#[trigger] brace_at(page, s, j) by {
        assert(brace_at(page, s, s + (j - s)) == brace_at(opened, 0, j - s));
        assert(!brace_at(opened, 0, j - s));
    }
    assert(page[s] == gap[0]);
    assert(is_first_brace(page, s, s + gap.len()));
    assert(assigns_before_brace(page, s)) by {
        let b = choose|b: int| #[trigger]
            is_first_brace(opened, 0, b) && exists|j: int|
                0 <= j < b && #[trigger] assignment_at(opened, 0, j);
        lemma_first_brace_is_unique(opened, 0, b, gap.len() as int);
        let j = choose|j: int| 0 <= j < b && #[trigger] assignment_at(opened, 0, j);
        lemma_quoting_of_part(page, opened, s, j);
        assert(page[s + j] == opened[j]);
        assert(page[s + j + 1] == opened[j + 1]);
        if j > 0 {
            assert(page[s + j - 1] == opened[j - 1]);
        }
        assert(assignment_at(page, s, s + j));
    }
    if i > 0 {
        assert(page[i - 1] == before.last());
    }
    assert(marker_at(page, needle, RequireAssignment::Yes, i));
    assert(is_marker_end(page, s));
}

/// What is assigned to `window.playerConfig` and never closed is no config, and
/// nothing else of the page is taken in its place.
pub proof fn law_unclosed_object_is_no_config(
    before: Seq<u8>,
    left: Seq<u8>,
    right: Seq<u8>,
    tail: Seq<u8>,
    html: &str,
    r: Result<&str, PluginError>,
)
    requires
        call_ensures(extract_player_config_from_html, (html,), r),
        html.spec_bytes() == before + "window.playerConfig".spec_bytes() + (left + seq!['=' as u8]
            + right).push(0x7b) + tail,
        forall|i: int| 0 <= i < tail.len() ==> #[trigger] tail[i] != 0x7d,
        in_code(before, 0, before.len() as int),
        before.len() > 0 ==> !is_word_byte(before.last()),
        forall|i: int|
            0 <= i < before.len() ==> #[trigger] html.spec_bytes().subrange(i, i + 19)
                != "window.playerConfig".spec_bytes(),
        forall|i: int| 0 <= i < left.len() ==> !is_quote(#[trigger] left[i]) && left[i] != 0x7b,
        forall|i: int| 0 <= i < right.len() ==> !is_quote(#[trigger] right[i]) && right[i] != 0x7b,
        left.len() > 0 ==> !is_word_byte(left[0]) && left.last() != '=' as u8 && left.last()
            != '!' as u8 && left.last() != '<' as u8 && left.last() != '>' as u8,
        right.len() > 0 ==> right[0] != '=' as u8 && right[0] != '>' as u8,
    ensures
        r matches Err(PluginError::PlayerConfigNotFound),
{
    let gap = left + seq!['=' as u8] + right;
    let page = html.spec_bytes();
    let needle = "window.playerConfig".spec_bytes();
    lemma_markers_are_plain();
    law_bare_equals_assigns(left, right);
    assert forall|j: int| 0 <= j < before.len() implies !#[trigger] marker_at(
        page,
        needle,
        RequireAssignment::Yes,
        j,
    ) by {
        assert(page.subrange(j, j + 19) != needle);
    }
    lemma_assignment_opens(before, gap, tail);
    let s = (before.len() + needle.len()) as int;
    let a = s + gap.len();
    assert forall|a2: int, e2: int| !#[trigger] is_config_block(page, a2, e2) by {
        if is_config_block(page, a2, e2) {
            let s2 = choose|s2: int| #[trigger]
                is_marker_end(page, s2) && is_first_brace(page, s2, a2) && is_object_end(
                    page,
                    a2,
                    e2,
                );
            lemma_marker_end_is_unique(page, s, s2);
            lemma_first_brace_is_unique(page, s, a, a2);
            assert(page[a] == 0x7b);
            if e2 > a {
                assert(page[e2] == tail[e2 - a - 1]);
            }
        }
    }
}

/// An identifier goes on with a letter, a digit, `_` or `$`, and with nothing
/// else in ASCII.
pub proof fn law_identifiers_go_on(b: u8, r: bool)
    requires
        call_ensures(is_js_ident_continue, (b,), r),
    ensures
        r <==> is_word_byte(b),
{
}

/// A gap assigns if it holds a bare `=`, with anything but quotes and braces
/// around it. One in which every `=` belongs to a comparison or an arrow does
/// not.
pub proof fn law_gap_with_a_bare_equals_assigns(
    gap: &str,
    left: Seq<u8>,
    right: Seq<u8>,
    r: bool,
)
    requires
        call_ensures(gap_contains_assignment, (gap,), r),
    ensures
        gap.spec_bytes() == left + seq!['=' as u8] + right && (forall|i: int|
            0 <= i < left.len() ==> !is_quote(#[trigger] left[i]) && left[i] != 0x7b) && (forall|
            i: int,
        |
            0 <= i < right.len() ==> !is_quote(#[trigger] right[i]) && right[i] != 0x7b) && (
        left.len() > 0 ==> !is_word_byte(left[0]) && left.last() != '=' as u8 && left.last()
            != '!' as u8 && left.last() != '<' as u8 && left.last() != '>' as u8) && (right.len() > 0
            ==> right[0] != '=' as u8 && right[0] != '>' as u8) ==> r,
        (forall|j: int|
            0 <= j < gap.spec_bytes().len() && #[trigger] gap.spec_bytes()[j] == '=' as u8 ==> (j > 0
                && (gap.spec_bytes()[j - 1] == '=' as u8 || gap.spec_bytes()[j - 1] == '!' as u8
                || gap.spec_bytes()[j - 1] == '<' as u8 || gap.spec_bytes()[j - 1] == '>' as u8))
                || (j + 1 < gap.spec_bytes().len() && (gap.spec_bytes()[j + 1] == '=' as u8
                || gap.spec_bytes()[j + 1] == '>' as u8))) ==> !r,
{
    let bytes = gap.spec_bytes();
    if bytes == left + seq!['=' as u8] + right && (forall|i: int|
        0 <= i < left.len() ==> !is_quote(#[trigger] left[i]) && left[i] != 0x7b) && (forall|i: int|
        0 <= i < right.len() ==> !is_quote(#[trigger] right[i]) && right[i] != 0x7b) && (left.len()
        > 0 ==> !is_word_byte(left[0]) && left.last() != '=' as u8 && left.last() != '!' as u8
        && left.last() != '<' as u8 && left.last() != '>' as u8) && (right.len() > 0 ==> right[0]
        != '=' as u8 && right[0] != '>' as u8) {
        law_bare_equals_assigns(left, right);
    }
    if forall|j: int|
        0 <= j < bytes.len() && #[trigger] bytes[j] == '=' as u8 ==> (j > 0 && (bytes[j - 1]
            == '=' as u8 || bytes[j - 1] == '!' as u8 || bytes[j - 1] == '<' as u8 || bytes[j - 1]
            == '>' as u8)) || (j + 1 < bytes.len() && (bytes[j + 1] == '=' as u8 || bytes[j + 1]
            == '>' as u8)) {
        law_comparisons_do_not_assign(bytes);
    }
}

/// The first brace behind text without quotes and braces is that brace, and text
/// without any brace has none.
pub proof fn law_first_brace_is_found(a: Seq<u8>, rest: Seq<u8>, i: int)
    requires
        forall|i: int| 0 <= i < a.len() ==> !is_quote(#[trigger] a[i]) && a[i] != 0x7b,
    ensures
        is_first_brace(a.push(0x7b) + rest, 0, i) <==> i == a.len(),
        !brace_at(a, 0, i),
{
    let n = a.len() as int;
    let bytes = a.push(0x7b) + rest;
    assert forall|j: int| 0 <= j < n implies !is_quote(#[trigger] bytes[j]) && bytes[j]
        != 0x7b by {
        assert(bytes[j] == a[j]);
    }
    lemma_plain_stretch(bytes, 0, 0, n);
    assert(bytes[n] == 0x7b);
    assert(is_first_brace(bytes, 0, n));
    if is_first_brace(bytes, 0, i) {
        lemma_first_brace_is_unique(bytes, 0, i, n);
    }
}

/// A brace inside a string is passed over.
pub proof fn law_quoted_brace_is_passed_over(
    a: Seq<u8>,
    q: u8,
    t: Seq<u8>,
    rest: Seq<u8>,
    i: int,
)
    requires
        forall|i: int| 0 <= i < a.len() ==> !is_quote(#[trigger] a[i]) && a[i] != 0x7b,
        is_quote(q),
        is_string_body(q, t),
    ensures
        is_first_brace(a + (seq![q] + t + seq![q]) + (seq![0x7b] + rest), 0, i) <==> i == a.len()
            + t.len() + 2,
{
    let n = a.len() as int;
    let end = n + t.len() + 2;
    let bytes = a + (seq![q] + t + seq![q]) + (seq![0x7b] + rest);
    lemma_plain_stretch(a, 0, 0, n);
    law_string_is_skipped(a, q, t, seq![0x7b] + rest);
    assert(bytes[end] == 0x7b);
    assert(brace_at(bytes, 0, end));
    assert forall|j: int| 0 <= j < end implies !#[trigger] brace_at(bytes, 0, j) by {
        if j < n {
            assert(bytes[j] == a[j]);
        } else if j == n {
            assert(bytes[j] == q);
        } else {
            assert(!in_code(bytes, 0, j));
        }
    }
    assert(is_first_brace(bytes, 0, end));
    if is_first_brace(bytes, 0, i) {
        lemma_first_brace_is_unique(bytes, 0, i, end);
    }
}

} // verus!
