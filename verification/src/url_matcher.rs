//! Vimeo URL detection and classification.
//!
//! ## Accepted URL shapes
//!
//! - `vimeo.com/<id>`: public video
//! - `vimeo.com/<id>/<hash>`: private video share link (the hash is a token)
//! - `vimeo.com/showcase/<id>` or `vimeo.com/album/<id>`: playlist
//! - `vimeo.com/ondemand/<slug>`: rejected (paid content)
//! - `player.vimeo.com/video/<id>`: embedded player URL
//!
//! `vimeo.com/<user>` artist profiles are rejected.

use vstd::prelude::*;
use vstd::string::StrSliceExecFns;

use crate::patterns;
use crate::text;

verus! {

/// Kind of Vimeo resource identified from a URL.
#[derive(Debug, Clone, Copy, PartialEq, Eq, Structural)]
pub enum UrlKind {
    /// Single video: `vimeo.com/<id>` or `player.vimeo.com/video/<id>`
    Video,
    /// Private video share: `vimeo.com/<id>/<hash>`
    PrivateVideo,
    /// Showcase / album: `vimeo.com/showcase/<id>` or `vimeo.com/album/<id>`
    Showcase,
    /// Not a recognised Vimeo URL.
    Unknown,
}

/// The host part of an authority: a bracketed literal with its brackets, or
/// what stands in front of the port.
pub open spec fn host_of(authority: Seq<char>) -> Option<Seq<char>> {
    if authority.len() == 0 {
        None
    } else if authority[0] == '[' {
        if authority.contains(']') {
            Some(authority.take(text::first_index(authority, ']') + 1))
        } else {
            None
        }
    } else if text::until_first(authority, ':').len() == 0 {
        None
    } else {
        Some(text::until_first(authority, ':'))
    }
}

/// The lower-cased host of an `http` or `https` URL, and what follows the
/// authority. Credentials and port are dropped.
pub open spec fn split_url(url: Seq<char>) -> Option<(Seq<char>, Seq<char>)> {
    match text::first_stand(url, "://"@) {
        Some(i) => {
            let scheme = text::lowered(url.take(i));
            let rest = url.skip(i + "://"@.len());
            let authority = text::behind_last(text::until_first(rest, '/'), '@');
            if scheme != "http"@ && scheme != "https"@ {
                None
            } else {
                match host_of(authority) {
                    Some(host) => Some(
                        (text::lowered(host), rest.skip(text::first_index(rest, '/'))),
                    ),
                    None => None,
                }
            }
        },
        None => None,
    }
}

/// A path without its fragment, its query and its trailing slashes.
pub open spec fn plain_path(path: Seq<char>) -> Seq<char> {
    text::trimmed_end(text::until_first(text::until_first(path, '#'), '?'), seq!['/'])
}

/// The hosts that serve Vimeo resources.
pub open spec fn is_known_host(host: Seq<char>) -> bool {
    ||| host == "vimeo.com"@
    ||| host == "www.vimeo.com"@
    ||| host == "player.vimeo.com"@
    ||| host == "m.vimeo.com"@
}

/// What a URL stands for.
pub open spec fn kind_of(url: Seq<char>) -> UrlKind {
    match split_url(url) {
        Some((host, path)) => {
            let path = plain_path(path);
            if !is_known_host(host) {
                UrlKind::Unknown
            } else if host == "player.vimeo.com"@ {
                if patterns::player_video_path(path) is Some {
                    UrlKind::Video
                } else {
                    UrlKind::Unknown
                }
            } else if patterns::showcase_path(path) is Some {
                UrlKind::Showcase
            } else if patterns::private_video_path(path) is Some {
                UrlKind::PrivateVideo
            } else if patterns::video_path(path) is Some {
                UrlKind::Video
            } else {
                UrlKind::Unknown
            }
        },
        None => UrlKind::Unknown,
    }
}

/// The video id in a URL: the number in the path of a share link, a video or a
/// player URL. Any other URL has none.
pub open spec fn video_id_in(url: Seq<char>) -> Option<Seq<char>> {
    if kind_of(url) == UrlKind::Video || kind_of(url) == UrlKind::PrivateVideo {
        let path = plain_path((split_url(url)->0).1);
        match patterns::private_video_path(path) {
            Some((id, _)) => Some(id),
            None => match patterns::video_path(path) {
                Some(id) => Some(id),
                None => patterns::player_video_path(path),
            },
        }
    } else {
        None
    }
}

/// The first `h=<token>` pair of a query string.
pub open spec fn first_token(query: Seq<char>) -> Option<Seq<char>>
    decreases query.len(),
{
    let value = text::without_prefix(text::until_first(query, '&'), "h="@);
    if value is Some && patterns::is_token(value->0) {
        value
    } else if query.contains('&') {
        proof {
            text::lemma_first_index_bounds(query, '&');
        }
        first_token(text::behind_first(query, '&'))
    } else {
        None
    }
}

/// The `h=<token>` value in the query of a path. A `?` behind a `#` belongs to
/// the fragment and starts no query.
pub open spec fn query_token_in(path: Seq<char>) -> Option<Seq<char>> {
    let path = text::until_first(path, '#');
    if path.contains('?') {
        first_token(text::behind_first(path, '?'))
    } else {
        None
    }
}

/// The share token in a URL: the second path segment of a share link, or the
/// `h` query parameter of a player URL. Any other URL has none.
pub open spec fn private_hash_in(url: Seq<char>) -> Option<Seq<char>> {
    match (kind_of(url), split_url(url)) {
        (UrlKind::PrivateVideo, Some((_, path))) => Some(
            (patterns::private_video_path(plain_path(path))->0).1,
        ),
        (UrlKind::Video, Some((host, path))) => if host == "player.vimeo.com"@ {
            query_token_in(path)
        } else {
            None
        },
        _ => None,
    }
}

/// The showcase or album id in a URL. The path alone decides.
pub open spec fn showcase_id_in(url: Seq<char>) -> Option<Seq<char>> {
    match split_url(url) {
        Some((_, path)) => patterns::showcase_path(plain_path(path)),
        None => None,
    }
}

/// Returns `true` if the URL is any form of recognised Vimeo resource.
pub fn is_vimeo_url(url: &str) -> (r: bool)
    ensures
        r == (kind_of(url@) != UrlKind::Unknown),
{
    match classify_url(url) {
        UrlKind::Unknown => false,
        _ => true,
    }
}

/// Classifies the URL into a [`UrlKind`].
pub fn classify_url(url: &str) -> (kind: UrlKind)
    ensures
        kind == kind_of(url@),
{
    let (host, path) = match validate_and_split(url) {
        Some(parts) => parts,
        None => {
            return UrlKind::Unknown;
        },
    };
    if !is_vimeo_host(host.as_str()) {
        return UrlKind::Unknown;
    }
    let path_only: &str = normalize_path(path);
    if text::same_text(host.as_str(), "player.vimeo.com") {
        return if patterns::captures(patterns::PLAYER_VIDEO_PATTERN, path_only).is_some() {
            UrlKind::Video
        } else {
            UrlKind::Unknown
        };
    }
    if patterns::captures(patterns::SHOWCASE_PATTERN, path_only).is_some() {
        return UrlKind::Showcase;
    }
    if patterns::captures(patterns::PRIVATE_VIDEO_PATTERN, path_only).is_some() {
        return UrlKind::PrivateVideo;
    }
    if patterns::captures(patterns::VIDEO_PATTERN, path_only).is_some() {
        return UrlKind::Video;
    }
    UrlKind::Unknown
}

/// Strips fragment, query string and trailing slashes from a path. In
/// `path#frag?q` the `?` belongs to the fragment.
fn normalize_path(path: &str) -> (r: &str)
    ensures
        r@ == plain_path(path@),
{
    let no_fragment: &str = text::until(path, '#');
    let no_query: &str = text::until(no_fragment, '?');
    let slash: [char; 1] = ['/'];
    assert(slash@ =~= seq!['/']);
    text::trim_end_matches(no_query, slash.as_slice())
}

fn is_vimeo_host(host: &str) -> (r: bool)
    ensures
        r == is_known_host(host@),
{
    text::same_text(host, "vimeo.com") || text::same_text(host, "www.vimeo.com")
        || text::same_text(host, "player.vimeo.com") || text::same_text(host, "m.vimeo.com")
}

/// One captured group, taken out of all of them.
fn group(groups: Vec<Option<String>>, n: usize) -> (r: Option<String>)
    requires
        n < groups.len(),
    ensures
        r == groups@[n as int],
{
    let mut groups: Vec<Option<String>> = groups;
    groups.swap_remove(n)
}

/// Extracts the numeric video id from a URL, or returns `None` if the URL has
/// no video or private-video shape.
pub fn extract_video_id(url: &str) -> (r: Option<String>)
    ensures
        text::is_text(r, video_id_in(url@)),
{
    match classify_url(url) {
        UrlKind::Video | UrlKind::PrivateVideo => {},
        UrlKind::Showcase | UrlKind::Unknown => {
            return None;
        },
    }
    let (_, path) = match validate_and_split(url) {
        Some(parts) => parts,
        None => {
            return None;
        },
    };
    let path_only: &str = normalize_path(path);
    if let Some(groups) = patterns::captures(patterns::PRIVATE_VIDEO_PATTERN, path_only) {
        return group(groups, 1);
    }
    if let Some(groups) = patterns::captures(patterns::VIDEO_PATTERN, path_only) {
        return group(groups, 1);
    }
    if let Some(groups) = patterns::captures(patterns::PLAYER_VIDEO_PATTERN, path_only) {
        return group(groups, 1);
    }
    None
}

/// Extracts the private-share token from a Vimeo URL, or `None` when the URL
/// carries none.
///
/// Two shapes are recognised: the share link `vimeo.com/<id>/<hash>` and the
/// player iframe URL `player.vimeo.com/video/<id>?h=<hash>`.
pub fn extract_private_hash(url: &str) -> (r: Option<String>)
    ensures
        text::is_text(r, private_hash_in(url@)),
{
    let kind: UrlKind = classify_url(url);
    let (host, path) = match validate_and_split(url) {
        Some(parts) => parts,
        None => {
            return None;
        },
    };
    match kind {
        UrlKind::PrivateVideo => match patterns::captures(
            patterns::PRIVATE_VIDEO_PATTERN,
            normalize_path(path),
        ) {
            Some(groups) => group(groups, 2),
            None => None,
        },
        UrlKind::Video => if text::same_text(host.as_str(), "player.vimeo.com") {
            extract_h_query_param(path)
        } else {
            None
        },
        UrlKind::Showcase | UrlKind::Unknown => None,
    }
}

/// Whether `value` is a share token.
fn is_share_token(value: &str) -> (r: bool)
    ensures
        r == patterns::is_token(value@),
{
    let chars: Vec<char> = text::chars_of(value);
    if chars.len() < 8 {
        return false;
    }
    let mut i: usize = 0;
    while i < chars.len()
        invariant
            i <= chars.len(),
            chars@ == value@,
            chars.len() >= 8,
            forall|j: int| 0 <= j < i ==> patterns::is_lower_hex(#[trigger] value@[j]),
        decreases chars.len() - i,
    {
        let c: char = chars[i];
        if !(('0' <= c && c <= '9') || ('a' <= c && c <= 'f')) {
            assert(!patterns::is_lower_hex(value@[i as int]));
            return false;
        }
        i += 1;
    }
    true
}

/// Pulls the `h=<hash>` value out of a path and query. The value has to have
/// the `[a-f0-9]{8,}` shape of a share token, so that arbitrary query junk
/// cannot pass for one.
fn extract_h_query_param(path_and_query: &str) -> (r: Option<String>)
    ensures
        text::is_text(r, query_token_in(path_and_query@)),
{
    let without_fragment: &str = text::until(path_and_query, '#');
    let query: &str = match text::split_once(without_fragment, '?') {
        Some((_, query)) => query,
        None => {
            return None;
        },
    };
    let mut rest: &str = query;
    loop
        invariant
            first_token(query@) == first_token(rest@),
            without_fragment@.contains('?'),
            query_token_in(path_and_query@) == first_token(query@),
        decreases rest@.len(),
    {
        let pair: &str = text::until(rest, '&');
        if let Some(value) = text::strip_prefix(pair, "h=") {
            if is_share_token(value) {
                return Some(value.to_owned());
            }
        }
        match text::split_once(rest, '&') {
            Some((_, later)) => {
                proof {
                    text::lemma_first_index_bounds(rest@, '&');
                }
                rest = later;
            },
            None => {
                return None;
            },
        }
    }
}

/// Extracts the numeric showcase / album id from a URL.
pub fn extract_showcase_id(url: &str) -> (r: Option<String>)
    ensures
        text::is_text(r, showcase_id_in(url@)),
{
    let (_, path) = match validate_and_split(url) {
        Some(parts) => parts,
        None => {
            return None;
        },
    };
    match patterns::captures(patterns::SHOWCASE_PATTERN, normalize_path(path)) {
        Some(groups) => group(groups, 1),
        None => None,
    }
}

/// Splits an `http` or `https` URL into its lower-cased host and what follows
/// the authority.
fn validate_and_split(url: &str) -> (r: Option<(String, &str)>)
    ensures
        match r {
            Some((host, path)) => split_url(url@) == Some((host@, path@)),
            None => split_url(url@) is None,
        },
{
    let (scheme, rest) = match text::split_once_at(url, "://") {
        Some(parts) => parts,
        None => {
            return None;
        },
    };
    let scheme_lower: String = text::to_ascii_lowercase(scheme);
    if !text::same_text(scheme_lower.as_str(), "http") && !text::same_text(
        scheme_lower.as_str(),
        "https",
    ) {
        return None;
    }
    let (authority, path_and_query) = text::split_in_front(rest, '/');
    let authority_no_user: &str = text::after_last(authority, '@');
    match extract_host(authority_no_user) {
        Some(host) => Some((text::to_ascii_lowercase(host), path_and_query)),
        None => None,
    }
}

/// Extracts the host (without port) from an authority. Bracketed IPv6 literals
/// keep their brackets.
fn extract_host(authority: &str) -> (r: Option<&str>)
    ensures
        match r {
            Some(host) => host_of(authority@) == Some(host@),
            None => host_of(authority@) is None,
        },
{
    if authority.is_empty() {
        return None;
    }
    if authority.get_char(0) == '[' {
        text::through(authority, ']')
    } else {
        let host: &str = text::until(authority, ':');
        if host.is_empty() {
            None
        } else {
            Some(host)
        }
    }
}

// ── Laws ─────────────────────────────────────────────────────────────────────

/// Every URL classified as a single video carries a numeric id of at least six
/// digits.
pub proof fn law_single_video_has_id(url: Seq<char>)
    requires
        kind_of(url) == UrlKind::Video || kind_of(url) == UrlKind::PrivateVideo,
    ensures
        video_id_in(url) matches Some(id) && patterns::is_number(id, 6),
{
}

/// Only single videos have an id, and only they have a share token: what stands
/// on another host or in another shape has neither.
pub proof fn law_only_single_videos_have_ids(url: Seq<char>)
    ensures
        video_id_in(url) is Some <==> (kind_of(url) == UrlKind::Video || kind_of(url)
            == UrlKind::PrivateVideo),
        private_hash_in(url) is Some ==> video_id_in(url) is Some,
{
}

/// Every share link carries its token.
pub proof fn law_private_video_has_token(url: Seq<char>)
    requires
        kind_of(url) == UrlKind::PrivateVideo,
    ensures
        private_hash_in(url) is Some,
{
}

/// Whatever is taken for a share token, from a path or from a query, has the
/// shape of one.
pub proof fn law_private_hash_is_token(url: Seq<char>)
    ensures
        private_hash_in(url) matches Some(token) ==> patterns::is_token(token),
{
    if let Some((host, path)) = split_url(url) {
        let path = text::until_first(path, '#');
        if path.contains('?') {
            lemma_first_token(text::behind_first(path, '?'));
        }
    }
}

proof fn lemma_first_token(query: Seq<char>)
    ensures
        first_token(query) matches Some(token) ==> patterns::is_token(token),
    decreases query.len(),
{
    if query.contains('&') {
        text::lemma_first_index_bounds(query, '&');
        lemma_first_token(text::behind_first(query, '&'));
    }
}

/// A showcase URL carries a showcase id and no video id.
pub proof fn law_showcase_has_no_video_id(url: Seq<char>)
    requires
        kind_of(url) == UrlKind::Showcase,
    ensures
        showcase_id_in(url) matches Some(id) && patterns::is_number(id, 1),
        video_id_in(url) is None,
{
}

/// What is appended to the URL does not become part of its authority: behind
/// `://`, if the URL has it, a path begins.
pub open spec fn has_closed_authority(url: Seq<char>) -> bool {
    text::first_stand(url, "://"@) matches Some(i) ==> url.skip(i + "://"@.len()).contains('/')
}

/// A split carried over to a longer URL.
spec fn extended_split(split: Option<(Seq<char>, Seq<char>)>, tail: Seq<char>) -> Option<
    (Seq<char>, Seq<char>),
> {
    match split {
        Some((host, path)) => Some((host, path + tail)),
        None => None,
    }
}

/// Text behind a path leaves scheme, host and the path itself alone.
proof fn lemma_split_extends(url: Seq<char>, tail: Seq<char>)
    requires
        tail.len() > 0,
        text::first_stand(url, "://"@) matches Some(i) && (tail[0] == '/' || url.skip(
            i + "://"@.len(),
        ).contains('/')),
    ensures
        split_url(url + tail) == extended_split(split_url(url), tail),
{
    let longer = url + tail;
    let sep = "://"@;
    let i = choose|i: int| text::stands_first_at(url, sep, i);
    assert forall|j: int| 0 <= j <= i implies #[trigger] text::stands_at(longer, sep, j)
        == text::stands_at(url, sep, j) by {
        assert(longer.subrange(j, j + sep.len()) =~= url.subrange(j, j + sep.len()));
    }
    assert(text::stands_first_at(longer, sep, i));
    text::lemma_first_stand(url, sep, i);
    text::lemma_first_stand(longer, sep, i);
    let rest = url.skip(i + sep.len());
    assert(longer.take(i) =~= url.take(i));
    assert(longer.skip(i + sep.len()) =~= rest + tail);
    text::lemma_first_index_bounds(rest, '/');
    text::lemma_until_first_extends(rest, tail, '/');
    assert((rest + tail).skip(text::first_index(rest, '/')) =~= rest.skip(
        text::first_index(rest, '/'),
    ) + tail);
}

/// Where no `://` stands, what is appended makes no URL of the text.
proof fn lemma_no_split_extends(url: Seq<char>, tail: Seq<char>)
    requires
        text::first_stand(url, "://"@) is None,
        tail.len() > 0,
        tail[0] == '#' || tail[0] == '?' || tail =~= seq!['/'],
    ensures
        split_url(url) is None,
        split_url(url + tail) is None,
{
    reveal_strlit("://");
    reveal_strlit("http");
    reveal_strlit("https");
    let longer = url + tail;
    let sep = "://"@;
    let n = url.len() as int;
    if let Some(k) = text::first_stand(longer, sep) {
        assert(longer[n] == tail[0]);
        assert(longer.subrange(k, k + 3) == sep);
        assert(longer[k] == longer.subrange(k, k + 3)[0]);
        assert(longer[k + 1] == longer.subrange(k, k + 3)[1]);
        assert(longer[k + 2] == longer.subrange(k, k + 3)[2]);
        if k + 3 <= n {
            assert(url.subrange(k, k + 3) =~= sep);
            text::lemma_stand_has_first(url, sep, k);
        } else if k > n {
            let scheme = text::lowered(longer.take(k));
            assert(scheme[n] == tail[0]);
            assert(scheme.len() == k);
            assert("http"@ =~= seq!['h', 't', 't', 'p']);
            assert("https"@ =~= seq!['h', 't', 't', 'p', 's']);
            assert(scheme != "http"@);
            assert(scheme != "https"@);
        } else {
            assert(k + 3 == longer.len());
            let rest = longer.skip(k + 3);
            assert(rest =~= Seq::<char>::empty());
            let authority = text::behind_last(text::until_first(rest, '/'), '@');
            assert(authority.len() == 0);
        }
    }
}

/// A fragment changes nothing about a URL: neither its kind nor the id, the
/// token or the showcase id in it.
pub proof fn law_fragment_does_not_matter(url: Seq<char>, fragment: Seq<char>)
    requires
        has_closed_authority(url),
    ensures
        kind_of(url + seq!['#'] + fragment) == kind_of(url),
        video_id_in(url + seq!['#'] + fragment) == video_id_in(url),
        private_hash_in(url + seq!['#'] + fragment) == private_hash_in(url),
        showcase_id_in(url + seq!['#'] + fragment) == showcase_id_in(url),
{
    let tail = seq!['#'] + fragment;
    assert(url + seq!['#'] + fragment =~= url + tail);
    if text::first_stand(url, "://"@) is None {
        lemma_no_split_extends(url, tail);
    } else {
        lemma_split_extends(url, tail);
        if let Some((_, path)) = split_url(url) {
            text::lemma_until_first_extends(path, tail, '#');
        }
    }
}

/// A query behind a path is no part of the plain path.
proof fn lemma_query_is_not_path(path: Seq<char>, query: Seq<char>)
    ensures
        plain_path(path + (seq!['?'] + query)) == plain_path(path),
{
    let tail = seq!['?'] + query;
    text::lemma_first_index_bounds(path, '#');
    if path.contains('#') {
        text::lemma_until_first_extends(path, tail, '#');
    } else {
        let longer = path + tail;
        text::lemma_first_index_bounds(longer, '#');
        let k = text::first_index(longer, '#');
        assert(longer[path.len() as int] == '?');
        assert forall|j: int| 0 <= j <= path.len() implies longer[j] != '#' by {
            if j < path.len() {
                assert(longer[j] == path[j]);
            }
        }
        assert(k > path.len());
        let kept = longer.subrange(path.len() as int, k);
        assert(longer.take(k) =~= path + kept);
        assert(path.take(text::first_index(path, '#')) =~= path);
        text::lemma_until_first_extends(path, kept, '?');
    }
}

/// A query string changes nothing about what a URL stands for: neither its
/// kind nor the id or the showcase id in it.
pub proof fn law_query_does_not_matter(url: Seq<char>, query: Seq<char>)
    requires
        has_closed_authority(url),
    ensures
        kind_of(url + seq!['?'] + query) == kind_of(url),
        video_id_in(url + seq!['?'] + query) == video_id_in(url),
        showcase_id_in(url + seq!['?'] + query) == showcase_id_in(url),
{
    let tail = seq!['?'] + query;
    assert(url + seq!['?'] + query =~= url + tail);
    if text::first_stand(url, "://"@) is None {
        lemma_no_split_extends(url, tail);
    } else {
        lemma_split_extends(url, tail);
        if let Some((_, path)) = split_url(url) {
            lemma_query_is_not_path(path, query);
        }
    }
}

/// A slash behind a path is no part of the plain path, and of the query only
/// where it stands in one.
proof fn lemma_slash_is_not_path(path: Seq<char>)
    ensures
        plain_path(path + seq!['/']) == plain_path(path),
        path.contains('#') || !path.contains('?') ==> query_token_in(path + seq!['/'])
            == query_token_in(path),
{
    let longer = path + seq!['/'];
    text::lemma_first_index_bounds(path, '#');
    text::lemma_first_index_bounds(path, '?');
    text::lemma_first_index_bounds(longer, '#');
    text::lemma_first_index_bounds(longer, '?');
    assert(path.take(path.len() as int) =~= path);
    assert(longer.take(longer.len() as int) =~= longer);
    if path.contains('#') {
        text::lemma_until_first_extends(path, seq!['/'], '#');
    } else {
        assert forall|j: int| 0 <= j < longer.len() implies longer[j] != '#' by {
            if j < path.len() {
                assert(longer[j] == path[j]);
            }
        }
        if path.contains('?') {
            text::lemma_until_first_extends(path, seq!['/'], '?');
        } else {
            assert forall|j: int| 0 <= j < longer.len() implies longer[j] != '?' by {
                if j < path.len() {
                    assert(longer[j] == path[j]);
                }
            }
            assert(longer.drop_last() =~= path);
            assert(seq!['/'].contains(seq!['/'][0]));
        }
    }
}

/// A trailing slash changes nothing about any URL, but that it may become part
/// of the last query parameter.
pub proof fn law_trailing_slash_does_not_matter(url: Seq<char>)
    ensures
        kind_of(url.push('/')) == kind_of(url),
        video_id_in(url.push('/')) == video_id_in(url),
        showcase_id_in(url.push('/')) == showcase_id_in(url),
        (split_url(url) matches Some((_, path)) ==> path.contains('#') || !path.contains('?'))
            ==> private_hash_in(url.push('/')) == private_hash_in(url),
{
    assert(url.push('/') =~= url + seq!['/']);
    if text::first_stand(url, "://"@) is None {
        lemma_no_split_extends(url, seq!['/']);
    } else {
        lemma_split_extends(url, seq!['/']);
        if let Some((_, path)) = split_url(url) {
            lemma_slash_is_not_path(path);
        }
    }
}

/// A bare host name in lower case.
pub open spec fn is_bare_host(host: Seq<char>) -> bool {
    &&& host.len() > 0
    &&& forall|i: int| 0 <= i < host.len() ==> 'a' <= #[trigger] host[i] <= 'z' || host[i] == '.'
}

/// A URL made of a bare host and a path splits into the two.
proof fn lemma_split_plain_url(host: Seq<char>, path: Seq<char>)
    requires
        is_bare_host(host),
        path.len() > 0,
        path[0] == '/',
    ensures
        split_url("https://"@ + host + path) == Some((host, path)),
{
    reveal_strlit("https://");
    reveal_strlit("https");
    reveal_strlit("://");
    let url = "https://"@ + host + path;
    let needle = "://"@;
    assert(url.subrange(5, 8) =~= needle);
    assert forall|k: int| 0 <= k < 5 implies !text::stands_at(url, needle, k) by {
        if text::stands_at(url, needle, k) {
            assert(url.subrange(k, k + 3)[0] == url[k]);
        }
    }
    text::lemma_first_stand(url, needle, 5);
    assert(url.take(5) =~= "https"@);
    text::lemma_lowered_stays("https"@);
    let rest = url.skip(8);
    assert(rest =~= host + path);
    text::lemma_first_index(rest, '/', host.len() as int);
    assert(text::until_first(rest, '/') =~= host);
    assert(rest.skip(host.len() as int) =~= path);
    text::lemma_last_index_bounds(host, '@');
    assert(text::behind_last(host, '@') =~= host);
    text::lemma_first_index(host, ':', host.len() as int);
    assert(text::until_first(host, ':') =~= host);
    text::lemma_lowered_stays(host);
}

/// A path without `#`, `?` and trailing slashes is plain already.
proof fn lemma_plain_path_stays(path: Seq<char>)
    requires
        path.len() > 0,
        path.last() != '/',
        forall|i: int| 0 <= i < path.len() ==> #[trigger] path[i] != '#' && path[i] != '?',
    ensures
        plain_path(path) == path,
{
    text::lemma_first_index(path, '#', path.len() as int);
    text::lemma_first_index(path, '?', path.len() as int);
    assert(text::until_first(path, '#') =~= path);
    assert(text::until_first(path, '?') =~= path);
}

/// The permalink of a video classifies as that video.
pub proof fn law_permalink_names_the_video(id: Seq<char>)
    requires
        patterns::is_number(id, 6),
    ensures
        kind_of("https://vimeo.com/"@ + id) == UrlKind::Video,
        video_id_in("https://vimeo.com/"@ + id) == Some(id),
        private_hash_in("https://vimeo.com/"@ + id) is None,
{
    reveal_strlit("https://vimeo.com/");
    reveal_strlit("https://");
    reveal_strlit("vimeo.com");
    reveal_strlit("player.vimeo.com");
    reveal_strlit("/");
    reveal_strlit("/showcase/");
    reveal_strlit("/album/");
    let path = seq!['/'] + id;
    assert("https://vimeo.com/"@ + id =~= "https://"@ + "vimeo.com"@ + path);
    lemma_split_plain_url("vimeo.com"@, path);
    lemma_plain_path_stays(path);
    assert(path.take(1) =~= "/"@);
    assert(path.skip(1) =~= id);
    assert(!id.contains('/')) by {
        if id.contains('/') {
            let i = choose|i: int| 0 <= i < id.len() && id[i] == '/';
            assert(patterns::is_decimal(id[i]));
        }
    }
    assert(patterns::is_decimal(id[0]));
    assert(path[1] == id[0]);
    assert("vimeo.com"@ != "player.vimeo.com"@) by {
        assert("vimeo.com"@.len() != "player.vimeo.com"@.len());
    }
    if path.len() >= 10 {
        assert(path.take(10)[1] != "/showcase/"@[1]);
    }
    if path.len() >= 7 {
        assert(path.take(7)[1] != "/album/"@[1]);
    }
}

/// `/video/<id>` names the video, and no share link.
proof fn lemma_player_path(id: Seq<char>)
    requires
        patterns::is_number(id, 6),
    ensures
        patterns::player_video_path("/video/"@ + id) == Some(id),
        patterns::video_path("/video/"@ + id) is None,
        patterns::private_video_path("/video/"@ + id) is None,
        forall|i: int|
            0 <= i < ("/video/"@ + id).len() ==> #[trigger] ("/video/"@ + id)[i] != '#' && (
            "/video/"@ + id)[i] != '?',
        ("/video/"@ + id).last() != '/',
{
    reveal_strlit("/");
    reveal_strlit("/video/");
    let plain = "/video/"@ + id;
    assert forall|i: int| 0 <= i < plain.len() implies #[trigger] plain[i] != '#' && plain[i]
        != '?' by {
        if i >= 7 {
            assert(patterns::is_decimal(id[i - 7]));
        }
    }
    assert(plain.last() == id.last());
    assert(patterns::is_decimal(id[id.len() - 1]));
    assert(plain.take(7) =~= "/video/"@);
    assert(plain.skip(7) =~= id);
    let rest = plain.skip(1);
    assert(plain.take(1) =~= "/"@);
    assert(!patterns::is_decimal(rest[0]));
    text::lemma_first_index(rest, '/', 5);
    assert(text::until_first(rest, '/').len() == 5);
}

/// The query of a path ends in front of the fragment and begins behind `?`.
proof fn lemma_path_with_token(plain: Seq<char>, token: Seq<char>)
    requires
        plain.len() > 0,
        plain.last() != '/',
        forall|i: int| 0 <= i < plain.len() ==> #[trigger] plain[i] != '#' && plain[i] != '?',
        patterns::is_token(token),
    ensures
        plain_path(plain + "?h="@ + token) == plain,
        query_token_in(plain + "?h="@ + token) == Some(token),
{
    reveal_strlit("?h=");
    reveal_strlit("h=");
    let path = plain + "?h="@ + token;
    let query = "h="@ + token;
    assert forall|i: int| 0 <= i < path.len() implies #[trigger] path[i] != '#' by {
        if i < plain.len() {
            assert(path[i] == plain[i]);
        } else if i >= plain.len() + 3 {
            assert(patterns::is_lower_hex(token[i - plain.len() - 3]));
        }
    }
    text::lemma_first_index(path, '#', path.len() as int);
    assert(text::until_first(path, '#') =~= path);
    assert forall|i: int| 0 <= i < plain.len() implies #[trigger] path[i] != '?' by {
        assert(path[i] == plain[i]);
    }
    text::lemma_first_index(path, '?', plain.len() as int);
    assert(text::until_first(path, '?') =~= plain);
    assert(path.contains(path[plain.len() as int]));
    assert(text::behind_first(path, '?') =~= query);
    assert forall|i: int| 0 <= i < query.len() implies #[trigger] query[i] != '&' by {
        if i >= 2 {
            assert(patterns::is_lower_hex(token[i - 2]));
        }
    }
    text::lemma_first_index(query, '&', query.len() as int);
    assert(text::until_first(query, '&') =~= query);
    assert(query.take(2) =~= "h="@);
    assert(query.skip(2) =~= token);
}

/// A URL on the player host splits into that host and its path.
#[verifier::spinoff_prover]
proof fn lemma_player_url_splits(rest: Seq<char>)
    ensures
        split_url("https://player.vimeo.com/video/"@ + rest) == Some(
            ("player.vimeo.com"@, "/video/"@ + rest),
        ),
{
    reveal_strlit("https://player.vimeo.com/video/");
    reveal_strlit("https://");
    reveal_strlit("player.vimeo.com");
    reveal_strlit("/video/");
    let path = "/video/"@ + rest;
    assert("https://player.vimeo.com/video/"@ =~= "https://"@ + "player.vimeo.com"@ + "/video/"@);
    assert("https://player.vimeo.com/video/"@ + rest =~= "https://"@ + "player.vimeo.com"@ + path);
    lemma_split_plain_url("player.vimeo.com"@, path);
}

/// The player page of a video, with the token of a share link, is that video
/// with that token.
#[verifier::spinoff_prover]
pub proof fn law_player_page_names_the_video(id: Seq<char>, token: Seq<char>)
    requires
        patterns::is_number(id, 6),
        patterns::is_token(token),
    ensures
        kind_of("https://player.vimeo.com/video/"@ + id + "?h="@ + token) == UrlKind::Video,
        video_id_in("https://player.vimeo.com/video/"@ + id + "?h="@ + token) == Some(id),
        private_hash_in("https://player.vimeo.com/video/"@ + id + "?h="@ + token) == Some(token),
{
    let rest = id + "?h="@ + token;
    lemma_player_path(id);
    lemma_path_with_token("/video/"@ + id, token);
    lemma_player_url_splits(rest);
    assert("https://player.vimeo.com/video/"@ + id + "?h="@ + token
        =~= "https://player.vimeo.com/video/"@ + rest);
    assert("/video/"@ + id + "?h="@ + token =~= "/video/"@ + rest);
}

/// A path without `#` and `?` has no query token.
proof fn lemma_path_without_query(path: Seq<char>)
    requires
        forall|i: int| 0 <= i < path.len() ==> #[trigger] path[i] != '#' && path[i] != '?',
    ensures
        query_token_in(path) is None,
{
    text::lemma_first_index(path, '#', path.len() as int);
    assert(text::until_first(path, '#') =~= path);
    assert(!path.contains('?'));
}

/// The player page of a video without a token is that video, and has none.
#[verifier::spinoff_prover]
pub proof fn law_bare_player_page_names_the_video(id: Seq<char>)
    requires
        patterns::is_number(id, 6),
    ensures
        kind_of("https://player.vimeo.com/video/"@ + id) == UrlKind::Video,
        video_id_in("https://player.vimeo.com/video/"@ + id) == Some(id),
        private_hash_in("https://player.vimeo.com/video/"@ + id) is None,
{
    let path = "/video/"@ + id;
    lemma_player_path(id);
    lemma_plain_path_stays(path);
    lemma_path_without_query(path);
    lemma_player_url_splits(id);
}

/// Two URLs stand for the same thing: they have the same kind, id, token and
/// showcase id.
pub open spec fn are_alike(a: Seq<char>, b: Seq<char>) -> bool {
    &&& kind_of(a) == kind_of(b)
    &&& video_id_in(a) == video_id_in(b)
    &&& private_hash_in(a) == private_hash_in(b)
    &&& showcase_id_in(a) == showcase_id_in(b)
}

/// The split of what stands behind the scheme.
spec fn split_rest(rest: Seq<char>) -> Option<(Seq<char>, Seq<char>)> {
    match host_of(text::behind_last(text::until_first(rest, '/'), '@')) {
        Some(host) => Some((text::lowered(host), rest.skip(text::first_index(rest, '/')))),
        None => None,
    }
}

/// A scheme that reads `http` or `https` in small letters is left out of the
/// split.
proof fn lemma_scheme_is_split_off(scheme: Seq<char>, rest: Seq<char>)
    requires
        text::lowered(scheme) == "http"@ || text::lowered(scheme) == "https"@,
    ensures
        split_url(scheme + "://"@ + rest) == split_rest(rest),
{
    reveal_strlit("http");
    reveal_strlit("https");
    reveal_strlit("://");
    let url = scheme + "://"@ + rest;
    let sep = "://"@;
    let n = scheme.len() as int;
    assert("http"@ =~= seq!['h', 't', 't', 'p']);
    assert("https"@ =~= seq!['h', 't', 't', 'p', 's']);
    assert(url.subrange(n, n + 3) =~= sep);
    assert forall|k: int| 0 <= k < n implies !text::stands_at(url, sep, k) by {
        assert(text::lowered(scheme)[k] == text::lower_char(scheme[k]));
        assert(text::lowered(scheme)[k] != ':');
        if text::stands_at(url, sep, k) {
            assert(url.subrange(k, k + 3)[0] == url[k]);
            assert(url[k] == scheme[k]);
        }
    }
    text::lemma_first_stand(url, sep, n);
    assert(url.take(n) =~= scheme);
    assert(url.skip(n + 3) =~= rest);
}

/// The scheme does not matter as long as it is `http` or `https`, in whatever
/// case: `http` is as good as `https`.
pub proof fn law_scheme_does_not_matter(scheme: Seq<char>, rest: Seq<char>)
    requires
        text::lowered(scheme) == "http"@ || text::lowered(scheme) == "https"@,
    ensures
        are_alike(scheme + "://"@ + rest, "https"@ + "://"@ + rest),
        are_alike("http"@ + "://"@ + rest, "https"@ + "://"@ + rest),
{
    reveal_strlit("http");
    reveal_strlit("https");
    text::lemma_lowered_stays("http"@);
    text::lemma_lowered_stays("https"@);
    lemma_scheme_is_split_off(scheme, rest);
    lemma_scheme_is_split_off("http"@, rest);
    lemma_scheme_is_split_off("https"@, rest);
}

/// A Vimeo URL has the scheme `http` or `https` and one of Vimeo's four hosts.
pub proof fn law_known_urls_have_a_known_host(url: Seq<char>)
    requires
        kind_of(url) != UrlKind::Unknown,
    ensures
        exists|scheme: Seq<char>, rest: Seq<char>|
            url == #[trigger] (scheme + "://"@ + rest) && (text::lowered(scheme) == "http"@
                || text::lowered(scheme) == "https"@),
        split_url(url) matches Some((host, _)) && (host == "vimeo.com"@ || host == "www.vimeo.com"@
            || host == "m.vimeo.com"@ || host == "player.vimeo.com"@),
{
    let sep = "://"@;
    let i = text::first_stand(url, sep)->0;
    let scheme = url.take(i);
    let rest = url.skip(i + sep.len());
    assert(url =~= scheme + url.subrange(i, i + sep.len()) + rest);
    assert(url == scheme + "://"@ + rest);
}

/// A host as it stands alone: not empty, without what separates it from its
/// surroundings.
pub open spec fn is_host(host: Seq<char>) -> bool {
    &&& host.len() > 0
    &&& host[0] != '['
    &&& forall|i: int|
        0 <= i < host.len() ==> #[trigger] host[i] != '/' && host[i] != '@' && host[i] != ':'
}

/// What stands around the host of an authority is left out.
proof fn lemma_authority_is_split(
    authority: Seq<char>,
    front: Seq<char>,
    host: Seq<char>,
    back: Seq<char>,
    path: Seq<char>,
)
    requires
        authority == front + host + back,
        is_host(host),
        front.len() > 0 ==> front.last() == '@',
        back.len() > 0 ==> back[0] == ':',
        forall|i: int| 0 <= i < front.len() ==> #[trigger] front[i] != '/',
        forall|i: int| 0 <= i < back.len() ==> #[trigger] back[i] != '/' && back[i] != '@',
        path.len() > 0,
        path[0] == '/',
    ensures
        split_rest(authority + path) == Some((text::lowered(host), path)),
{
    let rest = authority + path;
    let n = authority.len() as int;
    assert forall|i: int| 0 <= i < n implies #[trigger] rest[i] != '/' by {
        assert(rest[i] == authority[i]);
        if i < front.len() {
            assert(authority[i] == front[i]);
        } else if i < front.len() + host.len() {
            assert(authority[i] == host[i - front.len()]);
        } else {
            assert(authority[i] == back[i - front.len() - host.len()]);
        }
    }
    text::lemma_first_index(rest, '/', n);
    assert(text::until_first(rest, '/') =~= authority);
    assert(rest.skip(n) =~= path);
    let bare = host + back;
    assert forall|j: int| front.len() <= j < n implies #[trigger] authority[j] != '@' by {
        if j < front.len() + host.len() {
            assert(authority[j] == host[j - front.len()]);
        } else {
            assert(authority[j] == back[j - front.len() - host.len()]);
        }
    }
    if front.len() > 0 {
        assert(authority[front.len() - 1] == '@');
        text::lemma_last_index(authority, '@', front.len() - 1);
    } else {
        text::lemma_last_index_bounds(authority, '@');
    }
    assert(text::behind_last(authority, '@') =~= bare);
    assert(bare[0] == host[0]);
    assert forall|j: int| 0 <= j < host.len() implies #[trigger] bare[j] != ':' by {
        assert(bare[j] == host[j]);
    }
    if back.len() > 0 {
        assert(bare[host.len() as int] == ':');
    }
    text::lemma_first_index(bare, ':', host.len() as int);
    assert(text::until_first(bare, ':') =~= host);
}

/// Credentials in front of the host and a port behind it do not matter, nor
/// does the case in which the host is written.
pub proof fn law_host_alone_matters(
    user: Seq<char>,
    host: Seq<char>,
    same_host: Seq<char>,
    port: Seq<char>,
    path: Seq<char>,
)
    requires
        is_host(host),
        is_host(same_host),
        text::lowered(host) == text::lowered(same_host),
        forall|i: int| 0 <= i < user.len() ==> #[trigger] user[i] != '/',
        forall|i: int| 0 <= i < port.len() ==> #[trigger] port[i] != '/' && port[i] != '@',
        path.len() > 0,
        path[0] == '/',
    ensures
        are_alike("https"@ + "://"@ + (same_host + path), "https"@ + "://"@ + (host + path)),
        are_alike(
            "https"@ + "://"@ + (user + seq!['@'] + host + path),
            "https"@ + "://"@ + (host + path),
        ),
        are_alike(
            "https"@ + "://"@ + (host + seq![':'] + port + path),
            "https"@ + "://"@ + (host + path),
        ),
{
    reveal_strlit("https");
    text::lemma_lowered_stays("https"@);
    let none = Seq::<char>::empty();
    let front = user + seq!['@'];
    let back = seq![':'] + port;
    lemma_authority_is_split(host, none, host, none, path);
    lemma_authority_is_split(same_host, none, same_host, none, path);
    lemma_authority_is_split(front + host, front, host, none, path);
    lemma_authority_is_split(host + back, none, host, back, path);
    assert(front + host + path =~= user + seq!['@'] + host + path);
    assert(host + back + path =~= host + seq![':'] + port + path);
    lemma_scheme_is_split_off("https"@, host + path);
    lemma_scheme_is_split_off("https"@, same_host + path);
    lemma_scheme_is_split_off("https"@, user + seq!['@'] + host + path);
    lemma_scheme_is_split_off("https"@, host + seq![':'] + port + path);
}

/// `www.vimeo.com` and `m.vimeo.com` serve what `vimeo.com` serves.
pub proof fn law_vimeo_hosts_are_alike(path: Seq<char>)
    requires
        path.len() > 0,
        path[0] == '/',
    ensures
        are_alike("https://"@ + "www.vimeo.com"@ + path, "https://"@ + "vimeo.com"@ + path),
        are_alike("https://"@ + "m.vimeo.com"@ + path, "https://"@ + "vimeo.com"@ + path),
{
    reveal_strlit("vimeo.com");
    reveal_strlit("www.vimeo.com");
    reveal_strlit("m.vimeo.com");
    reveal_strlit("player.vimeo.com");
    lemma_split_plain_url("vimeo.com"@, path);
    lemma_split_plain_url("www.vimeo.com"@, path);
    lemma_split_plain_url("m.vimeo.com"@, path);
    assert("vimeo.com"@.len() == 9 && "www.vimeo.com"@.len() == 13 && "m.vimeo.com"@.len() == 11
        && "player.vimeo.com"@.len() == 16);
}

/// The shapes of the paths that are taken for something: `/<id>` and
/// `/<id>/<token>` on Vimeo's own hosts, `/video/<id>` on the player host, and
/// `/showcase/<id>` and `/album/<id>`.
#[verifier::spinoff_prover]
pub proof fn law_kinds_have_their_shapes(url: Seq<char>)
    requires
        kind_of(url) != UrlKind::Unknown,
    ensures
        ({
            let (host, whole) = split_url(url)->0;
            let path = plain_path(whole);
            match kind_of(url) {
                UrlKind::Video => {
                    &&& video_id_in(url) matches Some(id)
                    &&& path == (if host == "player.vimeo.com"@ {
                        "/video/"@
                    } else {
                        "/"@
                    }) + id
                    &&& id.len() >= 6
                },
                UrlKind::PrivateVideo => {
                    &&& video_id_in(url) matches Some(id)
                    &&& private_hash_in(url) matches Some(token)
                    &&& host != "player.vimeo.com"@
                    &&& path == "/"@ + id + "/"@ + token
                    &&& id.len() >= 6
                },
                UrlKind::Showcase => {
                    &&& showcase_id_in(url) matches Some(id)
                    &&& host != "player.vimeo.com"@
                    &&& path == "/showcase/"@ + id || path == "/album/"@ + id
                    &&& id.len() >= 1
                },
                UrlKind::Unknown => false,
            }
        }),
{
    let (host, whole) = split_url(url)->0;
    let path = plain_path(whole);
    lemma_path_shapes(path);
    if host == "player.vimeo.com"@ {
        lemma_player_path(patterns::player_video_path(path)->0);
    }
}

/// The shapes of the paths that the patterns match.
proof fn lemma_path_shapes(path: Seq<char>)
    ensures
        patterns::video_path(path) matches Some(id) ==> path == "/"@ + id && id.len() >= 6,
        patterns::player_video_path(path) matches Some(id) ==> path == "/video/"@ + id && id.len()
            >= 6,
        patterns::showcase_path(path) matches Some(id) ==> (path == "/showcase/"@ + id || path
            == "/album/"@ + id) && id.len() >= 1,
        patterns::private_video_path(path) matches Some((id, token)) ==> path == "/"@ + id + "/"@
            + token && id.len() >= 6,
{
    if patterns::video_path(path) is Some {
        lemma_prefixed("/"@, path);
    }
    if patterns::player_video_path(path) is Some {
        lemma_prefixed("/video/"@, path);
    }
    if patterns::showcase_path(path) is Some {
        lemma_prefixed("/showcase/"@, path);
        lemma_prefixed("/album/"@, path);
    }
    if let Some((id, token)) = patterns::private_video_path(path) {
        lemma_prefixed("/"@, path);
        lemma_share_path(path, id, token);
    }
}

/// What is left behind a prefix.
proof fn lemma_prefixed(prefix: Seq<char>, s: Seq<char>)
    ensures
        text::without_prefix(s, prefix) matches Some(rest) ==> s == prefix + rest,
{
    text::law_prefix_is_undone(prefix, s);
}

/// The shape of a share path.
#[verifier::spinoff_prover]
proof fn lemma_share_path(path: Seq<char>, id: Seq<char>, token: Seq<char>)
    requires
        patterns::private_video_path(path) == Some((id, token)),
    ensures
        path == "/"@ + id + "/"@ + token,
        id.len() >= 6,
{
    reveal_strlit("/");
    let rest = text::without_prefix(path, "/"@)->0;
    lemma_prefixed("/"@, path);
    lemma_rejoined(rest, id, token);
    assert("/"@ =~= seq!['/']);
    assert("/"@ + (id + seq!['/'] + token) =~= "/"@ + id + "/"@ + token);
}

/// The two sides of the first slash make up the text.
proof fn lemma_rejoined(s: Seq<char>, front: Seq<char>, back: Seq<char>)
    requires
        s.contains('/'),
        front == text::until_first(s, '/'),
        back == text::behind_first(s, '/'),
    ensures
        s == front + seq!['/'] + back,
{
    text::lemma_first_index_bounds(s, '/');
    assert(s =~= front + seq!['/'] + back);
}

/// Within ASCII an id is made of the ten digits, and a token of at least eight
/// of the ten digits and the letters from `a` to `f`.
pub proof fn law_digits_of_ids_and_tokens(c: char, token: Seq<char>)
    ensures
        c <= '\x7f' ==> (patterns::is_decimal(c) <==> '0' <= c <= '9'),
        patterns::is_token(token) <==> token.len() >= 8 && forall|i: int|
            0 <= i < token.len() ==> ('0' <= #[trigger] token[i] <= '9' || 'a' <= token[i] <= 'f'),
{
    if patterns::is_token(token) {
        assert forall|i: int| 0 <= i < token.len() implies ('0' <= #[trigger] token[i] <= '9'
            || 'a' <= token[i] <= 'f') by {
            assert(patterns::is_lower_hex(token[i]));
        }
    }
}

/// Ids of six digits and more are numbers.
proof fn lemma_number(id: Seq<char>, min: int)
    requires
        id.len() >= min,
        forall|i: int| 0 <= i < id.len() ==> '0' <= #[trigger] id[i] <= '9',
    ensures
        patterns::is_number(id, min),
{
}

/// `https://vimeo.com/<id>/<token>` is the private video with that id and that
/// token.
#[verifier::spinoff_prover]
pub proof fn law_share_link_names_the_video(id: Seq<char>, token: Seq<char>)
    requires
        id.len() >= 6,
        forall|i: int| 0 <= i < id.len() ==> '0' <= #[trigger] id[i] <= '9',
        patterns::is_token(token),
    ensures
        ({
            let url = "https://"@ + "vimeo.com"@ + ("/"@ + id + "/"@ + token);
            &&& kind_of(url) == UrlKind::PrivateVideo
            &&& video_id_in(url) == Some(id)
            &&& private_hash_in(url) == Some(token)
        }),
{
    reveal_strlit("vimeo.com");
    reveal_strlit("player.vimeo.com");
    reveal_strlit("/");
    reveal_strlit("/showcase/");
    reveal_strlit("/album/");
    let rest = id + "/"@ + token;
    let path = "/"@ + id + "/"@ + token;
    assert(path =~= "/"@ + rest);
    assert("/"@ =~= seq!['/']);
    assert(path[0] == '/');
    lemma_number(id, 6);
    lemma_split_plain_url("vimeo.com"@, path);
    assert("vimeo.com"@.len() == 9 && "player.vimeo.com"@.len() == 16);
    assert forall|i: int| 0 <= i < path.len() implies #[trigger] path[i] != '#' && path[i]
        != '?' by {
        if 1 <= i < 1 + id.len() {
            assert(path[i] == id[i - 1]);
        } else if i >= 2 + id.len() {
            assert(path[i] == token[i - 2 - id.len()]);
            assert(patterns::is_lower_hex(token[i - 2 - id.len()]));
        }
    }
    assert(path.last() == token[token.len() - 1]);
    assert(patterns::is_lower_hex(token[token.len() - 1]));
    lemma_plain_path_stays(path);
    text::law_prefix_is_undone("/"@, rest);
    assert forall|i: int| 0 <= i < id.len() implies #[trigger] rest[i] != '/' by {
        assert(rest[i] == id[i]);
    }
    assert(rest[id.len() as int] == '/');
    text::lemma_first_index(rest, '/', id.len() as int);
    assert(rest.contains(rest[id.len() as int]));
    assert(text::until_first(rest, '/') =~= id);
    assert(text::behind_first(rest, '/') =~= token);
    assert(path[1] == id[0]);
    if text::stands_at(path, "/showcase/"@, 0) {
        assert(path.subrange(0, 10)[1] == path[1]);
    }
    if text::stands_at(path, "/album/"@, 0) {
        assert(path.subrange(0, 7)[1] == path[1]);
    }
}

/// `/showcase/<id>` and `/album/<id>` on `vimeo.com` are showcases with that
/// id, whatever its length, and no videos.
#[verifier::spinoff_prover]
pub proof fn law_showcase_names_its_id(prefix: Seq<char>, id: Seq<char>)
    requires
        prefix == "/showcase/"@ || prefix == "/album/"@,
        id.len() > 0,
        forall|i: int| 0 <= i < id.len() ==> '0' <= #[trigger] id[i] <= '9',
    ensures
        ({
            let url = "https://"@ + "vimeo.com"@ + (prefix + id);
            &&& kind_of(url) == UrlKind::Showcase
            &&& showcase_id_in(url) == Some(id)
            &&& video_id_in(url) is None
            &&& private_hash_in(url) is None
        }),
{
    reveal_strlit("vimeo.com");
    reveal_strlit("player.vimeo.com");
    reveal_strlit("/showcase/");
    reveal_strlit("/album/");
    let path = prefix + id;
    assert(prefix[0] == '/');
    assert(path[0] == '/');
    lemma_number(id, 1);
    lemma_split_plain_url("vimeo.com"@, path);
    assert("vimeo.com"@.len() == 9 && "player.vimeo.com"@.len() == 16);
    assert forall|i: int| 0 <= i < path.len() implies #[trigger] path[i] != '#' && path[i]
        != '?' by {
        if i >= prefix.len() {
            assert(path[i] == id[i - prefix.len()]);
        } else {
            assert(path[i] == prefix[i]);
        }
    }
    assert(path.last() == id[id.len() - 1]);
    lemma_plain_path_stays(path);
    text::law_prefix_is_undone(prefix, id);
    if prefix == "/album/"@ && text::stands_at(path, "/showcase/"@, 0) {
        assert(path.subrange(0, 10)[1] == path[1]);
        assert(path[1] == prefix[1]);
    }
}

/// The query of a player URL is read pair by pair: one that is no token of the
/// `h` parameter is passed over.
#[verifier::spinoff_prover]
pub proof fn law_other_parameters_are_passed_over(id: Seq<char>, pair: Seq<char>, query: Seq<char>)
    requires
        patterns::is_number(id, 6),
        !pair.contains('&'),
        !pair.contains('#'),
        text::without_prefix(pair, "h="@) matches Some(value) ==> !patterns::is_token(value),
    ensures
        private_hash_in(
            "https://player.vimeo.com/video/"@ + (id + seq!['?'] + pair + seq!['&'] + query),
        ) == private_hash_in("https://player.vimeo.com/video/"@ + (id + seq!['?'] + query)),
{
    let long = pair + seq!['&'] + query;
    assert(id + seq!['?'] + pair + seq!['&'] + query =~= id + seq!['?'] + long);
    lemma_player_query(id, long);
    lemma_player_query(id, query);
    lemma_first_pair_is_passed_over(pair, text::until_first(query, '#'));
    text::lemma_first_index_bounds(query, '#');
    let k = text::first_index(query, '#');
    let n = pair.len() + 1;
    assert forall|j: int| 0 <= j < n + k implies #[trigger] long[j] != '#' by {
        if j < pair.len() {
            assert(long[j] == pair[j]);
            assert(pair.contains(pair[j]));
        } else if j > pair.len() {
            assert(long[j] == query[j - n]);
        }
    }
    if k < query.len() {
        assert(long[n + k] == query[k]);
    }
    text::lemma_first_index(long, '#', n + k);
    assert(text::until_first(long, '#') =~= pair + seq!['&'] + text::until_first(query, '#'));
}

/// The first parameter `h` whose value is a token gives the token, whatever
/// parameters follow.
#[verifier::spinoff_prover]
pub proof fn law_token_parameter_is_taken(id: Seq<char>, token: Seq<char>, query: Seq<char>)
    requires
        patterns::is_number(id, 6),
        patterns::is_token(token),
    ensures
        private_hash_in(
            "https://player.vimeo.com/video/"@ + (id + seq!['?'] + ("h="@ + token + seq!['&']
                + query)),
        ) == Some(token),
{
    reveal_strlit("h=");
    let pair = "h="@ + token;
    let long = "h="@ + token + seq!['&'] + query;
    lemma_player_query(id, long);
    assert forall|j: int| 0 <= j < pair.len() implies #[trigger] pair[j] != '&' && pair[j]
        != '#' by {
        if j >= 2 {
            assert(pair[j] == token[j - 2]);
            assert(patterns::is_lower_hex(token[j - 2]));
        }
    }
    text::lemma_first_index_bounds(long, '#');
    let k = text::first_index(long, '#');
    assert(k > pair.len()) by {
        if k <= pair.len() {
            if k < pair.len() {
                assert(long[k] == pair[k]);
            } else {
                assert(long[k] == '&');
            }
        }
    }
    let kept = text::until_first(long, '#');
    assert forall|j: int| 0 <= j < pair.len() implies #[trigger] kept[j] != '&' by {
        assert(kept[j] == pair[j]);
    }
    assert(kept[pair.len() as int] == '&');
    text::lemma_first_index(kept, '&', pair.len() as int);
    assert(text::until_first(kept, '&') =~= pair);
    text::law_prefix_is_undone("h="@, token);
}

/// The token of a player URL is that of its query in front of the fragment.
proof fn lemma_player_query(id: Seq<char>, query: Seq<char>)
    requires
        patterns::is_number(id, 6),
    ensures
        private_hash_in("https://player.vimeo.com/video/"@ + (id + seq!['?'] + query))
            == first_token(text::until_first(query, '#')),
{
    let plain = "/video/"@ + id;
    let path = plain + (seq!['?'] + query);
    lemma_player_path(id);
    lemma_player_url_splits(id + seq!['?'] + query);
    assert("/video/"@ + (id + seq!['?'] + query) =~= path);
    lemma_query_is_not_path(plain, query);
    lemma_plain_path_stays(plain);
    text::lemma_first_index_bounds(query, '#');
    let k = text::first_index(query, '#');
    let n = plain.len() + 1;
    assert forall|j: int| 0 <= j < n + k implies #[trigger] path[j] != '#' by {
        if j < plain.len() {
            assert(path[j] == plain[j]);
        } else if j > plain.len() {
            assert(path[j] == query[j - n]);
        }
    }
    if k < query.len() {
        assert(path[n + k] == query[k]);
    }
    text::lemma_first_index(path, '#', n + k);
    let kept = text::until_first(path, '#');
    assert(kept =~= plain + (seq!['?'] + text::until_first(query, '#')));
    assert forall|j: int| 0 <= j < plain.len() implies #[trigger] kept[j] != '?' by {
        assert(kept[j] == plain[j]);
    }
    assert(kept[plain.len() as int] == '?');
    text::lemma_first_index(kept, '?', plain.len() as int);
    assert(kept.contains(kept[plain.len() as int]));
    assert(text::behind_first(kept, '?') =~= text::until_first(query, '#'));
}

proof fn lemma_first_pair_is_passed_over(pair: Seq<char>, query: Seq<char>)
    requires
        !pair.contains('&'),
        text::without_prefix(pair, "h="@) matches Some(value) ==> !patterns::is_token(value),
    ensures
        first_token(pair + seq!['&'] + query) == first_token(query),
{
    let long = pair + seq!['&'] + query;
    assert forall|j: int| 0 <= j < pair.len() implies #[trigger] long[j] != '&' by {
        assert(long[j] == pair[j]);
        assert(pair.contains(pair[j]));
    }
    assert(long[pair.len() as int] == '&');
    text::lemma_first_index(long, '&', pair.len() as int);
    assert(long.contains(long[pair.len() as int]));
    assert(text::until_first(long, '&') =~= pair);
    assert(text::behind_first(long, '&') =~= query);
}

/// What the functions of this module say of a URL.
pub open spec fn is_reading(
    url: &str,
    kind: UrlKind,
    known: bool,
    id: Option<String>,
    token: Option<String>,
    showcase: Option<String>,
) -> bool {
    &&& call_ensures(classify_url, (url,), kind)
    &&& call_ensures(is_vimeo_url, (url,), known)
    &&& call_ensures(extract_video_id, (url,), id)
    &&& call_ensures(extract_private_hash, (url,), token)
    &&& call_ensures(extract_showcase_id, (url,), showcase)
}

/// A URL is known if it is a video, a private video or a showcase. Only the
/// first two have an id, and a private video has a token. A showcase has its own
/// id.
pub proof fn law_readings_belong_together(
    url: &str,
    kind: UrlKind,
    known: bool,
    id: Option<String>,
    token: Option<String>,
    showcase: Option<String>,
)
    requires
        is_reading(url, kind, known, id, token, showcase),
    ensures
        known <==> kind != UrlKind::Unknown,
        id is Some <==> kind == UrlKind::Video || kind == UrlKind::PrivateVideo,
        kind == UrlKind::PrivateVideo ==> token is Some,
        token is Some ==> id is Some,
        kind == UrlKind::Showcase ==> showcase is Some,
        id matches Some(digits) ==> digits@.len() >= 6,
        token matches Some(digits) ==> digits@.len() >= 8 && forall|i: int|
            0 <= i < digits@.len() ==> ('0' <= #[trigger] digits@[i] <= '9' || 'a' <= digits@[i]
                <= 'f'),
{
    law_only_single_videos_have_ids(url@);
    law_private_hash_is_token(url@);
    if kind == UrlKind::Video || kind == UrlKind::PrivateVideo {
        law_single_video_has_id(url@);
    }
    if kind == UrlKind::PrivateVideo {
        law_private_video_has_token(url@);
    }
    if kind == UrlKind::Showcase {
        law_showcase_has_no_video_id(url@);
    }
    if let Some(digits) = token {
        law_digits_of_ids_and_tokens('0', digits@);
    }
}

/// `http` and `https`, in whatever case, lead to the same readings.
pub proof fn law_schemes_read_alike(
    scheme: Seq<char>,
    rest: Seq<char>,
    url: &str,
    secure: &str,
    kind: UrlKind,
    same_kind: UrlKind,
    id: Option<String>,
    same_id: Option<String>,
    token: Option<String>,
    same_token: Option<String>,
    showcase: Option<String>,
    same_showcase: Option<String>,
    known: bool,
    same_known: bool,
)
    requires
        text::lowered(scheme) == "http"@ || text::lowered(scheme) == "https"@,
        url@ == scheme + "://"@ + rest,
        secure@ == "https"@ + "://"@ + rest,
        is_reading(url, kind, known, id, token, showcase),
        is_reading(secure, same_kind, same_known, same_id, same_token, same_showcase),
    ensures
        kind == same_kind,
        known == same_known,
        id is Some <==> same_id is Some,
        id is Some ==> (id->0)@ == (same_id->0)@,
        token is Some <==> same_token is Some,
        token is Some ==> (token->0)@ == (same_token->0)@,
        showcase is Some <==> same_showcase is Some,
        showcase is Some ==> (showcase->0)@ == (same_showcase->0)@,
{
    law_scheme_does_not_matter(scheme, rest);
}

/// The URLs of a video are read as what they are: the permalink, the share link,
/// and the player page with and without a token.
pub proof fn law_video_urls_are_read(
    url: &str,
    kind: UrlKind,
    known: bool,
    id: Option<String>,
    token: Option<String>,
    showcase: Option<String>,
    digits: Seq<char>,
    hash: Seq<char>,
)
    requires
        is_reading(url, kind, known, id, token, showcase),
        digits.len() >= 6,
        forall|i: int| 0 <= i < digits.len() ==> '0' <= #[trigger] digits[i] <= '9',
        hash.len() >= 8,
        forall|i: int|
            0 <= i < hash.len() ==> ('0' <= #[trigger] hash[i] <= '9' || 'a' <= hash[i] <= 'f'),
    ensures
        url@ == "https://vimeo.com/"@ + digits ==> kind == UrlKind::Video && token is None && (
        id matches Some(s) && s@ == digits),
        url@ == "https://"@ + "vimeo.com"@ + ("/"@ + digits + "/"@ + hash) ==> kind
            == UrlKind::PrivateVideo && (id matches Some(s) && s@ == digits) && (
        token matches Some(t) && t@ == hash),
        url@ == "https://player.vimeo.com/video/"@ + digits ==> kind == UrlKind::Video
            && token is None && (id matches Some(s) && s@ == digits),
        url@ == "https://player.vimeo.com/video/"@ + digits + "?h="@ + hash ==> kind
            == UrlKind::Video && (id matches Some(s) && s@ == digits) && (token matches Some(t)
            && t@ == hash),
{
    lemma_number(digits, 6);
    law_digits_of_ids_and_tokens('0', hash);
    law_permalink_names_the_video(digits);
    law_share_link_names_the_video(digits, hash);
    law_bare_player_page_names_the_video(digits);
    law_player_page_names_the_video(digits, hash);
}

/// A showcase is known by its path, whatever the host that serves it.
#[verifier::spinoff_prover]
pub proof fn law_showcase_id_is_in_the_path(
    url: &str,
    host: Seq<char>,
    prefix: Seq<char>,
    id: Seq<char>,
    r: Option<String>,
)
    requires
        call_ensures(extract_showcase_id, (url,), r),
        is_bare_host(host),
        prefix == "/showcase/"@ || prefix == "/album/"@,
        id.len() > 0,
        forall|i: int| 0 <= i < id.len() ==> '0' <= #[trigger] id[i] <= '9',
        url@ == "https://"@ + host + (prefix + id),
    ensures
        r matches Some(s) && s@ == id,
{
    reveal_strlit("/showcase/");
    reveal_strlit("/album/");
    let path = prefix + id;
    assert(prefix[0] == '/');
    assert(path[0] == '/');
    lemma_number(id, 1);
    lemma_split_plain_url(host, path);
    assert forall|i: int| 0 <= i < path.len() implies #[trigger] path[i] != '#' && path[i]
        != '?' by {
        if i >= prefix.len() {
            assert(path[i] == id[i - prefix.len()]);
        } else {
            assert(path[i] == prefix[i]);
        }
    }
    assert(path.last() == id[id.len() - 1]);
    lemma_plain_path_stays(path);
    text::law_prefix_is_undone(prefix, id);
    if prefix == "/album/"@ && text::stands_at(path, "/showcase/"@, 0) {
        assert(path.subrange(0, 10)[1] == path[1]);
        assert(path[1] == prefix[1]);
    }
}

/// On a host other than that of the player a query leaves the token as it is.
proof fn lemma_query_keeps_the_token(host: Seq<char>, path: Seq<char>, query: Seq<char>)
    requires
        is_bare_host(host),
        host != "player.vimeo.com"@,
        path.len() > 0,
        path[0] == '/',
    ensures
        private_hash_in("https://"@ + host + (path + (seq!['?'] + query))) == private_hash_in(
            "https://"@ + host + path,
        ),
{
    let longer = path + (seq!['?'] + query);
    assert(longer[0] == '/');
    lemma_split_plain_url(host, path);
    lemma_split_plain_url(host, longer);
    lemma_query_is_not_path(path, query);
}

/// The token of a share link is in its path. A query holds a token on the player
/// host alone: elsewhere its `h` parameter is not looked at.
#[verifier::spinoff_prover]
pub proof fn law_query_token_is_for_the_player(
    url: &str,
    host: Seq<char>,
    id: Seq<char>,
    token: Seq<char>,
    query: Seq<char>,
    r: Option<String>,
)
    requires
        call_ensures(extract_private_hash, (url,), r),
        host == "vimeo.com"@ || host == "www.vimeo.com"@ || host == "m.vimeo.com"@,
        id.len() >= 6,
        forall|i: int| 0 <= i < id.len() ==> '0' <= #[trigger] id[i] <= '9',
        token.len() >= 8,
        forall|i: int|
            0 <= i < token.len() ==> ('0' <= #[trigger] token[i] <= '9' || 'a' <= token[i] <= 'f'),
    ensures
        url@ == "https://"@ + host + ("/"@ + id + (seq!['?'] + query)) ==> r is None,
        url@ == "https://"@ + host + ("/"@ + id + "/"@ + token + (seq!['?'] + query)) ==> (
        r matches Some(t) && t@ == token),
{
    reveal_strlit("vimeo.com");
    reveal_strlit("www.vimeo.com");
    reveal_strlit("m.vimeo.com");
    reveal_strlit("player.vimeo.com");
    reveal_strlit("https://");
    reveal_strlit("https://vimeo.com/");
    reveal_strlit("/");
    assert("vimeo.com"@.len() == 9 && "www.vimeo.com"@.len() == 13 && "m.vimeo.com"@.len() == 11
        && "player.vimeo.com"@.len() == 16);
    let short = "/"@ + id;
    let long = "/"@ + id + "/"@ + token;
    assert(short[0] == '/' && long[0] == '/');
    lemma_number(id, 6);
    law_digits_of_ids_and_tokens('0', token);
    lemma_query_keeps_the_token(host, short, query);
    lemma_query_keeps_the_token(host, long, query);
    law_vimeo_hosts_are_alike(short);
    law_vimeo_hosts_are_alike(long);
    law_share_link_names_the_video(id, token);
    law_permalink_names_the_video(id);
    assert("https://vimeo.com/"@ + id =~= "https://"@ + "vimeo.com"@ + short);
}

/// `url` is spelled out as a scheme, credentials, a host, a port, a path, slashes
/// and a tail. Credentials end in `@`, a port begins with `:`, and a tail begins
/// with `?` or `#`. All but the scheme, the host and the path may be empty.
pub open spec fn is_spelled(
    url: Seq<char>,
    scheme: Seq<char>,
    user: Seq<char>,
    host: Seq<char>,
    port: Seq<char>,
    path: Seq<char>,
    slashes: Seq<char>,
    tail: Seq<char>,
) -> bool {
    &&& url == scheme + "://"@ + ((user + host + port) + ((path + slashes) + tail))
    &&& text::lowered(scheme) == "http"@ || text::lowered(scheme) == "https"@
    &&& is_host(host)
    &&& user.len() > 0 ==> user.last() == '@'
    &&& forall|i: int| 0 <= i < user.len() ==> #[trigger] user[i] != '/'
    &&& port.len() > 0 ==> port[0] == ':'
    &&& forall|i: int| 0 <= i < port.len() ==> #[trigger] port[i] != '/' && port[i] != '@'
    &&& path.len() > 0
    &&& path[0] == '/'
    &&& path.last() != '/'
    &&& forall|i: int| 0 <= i < path.len() ==> #[trigger] path[i] != '#' && path[i] != '?'
    &&& forall|i: int| 0 <= i < slashes.len() ==> #[trigger] slashes[i] == '/'
    &&& tail.len() > 0 ==> tail[0] == '?' || tail[0] == '#'
}

/// A path is plain without its slashes and its tail.
#[verifier::spinoff_prover]
proof fn lemma_spelled_path(path: Seq<char>, slashes: Seq<char>, tail: Seq<char>)
    requires
        path.len() > 0,
        path.last() != '/',
        forall|i: int| 0 <= i < path.len() ==> #[trigger] path[i] != '#' && path[i] != '?',
        forall|i: int| 0 <= i < slashes.len() ==> #[trigger] slashes[i] == '/',
        tail.len() > 0 ==> tail[0] == '?' || tail[0] == '#',
    ensures
        plain_path((path + slashes) + tail) == path,
{
    let body = path + slashes;
    let whole = body + tail;
    let n = body.len() as int;
    let set = seq!['/'];
    assert forall|i: int| 0 <= i < n implies #[trigger] body[i] != '#' && body[i] != '?' by {
        if i < path.len() {
            assert(body[i] == path[i]);
        } else {
            assert(body[i] == slashes[i - path.len()]);
        }
    }
    assert forall|i: int| 0 <= i < slashes.len() implies set.contains(#[trigger] slashes[i]) by {
        assert(set[0] == slashes[i]);
    }
    assert(!set.contains(path.last()));
    text::law_trailing_marks_are_stripped(path, slashes, set);
    text::lemma_first_index(body, '#', n);
    text::lemma_first_index(body, '?', n);
    assert(text::until_first(body, '#') =~= body);
    assert(text::until_first(body, '?') =~= body);
    assert(plain_path(body) == path);
    if tail.len() == 0 {
        assert(whole =~= body);
    } else if tail[0] == '?' {
        assert(tail =~= seq!['?'] + tail.drop_first());
        lemma_query_is_not_path(body, tail.drop_first());
    } else {
        assert forall|j: int| 0 <= j < n implies #[trigger] whole[j] != '#' by {
            assert(whole[j] == body[j]);
        }
        assert(whole[n] == '#');
        text::lemma_first_index(whole, '#', n);
        assert(text::until_first(whole, '#') =~= body);
    }
}

/// A URL that is spelled out is split into its host and what follows.
proof fn lemma_spelled_url(
    url: Seq<char>,
    scheme: Seq<char>,
    user: Seq<char>,
    host: Seq<char>,
    port: Seq<char>,
    path: Seq<char>,
    slashes: Seq<char>,
    tail: Seq<char>,
)
    requires
        is_spelled(url, scheme, user, host, port, path, slashes, tail),
    ensures
        split_url(url) == Some((text::lowered(host), (path + slashes) + tail)),
        plain_path((path + slashes) + tail) == path,
{
    let whole = (path + slashes) + tail;
    assert(whole[0] == path[0]);
    lemma_scheme_is_split_off(scheme, (user + host + port) + whole);
    lemma_authority_is_split(user + host + port, user, host, port, whole);
    lemma_spelled_path(path, slashes, tail);
}

/// However a URL of a video is spelled, it is read as that video: with `http` or
/// `https`, credentials, a host in any case, a port, trailing slashes, a query
/// and a fragment.
#[verifier::spinoff_prover]
pub proof fn law_spelling_does_not_matter(
    url: &str,
    kind: UrlKind,
    known: bool,
    id: Option<String>,
    token: Option<String>,
    showcase: Option<String>,
    scheme: Seq<char>,
    user: Seq<char>,
    host: Seq<char>,
    port: Seq<char>,
    path: Seq<char>,
    slashes: Seq<char>,
    tail: Seq<char>,
    digits: Seq<char>,
    hash: Seq<char>,
)
    requires
        is_reading(url, kind, known, id, token, showcase),
        is_spelled(url@, scheme, user, host, port, path, slashes, tail),
        digits.len() >= 6,
        forall|i: int| 0 <= i < digits.len() ==> '0' <= #[trigger] digits[i] <= '9',
        hash.len() >= 8,
        forall|i: int|
            0 <= i < hash.len() ==> ('0' <= #[trigger] hash[i] <= '9' || 'a' <= hash[i] <= 'f'),
    ensures
        ({
            let name = text::lowered(host);
            if name == "vimeo.com"@ || name == "www.vimeo.com"@ || name == "m.vimeo.com"@ {
                &&& path == "/"@ + digits ==> kind == UrlKind::Video && token is None && (
                id matches Some(s) && s@ == digits)
                &&& path == "/"@ + digits + "/"@ + hash ==> kind == UrlKind::PrivateVideo && (
                id matches Some(s) && s@ == digits) && (token matches Some(t) && t@ == hash)
                &&& path == "/showcase/"@ + digits || path == "/album/"@ + digits ==> kind
                    == UrlKind::Showcase && (showcase matches Some(s) && s@ == digits)
            } else if name == "player.vimeo.com"@ {
                path == "/video/"@ + digits ==> kind == UrlKind::Video && (id matches Some(s) && s@
                    == digits)
            } else {
                kind == UrlKind::Unknown && !known
            }
        }),
{
    reveal_strlit("vimeo.com");
    reveal_strlit("www.vimeo.com");
    reveal_strlit("m.vimeo.com");
    reveal_strlit("player.vimeo.com");
    assert("vimeo.com"@.len() == 9 && "www.vimeo.com"@.len() == 13 && "m.vimeo.com"@.len() == 11
        && "player.vimeo.com"@.len() == 16);
    lemma_spelled_url(url@, scheme, user, host, port, path, slashes, tail);
    lemma_number(digits, 6);
    law_digits_of_ids_and_tokens('0', hash);
    lemma_plain_path_stays(path);
    let name = text::lowered(host);
    if name == "player.vimeo.com"@ {
        if path == "/video/"@ + digits {
            lemma_player_path(digits);
        }
    } else {
        lemma_split_plain_url("vimeo.com"@, path);
        let plain = "https://"@ + "vimeo.com"@ + path;
        assert(split_url(plain) == Some(("vimeo.com"@, path)));
        assert(is_known_host(name) ==> kind_of(url@) == kind_of(plain) && video_id_in(url@)
            == video_id_in(plain) && private_hash_in(url@) == private_hash_in(plain)
            && showcase_id_in(url@) == showcase_id_in(plain));
        if path == "/"@ + digits {
            lemma_permalink_path(digits);
            law_permalink_names_the_video(digits);
        }
        if path == "/"@ + digits + "/"@ + hash {
            law_share_link_names_the_video(digits, hash);
        }
        if path == "/showcase/"@ + digits {
            law_showcase_names_its_id("/showcase/"@, digits);
        }
        if path == "/album/"@ + digits {
            law_showcase_names_its_id("/album/"@, digits);
        }
    }
}

/// The permalink in its parts.
proof fn lemma_permalink_path(id: Seq<char>)
    ensures
        "https://vimeo.com/"@ + id == "https://"@ + "vimeo.com"@ + ("/"@ + id),
{
    reveal_strlit("https://vimeo.com/");
    reveal_strlit("https://");
    reveal_strlit("vimeo.com");
    reveal_strlit("/");
    assert("https://vimeo.com/"@ + id =~= "https://"@ + "vimeo.com"@ + ("/"@ + id));
}

/// What is left of a path is followed by slashes and by a tail.
#[verifier::spinoff_prover]
proof fn lemma_path_is_spelled(whole: Seq<char>) -> (parts: (Seq<char>, Seq<char>))
    ensures
        whole == (plain_path(whole) + parts.0) + parts.1,
        plain_path(whole).len() > 0 ==> plain_path(whole).last() != '/',
        forall|i: int|
            0 <= i < plain_path(whole).len() ==> #[trigger] plain_path(whole)[i] != '#'
                && plain_path(whole)[i] != '?',
        forall|i: int| 0 <= i < parts.0.len() ==> #[trigger] parts.0[i] == '/',
        parts.1.len() > 0 ==> parts.1[0] == '?' || parts.1[0] == '#',
{
    let set = seq!['/'];
    let a = text::until_first(whole, '#');
    let b = text::until_first(a, '?');
    text::lemma_first_index_bounds(whole, '#');
    text::lemma_first_index_bounds(a, '?');
    text::law_only_marks_are_stripped(b, set);
    let path = plain_path(whole);
    let slashes = choose|marks: Seq<char>|
        b == #[trigger] (text::trimmed_end(b, set) + marks) && forall|i: int|
            0 <= i < marks.len() ==> set.contains(#[trigger] marks[i]);
    let n = b.len() as int;
    let tail = whole.skip(n);
    assert forall|i: int| 0 <= i < slashes.len() implies #[trigger] slashes[i] == '/' by {
        assert(set.contains(slashes[i]));
    }
    assert forall|i: int| 0 <= i < path.len() implies #[trigger] path[i] != '#' && path[i]
        != '?' by {
        assert(path[i] == b[i]);
        assert(b[i] == a[i]);
        assert(a[i] == whole[i]);
    }
    if path.len() > 0 && path.last() == '/' {
        assert(set.contains(set[0]));
    }
    assert(b =~= whole.take(n));
    assert(whole =~= b + tail);
    if tail.len() > 0 {
        assert(tail[0] == whole[n]);
        if n < a.len() {
            assert(a[n] == '?');
        }
    }
    (slashes, tail)
}

/// An authority is made of credentials, the host and the port.
#[verifier::spinoff_prover]
proof fn lemma_authority_is_spelled(authority: Seq<char>) -> (parts: (
    Seq<char>,
    Seq<char>,
    Seq<char>,
))
    requires
        forall|i: int| 0 <= i < authority.len() ==> #[trigger] authority[i] != '/',
        host_of(text::behind_last(authority, '@')) matches Some(host) && host[0] != '[',
    ensures
        authority == parts.0 + parts.1 + parts.2,
        host_of(text::behind_last(authority, '@')) == Some(parts.1),
        is_host(parts.1),
        parts.0.len() > 0 ==> parts.0.last() == '@',
        forall|i: int| 0 <= i < parts.0.len() ==> #[trigger] parts.0[i] != '/',
        parts.2.len() > 0 ==> parts.2[0] == ':',
        forall|i: int|
            0 <= i < parts.2.len() ==> #[trigger] parts.2[i] != '/' && parts.2[i] != '@',
{
    text::lemma_last_index_bounds(authority, '@');
    let n = text::last_index(authority, '@') + 1;
    let user = authority.take(n);
    let bare = text::behind_last(authority, '@');
    text::lemma_first_index_bounds(bare, ':');
    let k = text::first_index(bare, ':');
    let host = text::until_first(bare, ':');
    let port = bare.skip(k);
    assert(bare[0] != '[') by {
        if bare[0] == '[' {
            text::lemma_first_index_bounds(bare, ']');
            assert(bare.take(text::first_index(bare, ']') + 1)[0] == bare[0]);
        }
    }
    assert(host_of(bare) == Some(host));
    assert forall|i: int| 0 <= i < bare.len() implies #[trigger] bare[i] != '/' && bare[i]
        != '@' by {
        assert(bare[i] == authority[n + i]);
    }
    assert forall|i: int| 0 <= i < host.len() implies #[trigger] host[i] != '/' && host[i] != '@'
        && host[i] != ':' by {
        assert(host[i] == bare[i]);
    }
    assert forall|i: int| 0 <= i < port.len() implies #[trigger] port[i] != '/' && port[i]
        != '@' by {
        assert(port[i] == bare[k + i]);
    }
    assert(host[0] == bare[0]);
    assert(authority =~= user + host + port);
    (user, host, port)
}

/// Every URL that is known is spelled out with one of Vimeo's hosts and with a
/// path of its kind.
#[verifier::spinoff_prover]
pub proof fn law_known_urls_are_spelled_out(
    url: &str,
    kind: UrlKind,
    known: bool,
    id: Option<String>,
    token: Option<String>,
    showcase: Option<String>,
)
    requires
        is_reading(url, kind, known, id, token, showcase),
        known,
    ensures
        exists|
            scheme: Seq<char>,
            user: Seq<char>,
            host: Seq<char>,
            port: Seq<char>,
            path: Seq<char>,
            slashes: Seq<char>,
            tail: Seq<char>,
        |
            {
                &&& #[trigger] is_spelled(url@, scheme, user, host, port, path, slashes, tail)
                &&& text::lowered(host) == "vimeo.com"@ || text::lowered(host) == "www.vimeo.com"@
                    || text::lowered(host) == "m.vimeo.com"@ || text::lowered(host)
                    == "player.vimeo.com"@
                &&& match kind {
                    UrlKind::Video => id is Some && path == (if text::lowered(host)
                        == "player.vimeo.com"@ {
                        "/video/"@
                    } else {
                        "/"@
                    }) + (id->0)@,
                    UrlKind::PrivateVideo => text::lowered(host) != "player.vimeo.com"@
                        && id is Some && token is Some && path == "/"@ + (id->0)@ + "/"@
                        + (token->0)@,
                    UrlKind::Showcase => text::lowered(host) != "player.vimeo.com"@
                        && showcase is Some && (path == "/showcase/"@ + (showcase->0)@ || path
                        == "/album/"@ + (showcase->0)@),
                    UrlKind::Unknown => false,
                }
            },
{
    reveal_strlit("vimeo.com");
    reveal_strlit("www.vimeo.com");
    reveal_strlit("m.vimeo.com");
    reveal_strlit("player.vimeo.com");
    reveal_strlit("://");
    reveal_strlit("/");
    reveal_strlit("/video/");
    reveal_strlit("/showcase/");
    reveal_strlit("/album/");
    law_kinds_have_their_shapes(url@);
    let sep = "://"@;
    let (name, whole) = split_url(url@)->0;
    let i = text::first_stand(url@, sep)->0;
    let scheme = url@.take(i);
    let rest = url@.skip(i + sep.len());
    text::lemma_first_index_bounds(rest, '/');
    let n = text::first_index(rest, '/');
    let authority = text::until_first(rest, '/');
    assert(url@ =~= scheme + url@.subrange(i, i + sep.len()) + rest);
    assert(rest =~= authority + whole);
    assert forall|j: int| 0 <= j < authority.len() implies #[trigger] authority[j] != '/' by {
        assert(authority[j] == rest[j]);
    }
    let found = host_of(text::behind_last(authority, '@'))->0;
    assert(name == text::lowered(found));
    assert(name[0] == 'v' || name[0] == 'w' || name[0] == 'm' || name[0] == 'p');
    assert(name.len() == found.len());
    assert(name.len() > 0);
    assert(name[0] == text::lower_char(found[0]));
    let (user, host, port) = lemma_authority_is_spelled(authority);
    let (slashes, tail) = lemma_path_is_spelled(whole);
    let path = plain_path(whole);
    assert(path.len() > 0 && path[0] == '/');
    assert(is_spelled(url@, scheme, user, host, port, path, slashes, tail));
}

/// A query of a single parameter that is no token of `h` holds none.
#[verifier::spinoff_prover]
pub proof fn law_other_parameter_is_no_token(id: Seq<char>, pair: Seq<char>)
    requires
        patterns::is_number(id, 6),
        !pair.contains('&'),
        !pair.contains('#'),
        text::without_prefix(pair, "h="@) matches Some(value) ==> !patterns::is_token(value),
    ensures
        private_hash_in("https://player.vimeo.com/video/"@ + (id + seq!['?'] + pair)) is None,
{
    lemma_player_query(id, pair);
    text::lemma_first_index_bounds(pair, '#');
    text::lemma_first_index_bounds(pair, '&');
    assert(text::until_first(pair, '#') =~= pair);
    assert(text::until_first(pair, '&') =~= pair);
}

} // verus!
