//! Which URLs the plugin takes on.

use vstd::prelude::*;

use crate::error::PluginError;
use crate::url_matcher;
use crate::url_matcher::UrlKind;

verus! {

/// The URL names a single video. Showcases are left out: they cannot be
/// enumerated without an access token.
pub open spec fn is_single_video(url: Seq<char>) -> bool {
    url_matcher::kind_of(url) == UrlKind::Video || url_matcher::kind_of(url)
        == UrlKind::PrivateVideo
}

/// The text for a truth value.
pub open spec fn bool_text(b: bool) -> Seq<char> {
    if b {
        "true"@
    } else {
        "false"@
    }
}

/// What a gate on single videos answers.
pub open spec fn is_gated(url: Seq<char>, r: Result<UrlKind, PluginError>) -> bool {
    if is_single_video(url) {
        r == Ok::<UrlKind, PluginError>(url_matcher::kind_of(url))
    } else {
        r matches Err(PluginError::UnsupportedUrl(message)) && message@ == url
    }
}

fn bool_to_string(b: bool) -> (r: String)
    ensures
        r@ == bool_text(b),
{
    if b {
        "true".to_owned()
    } else {
        "false".to_owned()
    }
}

/// Says whether the plugin takes on `url`.
pub fn handle_can_handle(url: &str) -> (r: String)
    ensures
        r@ == bool_text(is_single_video(url@)),
{
    let taken: bool = match url_matcher::classify_url(url) {
        UrlKind::Video | UrlKind::PrivateVideo => true,
        UrlKind::Showcase | UrlKind::Unknown => false,
    };
    bool_to_string(taken)
}

/// Says that no URL is taken on as a playlist: showcases cannot be enumerated.
pub fn handle_supports_playlist(_url: &str) -> (r: String)
    ensures
        r@ == "false"@,
{
    bool_to_string(false)
}

/// Rejects a URL that is not a resource the plugin takes on.
///
/// For now this is the same gate as [`ensure_single_video`], which handlers
/// of single videos use.
pub fn ensure_vimeo_url(url: &str) -> (r: Result<UrlKind, PluginError>)
    ensures
        is_gated(url@, r),
{
    ensure_single_video(url)
}

/// Rejects a URL that does not name a single video, and says of the others
/// what they are.
pub fn ensure_single_video(url: &str) -> (r: Result<UrlKind, PluginError>)
    ensures
        is_gated(url@, r),
{
    let kind: UrlKind = url_matcher::classify_url(url);
    match kind {
        UrlKind::Video | UrlKind::PrivateVideo => Ok(kind),
        UrlKind::Showcase | UrlKind::Unknown => Err(PluginError::UnsupportedUrl(url.to_owned())),
    }
}

/// A URL that the plugin says it takes on passes the gates, and a video can be
/// looked up for it.
pub proof fn law_advertised_url_is_accepted(url: Seq<char>, r: Result<UrlKind, PluginError>)
    requires
        bool_text(is_single_video(url)) == "true"@,
        is_gated(url, r),
    ensures
        r is Ok,
        url_matcher::video_id_in(url) is Some,
{
    reveal_strlit("true");
    reveal_strlit("false");
    assert("true"@.len() != "false"@.len());
    url_matcher::law_single_video_has_id(url);
}

/// A URL that the plugin does not take on is refused with that very URL in the
/// error.
pub proof fn law_other_url_is_refused(url: Seq<char>, r: Result<UrlKind, PluginError>)
    requires
        bool_text(is_single_video(url)) == "false"@,
        is_gated(url, r),
    ensures
        r matches Err(PluginError::UnsupportedUrl(message)) && message@ == url,
{
    reveal_strlit("true");
    reveal_strlit("false");
    assert("true"@.len() != "false"@.len());
}

/// A video can be looked up for exactly the URLs that the plugin takes on.
pub proof fn law_id_means_taken_on(url: Seq<char>)
    ensures
        url_matcher::video_id_in(url) is Some <==> is_single_video(url),
{
    url_matcher::law_only_single_videos_have_ids(url);
}

/// Every video and every private video is taken on, and nothing else. Both gates
/// let it pass under its own kind, and refuse the others by their URL. None is
/// taken on as a playlist.
pub proof fn law_single_videos_are_taken_on(
    url: &str,
    taken: String,
    listed: String,
    gate: Result<UrlKind, PluginError>,
    single: Result<UrlKind, PluginError>,
    kind: UrlKind,
)
    requires
        call_ensures(handle_can_handle, (url,), taken),
        call_ensures(handle_supports_playlist, (url,), listed),
        call_ensures(ensure_vimeo_url, (url,), gate),
        call_ensures(ensure_single_video, (url,), single),
        call_ensures(url_matcher::classify_url, (url,), kind),
    ensures
        listed@ == "false"@,
        match kind {
            UrlKind::Video | UrlKind::PrivateVideo => taken@ == "true"@ && gate == Ok::<
                UrlKind,
                PluginError,
            >(kind) && single == Ok::<UrlKind, PluginError>(kind),
            UrlKind::Showcase | UrlKind::Unknown => taken@ == "false"@ && (gate matches Err(
                PluginError::UnsupportedUrl(message),
            ) && message@ == url@) && (single matches Err(PluginError::UnsupportedUrl(message))
                && message@ == url@),
        },
{
}

} // verus!
