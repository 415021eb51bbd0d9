//! The links that a URL resolves to.

use vstd::prelude::*;
use vstd::string::StringExecFns;

use crate::parser::OembedResponse;
use crate::text;
use crate::url_matcher;
use crate::url_matcher::UrlKind;

verus! {

/// The media found behind a URL.
#[derive(Debug, PartialEq, Eq)]
pub struct ExtractLinksResponse {
    pub kind: &'static str,
    pub videos: Vec<MediaLink>,
}

/// A video and its metadata.
#[derive(Debug, PartialEq, Eq)]
pub struct MediaLink {
    pub id: String,
    pub title: String,
    pub url: String,
    pub description: Option<String>,
    pub uploader: Option<String>,
    pub duration: Option<u64>,
    pub thumbnail: Option<String>,
}

/// The id of a video as text, empty if it is unknown.
pub open spec fn id_text(video_id: Option<u64>) -> Seq<char> {
    match video_id {
        Some(id) => text::decimal(id as nat),
        None => seq![],
    }
}

/// The URL of a link: the source URL if there is one, else the permalink of
/// the video if its id is known.
pub open spec fn link_url(source_url: Seq<char>, video_id: Option<u64>) -> Seq<char> {
    if source_url.len() > 0 {
        source_url
    } else {
        match video_id {
            Some(id) => "https://vimeo.com/"@ + text::decimal(id as nat),
            None => seq![],
        }
    }
}

/// `response` holds the one link that an oEmbed payload and a source URL
/// describe.
pub open spec fn is_single_link(
    oembed: OembedResponse,
    source_url: Seq<char>,
    response: ExtractLinksResponse,
) -> bool {
    &&& response.kind@ == "video"@
    &&& response.videos@.len() == 1
    &&& {
        let link = response.videos@[0];
        &&& link.id@ == id_text(oembed.video_id)
        &&& link.title == oembed.title
        &&& link.url@ == link_url(source_url, oembed.video_id)
        &&& link.description == oembed.description
        &&& link.uploader == oembed.author_name
        &&& link.duration == oembed.duration
        &&& link.thumbnail == oembed.thumbnail_url
    }
}

/// Builds the link for an oEmbed payload and the URL that it was asked for.
///
/// A share link carries a token in its path, which a permalink made from the
/// id alone would lose. So the source URL is kept as it is, and the permalink
/// only stands in where there is none.
pub fn build_single_video_response(oembed: OembedResponse, source_url: &str) -> (r:
    ExtractLinksResponse)
    ensures
        is_single_link(oembed, source_url@, r),
{
    let id: String = match oembed.video_id {
        Some(id) => text::decimal_of(id),
        None => String::new(),
    };
    let url: String = if !source_url.is_empty() {
        source_url.to_owned()
    } else if oembed.video_id.is_some() {
        let mut permalink: String = "https://vimeo.com/".to_owned();
        permalink.append(id.as_str());
        permalink
    } else {
        String::new()
    };
    let link: MediaLink = MediaLink {
        id,
        title: oembed.title,
        url,
        description: oembed.description,
        uploader: oembed.author_name,
        duration: oembed.duration,
        thumbnail: oembed.thumbnail_url,
    };
    let mut videos: Vec<MediaLink> = Vec::new();
    videos.push(link);
    ExtractLinksResponse { kind: "video", videos }
}

/// The link of a share URL still carries its token.
pub proof fn law_link_keeps_the_share_token(source_url: Seq<char>, video_id: Option<u64>)
    requires
        url_matcher::private_hash_in(source_url) is Some,
    ensures
        url_matcher::private_hash_in(link_url(source_url, video_id))
            == url_matcher::private_hash_in(source_url),
{
    if source_url.len() == 0 {
        assert(url_matcher::split_url(source_url) is None);
    }
}

/// The permalink that stands in for a missing source URL leads to the video,
/// given an id of at least six digits.
pub proof fn law_permalink_leads_to_the_video(id: u64)
    requires
        text::decimal(id as nat).len() >= 6,
    ensures
        url_matcher::kind_of(link_url(seq![], Some(id))) == UrlKind::Video,
        url_matcher::video_id_in(link_url(seq![], Some(id))) == Some(id_text(Some(id))),
{
    text::lemma_decimal(id as nat);
    url_matcher::law_permalink_names_the_video(text::decimal(id as nat));
}

/// A link carries the metadata of its payload, each in its place, and the URL
/// that was asked for, as it was asked. Two sources give links that differ in
/// their URL alone.
pub proof fn law_link_carries_the_metadata(
    oembed: OembedResponse,
    source: &str,
    other: &str,
    a: ExtractLinksResponse,
    b: ExtractLinksResponse,
)
    requires
        call_ensures(build_single_video_response, (oembed, source), a),
        call_ensures(build_single_video_response, (oembed, other), b),
    ensures
        a.kind@ == "video"@,
        a.videos@.len() == 1,
        a.videos@[0].title@ == oembed.title@,
        a.videos@[0].description == oembed.description,
        a.videos@[0].uploader == oembed.author_name,
        a.videos@[0].duration == oembed.duration,
        a.videos@[0].thumbnail == oembed.thumbnail_url,
        source@.len() > 0 ==> a.videos@[0].url@ == source@,
        source@.len() == 0 ==> a.videos@[0].url@ == match oembed.video_id {
            Some(_) => "https://vimeo.com/"@ + a.videos@[0].id@,
            None => seq![],
        },
        a.videos@[0].id@ == b.videos@[0].id@,
        oembed.video_id matches Some(id) ==> text::all_digits(a.videos@[0].id@) && text::value_of(
            a.videos@[0].id@,
        ) == id && (id > 0 ==> a.videos@[0].id@[0] != '0'),
        oembed.video_id is None ==> a.videos@[0].id@.len() == 0,
{
    if let Some(id) = oembed.video_id {
        text::lemma_decimal(id as nat);
        text::lemma_decimal_has_no_leading_zero(id as nat);
    }
}

} // verus!
