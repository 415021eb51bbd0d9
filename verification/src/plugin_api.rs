//! What the exports of the plugin decide between the calls to the host.
//!
//! The host fetches and downloads. Each export hands it a request, and takes
//! the next decision from the answer.

use vstd::prelude::*;

use crate::error::PluginError;
use crate::links;
use crate::links::ExtractLinksResponse;
use crate::parser;
use crate::parser::{HttpResponse, OembedResponse};
use crate::player_config;
use crate::player_config::{PlayerConfig, ProgressiveEntry};
use crate::routing;
use crate::scanner;
use crate::text;
use crate::url_matcher;
use crate::variants;
use crate::variants::{MediaVariant, MediaVariantsResponse, VariantKind};
use crate::yt_dlp;
use crate::yt_dlp::YtDlpResponse;

verus! {

// ── Host answers ─────────────────────────────────────────────────────────────

/// `r` is the body of the answer that `raw` decodes to, or the error that
/// decoding or the status gives.
pub open spec fn is_answer<E: Fn(&str) -> Result<HttpResponse, String>>(
    decode: E,
    raw: &str,
    r: Result<String, PluginError>,
) -> bool {
    exists|decoded: Result<HttpResponse, String>| #[trigger]
        call_ensures(decode, (raw,), decoded) && match decoded {
            Ok(response) => parser::is_success_body(response, r),
            Err(reason) => r == Err::<String, PluginError>(PluginError::HostResponse(reason)),
        }
}

fn read_answer<E: Fn(&str) -> Result<HttpResponse, String>>(raw: &str, decode: E) -> (r: Result<
    String,
    PluginError,
>)
    requires
        call_requires(decode, (raw,)),
    ensures
        is_answer(decode, raw, r),
{
    match parser::parse_http_response(raw, decode) {
        Ok(response) => response.into_success_body(),
        Err(error) => Err(error),
    }
}

// ── Links ────────────────────────────────────────────────────────────────────

/// The request that asks for the metadata of a video. A URL that names no
/// single video is refused, so nothing is asked of the host for it.
pub fn extract_links_request(url: &str) -> (r: Result<String, PluginError>)
    ensures
        if routing::is_single_video(url@) {
            r matches Ok(request) && request@ == parser::get_request(parser::oembed_url(url@))
        } else {
            r matches Err(PluginError::UnsupportedUrl(message)) && message@ == url@
        },
{
    match routing::ensure_single_video(url) {
        Ok(_) => parser::build_oembed_request(url),
        Err(error) => Err(error),
    }
}

/// Makes the links of a video out of the host's answer.
pub fn extract_links_response<
    E: Fn(&str) -> Result<HttpResponse, String>,
    D: Fn(&str) -> Result<OembedResponse, String>,
>(url: &str, raw: &str, decode_answer: E, decode_oembed: D) -> (r: Result<
    ExtractLinksResponse,
    PluginError,
>)
    requires
        call_requires(decode_answer, (raw,)),
        forall|s: &str| #[trigger] call_requires(decode_oembed, (s,)),
    ensures
        exists|answer: Result<String, PluginError>| #[trigger]
            is_answer(decode_answer, raw, answer) && match answer {
                Ok(body) => exists|s: &str, decoded: Result<OembedResponse, String>| #[trigger]
                    call_ensures(decode_oembed, (s,), decoded) && s@ == body@ && is_links_outcome(
                        url@,
                        decoded,
                        r,
                    ),
                Err(error) => r == Err::<ExtractLinksResponse, PluginError>(error),
            },
{
    match read_answer(raw, decode_answer) {
        Ok(body) => match parser::parse_oembed(body.as_str(), decode_oembed) {
            Ok(oembed) => Ok(links::build_single_video_response(oembed, url)),
            Err(error) => Err(error),
        },
        Err(error) => Err(error),
    }
}

/// `r` is what a decoded oEmbed payload makes of the URL that was asked for.
pub open spec fn is_links_outcome(
    url: Seq<char>,
    decoded: Result<OembedResponse, String>,
    r: Result<ExtractLinksResponse, PluginError>,
) -> bool {
    exists|judged: Result<OembedResponse, PluginError>| #[trigger]
        parser::is_judged_oembed(decoded, judged) && match judged {
            Ok(oembed) => r matches Ok(response) && links::is_single_link(oembed, url, response),
            Err(error) => r == Err::<ExtractLinksResponse, PluginError>(error),
        }
}

/// Refuses to enumerate a showcase.
pub fn extract_playlist(_url: &str) -> (r: Result<String, PluginError>)
    ensures
        r matches Err(PluginError::UnsupportedUrl(message)) && message@
            == "showcase extraction is not implemented yet"@,
{
    Err(PluginError::UnsupportedUrl("showcase extraction is not implemented yet".to_owned()))
}

// ── Player config ────────────────────────────────────────────────────────────

/// Which answer is awaited: that of the config endpoint, or the player page.
#[derive(Debug, Clone, Copy, PartialEq, Eq, Structural)]
pub enum FetchStage {
    Config,
    Embed,
}

/// A fetch of a player config that awaits an answer.
#[derive(Debug)]
pub struct ConfigFetch {
    pub video_id: String,
    pub hash: Option<String>,
    pub stage: FetchStage,
}

/// What to do after an answer.
#[derive(Debug)]
pub enum FetchStep<F> {
    /// Send this request, and hand its answer to this fetch.
    Send { fetch: ConfigFetch, request: String },
    /// The config has been found.
    Found(PlayerConfig<F>),
    /// There is no config to be had.
    Failed(PluginError),
}

/// The share token of a fetch as text.
pub open spec fn hash_text(hash: Option<String>) -> Option<Seq<char>> {
    match hash {
        Some(token) => Some(token@),
        None => None,
    }
}

/// The step that ends a fetch.
pub open spec fn ended<F>(r: Result<PlayerConfig<F>, PluginError>) -> FetchStep<F> {
    match r {
        Ok(config) => FetchStep::Found(config),
        Err(error) => FetchStep::Failed(error),
    }
}

/// `r` is the config embedded in a page.
pub open spec fn is_embedded_config<F, D: Fn(&str) -> Result<PlayerConfig<F>, String>>(
    decode: D,
    html: &str,
    r: Result<PlayerConfig<F>, PluginError>,
) -> bool {
    exists|extracted: Result<&str, PluginError>| #[trigger]
        scanner::is_extracted(html, extracted) && match extracted {
            Ok(block) => player_config::is_parsed_config(decode, block, r),
            Err(error) => r == Err::<PlayerConfig<F>, PluginError>(error),
        }
}

/// `r` is the config in the body of the config endpoint's answer: the body
/// itself, or what is embedded in it if it is a page.
pub open spec fn is_served_config<F, D: Fn(&str) -> Result<PlayerConfig<F>, String>>(
    decode: D,
    body: &str,
    r: Result<PlayerConfig<F>, PluginError>,
) -> bool {
    exists|parsed: Result<PlayerConfig<F>, PluginError>| #[trigger]
        player_config::is_parsed_config(decode, body, parsed) && match parsed {
            Ok(config) => r == Ok::<PlayerConfig<F>, PluginError>(config),
            Err(_) => is_embedded_config(decode, body, r),
        }
}

/// `step` is what follows an answer.
pub open spec fn is_fetch_step<F, D: Fn(&str) -> Result<PlayerConfig<F>, String>>(
    fetch: ConfigFetch,
    answer: Result<String, PluginError>,
    decode: D,
    step: FetchStep<F>,
) -> bool {
    match (fetch.stage, answer) {
        (FetchStage::Config, Ok(body)) => exists|
            page: &str,
            r: Result<PlayerConfig<F>, PluginError>,
        | #[trigger]
            is_served_config(decode, page, r) && page@ == body@ && step == ended(r),
        (FetchStage::Config, Err(PluginError::Private(_))) => {
            &&& step matches FetchStep::Send { fetch: next, request }
            &&& next.video_id == fetch.video_id
            &&& next.hash == fetch.hash
            &&& next.stage == FetchStage::Embed
            &&& request@ == parser::get_request(
                parser::embed_url(fetch.video_id@, hash_text(fetch.hash)),
            )
        },
        (FetchStage::Embed, Ok(body)) => exists|
            page: &str,
            r: Result<PlayerConfig<F>, PluginError>,
        | #[trigger]
            is_embedded_config(decode, page, r) && page@ == body@ && step == ended(r),
        (_, Err(error)) => step == FetchStep::<F>::Failed(error),
    }
}

fn read_embedded_config<F, D: Fn(&str) -> Result<PlayerConfig<F>, String>>(
    html: &str,
    decode: &D,
) -> (r: Result<PlayerConfig<F>, PluginError>)
    requires
        forall|s: &str| #[trigger] call_requires(*decode, (s,)),
    ensures
        is_embedded_config(*decode, html, r),
{
    match scanner::extract_player_config_from_html(html) {
        Ok(block) => player_config::parse_player_config(block, decode),
        Err(error) => Err(error),
    }
}

fn read_served_config<F, D: Fn(&str) -> Result<PlayerConfig<F>, String>>(
    body: &str,
    decode: &D,
) -> (r: Result<PlayerConfig<F>, PluginError>)
    requires
        forall|s: &str| #[trigger] call_requires(*decode, (s,)),
    ensures
        is_served_config(*decode, body, r),
{
    match player_config::parse_player_config(body, decode) {
        Ok(config) => Ok(config),
        Err(_) => read_embedded_config(body, decode),
    }
}

fn end<F>(r: Result<PlayerConfig<F>, PluginError>) -> (step: FetchStep<F>)
    ensures
        step == ended(r),
{
    match r {
        Ok(config) => FetchStep::Found(config),
        Err(error) => FetchStep::Failed(error),
    }
}

impl ConfigFetch {
    /// Starts the fetch for a URL, with the request to the config endpoint. A
    /// URL that names no single video is refused.
    pub fn start(url: &str) -> (r: Result<(ConfigFetch, String), PluginError>)
        ensures
            if routing::is_single_video(url@) {
                &&& r matches Ok((fetch, request))
                &&& url_matcher::video_id_in(url@) == Some(fetch.video_id@)
                &&& text::is_text(fetch.hash, url_matcher::private_hash_in(url@))
                &&& fetch.stage == FetchStage::Config
                &&& request@ == parser::get_request(parser::player_config_url(fetch.video_id@))
            } else {
                r matches Err(PluginError::UnsupportedUrl(message)) && message@ == url@
            },
    {
        if let Err(error) = routing::ensure_single_video(url) {
            return Err(error);
        }
        proof {
            url_matcher::law_single_video_has_id(url@);
        }
        match url_matcher::extract_video_id(url) {
            Some(video_id) => {
                let hash: Option<String> = url_matcher::extract_private_hash(url);
                match parser::build_player_config_request(video_id.as_str()) {
                    Ok(request) => Ok(
                        (ConfigFetch { video_id, hash, stage: FetchStage::Config }, request),
                    ),
                    Err(error) => Err(error),
                }
            },
            None => Err(PluginError::UnsupportedUrl(url.to_owned())),
        }
    }

    /// Takes the answer that the fetch awaits.
    ///
    /// The config endpoint serves JSON, or a page with the config in it. Where
    /// it refuses, as it does for videos restricted to some domains, the
    /// player page is asked for: it carries the same config.
    pub fn receive<
        F,
        E: Fn(&str) -> Result<HttpResponse, String>,
        D: Fn(&str) -> Result<PlayerConfig<F>, String>,
    >(self, raw: &str, decode_answer: E, decode_config: D) -> (step: FetchStep<F>)
        requires
            call_requires(decode_answer, (raw,)),
            forall|s: &str| #[trigger] call_requires(decode_config, (s,)),
        ensures
            exists|answer: Result<String, PluginError>| #[trigger]
                is_answer(decode_answer, raw, answer) && is_fetch_step(
                    self,
                    answer,
                    decode_config,
                    step,
                ),
    {
        let answer: Result<String, PluginError> = read_answer(raw, decode_answer);
        match self.stage {
            FetchStage::Config => match answer {
                Ok(body) => end(read_served_config(body.as_str(), &decode_config)),
                Err(PluginError::Private(_)) => {
                    let hash: Option<&str> = match &self.hash {
                        Some(token) => Some(token.as_str()),
                        None => None,
                    };
                    match parser::build_embed_html_request(self.video_id.as_str(), hash) {
                        Ok(request) => FetchStep::Send {
                            fetch: ConfigFetch {
                                video_id: self.video_id,
                                hash: self.hash,
                                stage: FetchStage::Embed,
                            },
                            request,
                        },
                        Err(error) => FetchStep::Failed(error),
                    }
                },
                Err(error) => FetchStep::Failed(error),
            },
            FetchStage::Embed => match answer {
                Ok(body) => end(read_embedded_config(body.as_str(), &decode_config)),
                Err(error) => FetchStep::Failed(error),
            },
        }
    }
}

// ── Variants ─────────────────────────────────────────────────────────────────

/// The text stands for a boolean setting that is on.
pub open spec fn is_on(value: Seq<char>) -> bool {
    let name = text::lowered(value);
    name == "true"@ || name == "1"@ || name == "yes"@
}

/// Reads a boolean setting. Anything but `true`, `1` and `yes`, in whatever
/// case, is off.
pub fn is_truthy(value: &str) -> (r: bool)
    ensures
        r == is_on(value@),
{
    let name: String = text::to_ascii_lowercase(value);
    text::same_text(name.as_str(), "true") || text::same_text(name.as_str(), "1")
        || text::same_text(name.as_str(), "yes")
}

/// The list with the video for the preferred quality in front. The others keep
/// their order. Without a preference, or if it picks no video, the list stays
/// as it is.
pub open spec fn hoisted<F>(list: Seq<MediaVariant<F>>, preferred: Seq<char>) -> Seq<
    MediaVariant<F>,
> {
    match variants::picked_index(variants::models(list), preferred) {
        Some(i) if list[i].kind == VariantKind::Video => seq![list[i]] + list.remove(i),
        _ => list,
    }
}

/// Hoists the video for the preferred quality to the front of the list, where
/// it is offered as the default.
pub fn apply_quality_preference<F>(response: MediaVariantsResponse<F>, preferred: &str) -> (r:
    MediaVariantsResponse<F>)
    ensures
        r.variants@ == hoisted(response.variants@, preferred@),
{
    let mut list: Vec<MediaVariant<F>> = response.variants;
    if preferred.is_empty() {
        proof {
            lemma_empty_names_no_height();
            assert(preferred@ =~= Seq::<char>::empty());
        }
        return MediaVariantsResponse { variants: list };
    }
    let ghost before = list@;
    match variants::pick_index_for_quality(list.as_slice(), preferred) {
        Some(i) if list[i].kind == VariantKind::Video => {
            let v: MediaVariant<F> = list.remove(i);
            list.insert(0, v);
            assert(list@ =~= seq![before[i as int]] + before.remove(i as int));
        },
        _ => {},
    }
    MediaVariantsResponse { variants: list }
}

/// An empty label names no height.
proof fn lemma_empty_names_no_height()
    ensures
        variants::height_named(Seq::empty()) is None,
{
    let name = text::uppered(text::trimmed_end(Seq::empty(), seq!['p', 'P']));
    reveal_strlit("2K");
    reveal_strlit("4K");
    assert(name.len() == 0);
}

/// Lists the variants of a video, as the settings for audio and for the
/// default quality want them.
pub fn get_media_variants<F>(config: PlayerConfig<F>, audio_only: &str, preferred: &str) -> (r:
    MediaVariantsResponse<F>)
    ensures
        exists|list: Seq<MediaVariant<F>>| #[trigger]
            variants::is_stable_order(variants::offered(config), variants::models(list))
                && r.variants@ == hoisted(
                if is_on(audio_only@) {
                    list.filter(variants::carries_audio::<F>())
                } else {
                    list
                },
                preferred@,
            ),
{
    let listed: MediaVariantsResponse<F> = variants::build_media_variants_response(config);
    if is_truthy(audio_only) {
        apply_quality_preference(variants::filter_audio_only(listed), preferred)
    } else {
        apply_quality_preference(listed, preferred)
    }
}

// ── Stream URL ───────────────────────────────────────────────────────────────

/// The last video variant of a list.
pub open spec fn last_video<F>(list: Seq<MediaVariant<F>>) -> Option<int>
    decreases list.len(),
{
    if list.len() == 0 {
        None
    } else if list.last().kind == VariantKind::Video {
        Some(list.len() - 1)
    } else {
        last_video(list.drop_last())
    }
}

/// Which video variant a quality selects: the one it picks. Where it picks
/// nothing it is the last of the list, and where it picks the adaptive stream
/// there is none.
pub open spec fn selected_video<F>(list: Seq<MediaVariant<F>>, quality: Seq<char>) -> Option<int> {
    match variants::picked_index(variants::models(list), quality) {
        Some(i) => if list[i].kind == VariantKind::Video {
            Some(i)
        } else {
            None
        },
        None => last_video(list),
    }
}

/// The list has an adaptive variant.
pub open spec fn has_adaptive<F>(list: Seq<MediaVariant<F>>) -> bool {
    exists|i: int| 0 <= i < list.len() && (#[trigger] list[i]).kind == VariantKind::Adaptive
}

/// `r` is the URL to download from.
///
/// For audio alone it is that of the first variant that carries audio apart
/// from video. Otherwise it is that of the selected video. The URL of an
/// adaptive stream is never given for a video: a plain download would save the
/// manifest instead.
pub open spec fn is_stream_url<F>(
    list: Seq<MediaVariant<F>>,
    quality: Seq<char>,
    audio_only: bool,
    r: Result<String, PluginError>,
) -> bool {
    if audio_only {
        let kept = list.filter(variants::carries_audio::<F>());
        if kept.len() > 0 {
            r == Ok::<String, PluginError>(kept[0].url)
        } else {
            r matches Err(PluginError::NoVariantsFound)
        }
    } else {
        match selected_video(list, quality) {
            Some(i) => r matches Ok(url) && url@ == list[i].url@,
            None => if has_adaptive(list) {
                r matches Err(PluginError::AdaptiveStreamOnly)
            } else {
                r matches Err(PluginError::NoVariantsFound)
            },
        }
    }
}

proof fn lemma_last_video<F>(list: Seq<MediaVariant<F>>)
    ensures
        match last_video(list) {
            Some(i) => 0 <= i < list.len() && list[i].kind == VariantKind::Video && forall|j: int|
                i < j < list.len() ==> (#[trigger] list[j]).kind != VariantKind::Video,
            None => forall|j: int|
                0 <= j < list.len() ==> (#[trigger] list[j]).kind != VariantKind::Video,
        },
    decreases list.len(),
{
    if list.len() > 0 && list.last().kind != VariantKind::Video {
        let rest = list.drop_last();
        lemma_last_video(rest);
        assert forall|j: int| 0 <= j < rest.len() implies #[trigger] list[j] == rest[j] by {}
    }
}

fn find_last_video<F>(list: &[MediaVariant<F>]) -> (r: Option<usize>)
    ensures
        match last_video(list@) {
            Some(i) => i < list@.len() && r == Some(i as usize) && i == (i as usize),
            None => r is None,
        },
{
    let mut n: usize = list.len();
    assert(list@.take(n as int) =~= list@);
    while n > 0
        invariant
            n <= list@.len(),
            last_video(list@) == last_video(list@.take(n as int)),
        decreases n,
    {
        if list[n - 1].kind == VariantKind::Video {
            return Some(n - 1);
        }
        assert(list@.take(n as int).drop_last() =~= list@.take(n - 1));
        n -= 1;
    }
    None
}

fn find_adaptive<F>(list: &[MediaVariant<F>]) -> (r: bool)
    ensures
        r == has_adaptive(list@),
{
    let mut i: usize = 0;
    while i < list.len()
        invariant
            i <= list@.len(),
            forall|j: int| 0 <= j < i ==> (#[trigger] list@[j]).kind != VariantKind::Adaptive,
        decreases list@.len() - i,
    {
        if list[i].kind == VariantKind::Adaptive {
            return true;
        }
        i += 1;
    }
    false
}

/// Finds the URL to download a video from.
///
/// A quality selects among the progressive files. Where it names a height that
/// none of them fits and an adaptive stream is offered, or where there is an
/// adaptive stream alone, the caller is sent to the broker. Otherwise, where
/// none fits or no height was named, the tallest is taken.
pub fn resolve_stream_url<F>(config: PlayerConfig<F>, quality: &str, audio_only: bool) -> (r:
    Result<String, PluginError>)
    ensures
        exists|list: Seq<MediaVariant<F>>| #[trigger]
            variants::is_stable_order(variants::offered(config), variants::models(list))
                && is_stream_url(list, quality@, audio_only, r),
{
    let listed: MediaVariantsResponse<F> = variants::build_media_variants_response(config);
    let ghost list = listed.variants@;
    if audio_only {
        let mut kept: Vec<MediaVariant<F>> = variants::filter_audio_only(listed).variants;
        if kept.len() == 0 {
            return Err(PluginError::NoVariantsFound);
        }
        let first: MediaVariant<F> = kept.swap_remove(0);
        return Ok(first.url);
    }
    if quality.is_empty() {
        proof {
            lemma_empty_names_no_height();
            assert(quality@ =~= Seq::<char>::empty());
        }
    } else if let Some(v) = variants::pick_variant_for_quality(listed.variants.as_slice(), quality) {
        if v.kind == VariantKind::Video {
            return Ok(v.url.clone());
        }
        proof {
            let models = variants::models(list);
            let i = variants::picked_index(models, quality@)->0;
            variants::law_pick_does_not_exceed(models, quality@);
            assert(models[i] == list[i]@);
            assert(list[i].kind == VariantKind::Adaptive);
        }
        return Err(PluginError::AdaptiveStreamOnly);
    }
    match find_last_video(listed.variants.as_slice()) {
        Some(i) => Ok(listed.variants[i].url.clone()),
        None => if find_adaptive(listed.variants.as_slice()) {
            Err(PluginError::AdaptiveStreamOnly)
        } else {
            Err(PluginError::NoVariantsFound)
        },
    }
}

// ── Download ─────────────────────────────────────────────────────────────────

/// The request that has the broker download a video. A URL that names no
/// single video is refused.
pub fn download_request(
    url: &str,
    quality: &str,
    format: &str,
    output_dir: &str,
    audio_only: bool,
) -> (r: Result<String, PluginError>)
    ensures
        if routing::is_single_video(url@) {
            r matches Ok(request) && request@ == crate::json::object_text(
                yt_dlp::download_fields(url@, quality@, format@, output_dir@, audio_only),
            )
        } else {
            r matches Err(PluginError::UnsupportedUrl(message)) && message@ == url@
        },
{
    match routing::ensure_single_video(url) {
        Ok(_) => yt_dlp::build_download_request(url, quality, format, output_dir, audio_only),
        Err(error) => Err(error),
    }
}

/// The path of the downloaded file, out of the broker's answer.
pub fn download_path<D: Fn(&str) -> Result<YtDlpResponse, serde_json::Error>>(
    raw: &str,
    decode: D,
) -> (r: Result<String, PluginError>)
    requires
        call_requires(decode, (raw,)),
    ensures
        exists|decoded: Result<YtDlpResponse, serde_json::Error>| #[trigger]
            call_ensures(decode, (raw,), decoded) && is_download_outcome(decoded, r),
{
    match yt_dlp::parse_ytdlp_response(raw, decode) {
        Ok(stdout) => yt_dlp::parse_download_path_from_stdout(stdout.as_str()),
        Err(error) => Err(error),
    }
}

/// `r` is what a decoded answer of the broker comes to.
pub open spec fn is_download_outcome(
    decoded: Result<YtDlpResponse, serde_json::Error>,
    r: Result<String, PluginError>,
) -> bool {
    match decoded {
        Ok(response) if response.exit_code == 0 => match yt_dlp::last_line(response.stdout@) {
            Some(line) => r matches Ok(path) && path@ == line,
            None => r matches Err(PluginError::EmptyDownloadPath),
        },
        _ => yt_dlp::is_judged_run(decoded, r),
    }
}

// ── Laws ─────────────────────────────────────────────────────────────────────

/// A fetch sends at most two requests: from the player page no other request
/// follows.
pub proof fn law_fetch_ends_at_the_page<F, D: Fn(&str) -> Result<PlayerConfig<F>, String>>(
    fetch: ConfigFetch,
    answer: Result<String, PluginError>,
    decode: D,
    step: FetchStep<F>,
)
    requires
        fetch.stage == FetchStage::Embed,
        is_fetch_step(fetch, answer, decode, step),
    ensures
        !(step is Send),
{
}

/// The player page is asked for exactly where the config endpoint refuses, and
/// with the token of the URL that the fetch began with.
pub proof fn law_page_is_asked_for_on_refusal<F, D: Fn(&str) -> Result<PlayerConfig<F>, String>>(
    fetch: ConfigFetch,
    answer: Result<String, PluginError>,
    decode: D,
    step: FetchStep<F>,
)
    requires
        fetch.stage == FetchStage::Config,
        is_fetch_step(fetch, answer, decode, step),
    ensures
        step is Send <==> (answer is Err && answer->Err_0 is Private),
        step matches FetchStep::Send { fetch: next, request } ==> {
            &&& next.stage == FetchStage::Embed
            &&& request@ == parser::get_request(
                parser::embed_url(fetch.video_id@, hash_text(fetch.hash)),
            )
        },
{
}

/// The player page that is asked for in place of the config is that of the
/// same video, with the same share token if there is one.
pub proof fn law_page_is_that_of_the_video(url: Seq<char>)
    requires
        routing::is_single_video(url),
    ensures
        ({
            let id = url_matcher::video_id_in(url)->0;
            let page = parser::embed_url(id, url_matcher::private_hash_in(url));
            &&& routing::is_single_video(page)
            &&& url_matcher::video_id_in(page) == url_matcher::video_id_in(url)
            &&& url_matcher::private_hash_in(page) == url_matcher::private_hash_in(url)
        }),
{
    url_matcher::law_single_video_has_id(url);
    url_matcher::law_private_hash_is_token(url);
    let id = url_matcher::video_id_in(url)->0;
    match url_matcher::private_hash_in(url) {
        Some(token) => url_matcher::law_player_page_names_the_video(id, token),
        None => url_matcher::law_bare_player_page_names_the_video(id),
    }
}

/// A config endpoint that refuses is one that answers with status 401 or 403.
pub proof fn law_refusal_is_a_status(response: HttpResponse, answer: Result<String, PluginError>)
    requires
        parser::is_success_body(response, answer),
    ensures
        (answer is Err && answer->Err_0 is Private) <==> (response.status == 401
            || response.status == 403),
        answer is Ok <==> 200 <= response.status < 300,
{
}

/// Hoisting neither loses nor adds a variant.
pub proof fn law_hoisting_is_a_permutation<F>(list: Seq<MediaVariant<F>>, preferred: Seq<char>)
    ensures
        hoisted(list, preferred).to_multiset() == list.to_multiset(),
{
    let picked = variants::picked_index(variants::models(list), preferred);
    variants::law_pick_does_not_exceed(variants::models(list), preferred);
    if picked is Some && list[picked->0].kind == VariantKind::Video {
        let at = picked->0;
        let front = list.take(at);
        let back = list.skip(at + 1);
        let v = seq![list[at]];
        assert(list =~= front + v + back);
        assert(list.remove(at) =~= front + back);
        assert(hoisted(list, preferred) =~= v + (front + back));
        vstd::seq_lib::lemma_multiset_commutative(front + v, back);
        vstd::seq_lib::lemma_multiset_commutative(front, v);
        vstd::seq_lib::lemma_multiset_commutative(front, back);
        vstd::seq_lib::lemma_multiset_commutative(v, front + back);
        assert(hoisted(list, preferred).to_multiset() =~= list.to_multiset());
    }
}

/// The video that the preference picks leads the list, and the others follow
/// in the order that they had.
pub proof fn law_preferred_variant_leads<F>(
    list: Seq<MediaVariant<F>>,
    preferred: Seq<char>,
    i: int,
)
    requires
        variants::picked_index(variants::models(list), preferred) == Some(i),
        list[i].kind == VariantKind::Video,
    ensures
        hoisted(list, preferred)[0] == list[i],
        hoisted(list, preferred).drop_first() == list.remove(i),
{
    variants::law_pick_does_not_exceed(variants::models(list), preferred);
    assert(hoisted(list, preferred).drop_first() =~= list.remove(i));
}

/// Without a preference, or with one that no video fits, the list stays as it
/// is.
pub proof fn law_unmet_preference_changes_nothing<F>(
    list: Seq<MediaVariant<F>>,
    preferred: Seq<char>,
)
    requires
        preferred.len() == 0 || (variants::height_named(preferred) matches Some(target)
            ==> forall|i: int|
            0 <= i < list.len() ==> !variants::fits(#[trigger] variants::models(list)[i], target)),
    ensures
        hoisted(list, preferred) == list,
{
    let models = variants::models(list);
    variants::law_pick_does_not_exceed(models, preferred);
    if preferred.len() == 0 {
        lemma_empty_names_no_height();
        assert(preferred =~= Seq::<char>::empty());
    }
    if let Some(i) = variants::picked_index(models, preferred) {
        assert(models[i] == list[i]@);
    }
}

/// A progressive file of known height that does not exceed `target`.
pub open spec fn file_fits<F>(entry: ProgressiveEntry<F>, target: u32) -> bool {
    entry.height matches Some(height) && height <= target
}

/// The quality names a height, and every progressive file exceeds it or has
/// none.
pub open spec fn is_unmet<F>(entries: Seq<ProgressiveEntry<F>>, quality: Seq<char>) -> bool {
    variants::height_named(quality) matches Some(target) && forall|j: int|
        0 <= j < entries.len() ==> !file_fits(#[trigger] entries[j], target)
}

/// What a player config comes to. For audio alone it is the manifest. For a
/// video it is the URL of a progressive file, which does not exceed a named
/// height if any file fits it. Where none does and a manifest is offered, or
/// there is a manifest alone, the caller is sent to the broker, and is never
/// given the manifest.
pub proof fn law_stream_outcome<F>(
    config: PlayerConfig<F>,
    list: Seq<MediaVariant<F>>,
    quality: Seq<char>,
    audio_only: bool,
    r: Result<String, PluginError>,
)
    requires
        variants::is_stable_order(variants::offered(config), variants::models(list)),
        is_stream_url(list, quality, audio_only, r),
    ensures
        ({
            let entries = config.request.files.progressive@;
            let manifest = variants::offered_manifest(config);
            if audio_only {
                match manifest {
                    Some(url) => r matches Ok(s) && s@ == url,
                    None => r matches Err(PluginError::NoVariantsFound),
                }
            } else if manifest is Some && (entries.len() == 0 || is_unmet(entries, quality)) {
                r matches Err(PluginError::AdaptiveStreamOnly)
            } else if entries.len() == 0 {
                r matches Err(PluginError::NoVariantsFound)
            } else {
                r matches Ok(s) && exists|j: int|
                    0 <= j < entries.len() && (#[trigger] entries[j]).url@ == s@ && (
                    variants::height_named(quality) matches Some(target) ==> file_fits(
                        entries[j],
                        target,
                    ) || is_unmet(entries, quality))
            }
        }),
{
    let all = variants::offered(config);
    let models = variants::models(list);
    let entries = config.request.files.progressive@;
    variants::lemma_same_members(all, models);
    variants::lemma_offered_kinds(config);
    assert forall|i: int| 0 <= i < list.len() implies all.contains(#[trigger] list[i]@) by {
        assert(models[i] == list[i]@);
        assert(models.contains(models[i]));
    }
    assert forall|j: int| 0 <= j < all.len() implies exists|i: int|
        0 <= i < list.len() && #[trigger] list[i]@ == #[trigger] all[j] by {
        assert(all.contains(all[j]));
        assert(models.contains(all[j]));
        let i = choose|i: int| 0 <= i < models.len() && models[i] == all[j];
        assert(list[i]@ == models[i]);
    }
    assert forall|j: int| 0 <= j < entries.len() implies #[trigger] all[j]
        == variants::progressive_variant(entries[j]) by {}
    assert forall|i: int| 0 <= i < list.len() && (#[trigger] list[i]).kind
        == VariantKind::Video implies exists|j: int|
        0 <= j < entries.len() && list[i]@ == variants::progressive_variant(
            #[trigger] entries[j],
        ) by {
        assert(all.contains(list[i]@));
        let j = choose|j: int| 0 <= j < all.len() && all[j] == list[i]@;
        assert(all[j].kind == VariantKind::Video);
        assert(j < entries.len());
        assert(list[i]@ == variants::progressive_variant(entries[j]));
    }
    if audio_only {
        variants::law_audio_only_leaves_the_manifest(config, list);
        let kept = list.filter(variants::carries_audio::<F>());
        let part = variants::adaptive_part(config);
        assert(variants::models(kept) == part);
        if kept.len() > 0 {
            assert(variants::models(kept)[0] == kept[0]@);
        }
        assert(variants::models(kept).len() == kept.len());
    } else {
        lemma_last_video(list);
        variants::law_pick_does_not_exceed(models, quality);
        if let Some(i) = variants::picked_index(models, quality) {
            assert(models[i] == list[i]@);
        }
        if let Some(target) = variants::height_named(quality) {
            variants::law_best_fit_exists(models, target);
            if !is_unmet(entries, quality) {
                let j = choose|j: int|
                    0 <= j < entries.len() && file_fits(#[trigger] entries[j], target);
                assert(all[j] == variants::progressive_variant(entries[j]));
                let i = choose|i: int| 0 <= i < list.len() && #[trigger] list[i]@ == all[j];
                assert(models[i] == list[i]@);
                assert(variants::fits(models[i], target));
            } else {
                assert forall|i: int| 0 <= i < list.len() implies !variants::fits(
                    #[trigger] models[i],
                    target,
                ) by {
                    assert(models[i] == list[i]@);
                    if list[i].kind == VariantKind::Video {
                        let j = choose|j: int|
                            0 <= j < entries.len() && list[i]@ == variants::progressive_variant(
                                #[trigger] entries[j],
                            );
                        assert(!file_fits(entries[j], target));
                    }
                }
            }
        }
        if variants::offered_manifest(config) is Some {
            let last = all.len() - 1;
            assert(all[last].kind == VariantKind::Adaptive);
            let i = choose|i: int| 0 <= i < list.len() && #[trigger] list[i]@ == all[last];
            assert(list[i].kind == VariantKind::Adaptive);
            assert(models[i] == list[i]@);
        } else {
            assert forall|i: int| 0 <= i < list.len() implies (#[trigger] list[i]).kind
                == VariantKind::Video by {
                assert(all.contains(list[i]@));
            }
        }
        if entries.len() > 0 {
            assert(all[0] == variants::progressive_variant(entries[0]));
            let i = choose|i: int| 0 <= i < list.len() && #[trigger] list[i]@ == all[0];
            assert(list[i].kind == VariantKind::Video);
        }
        if let Some(chosen) = selected_video(list, quality) {
            assert(list[chosen].kind == VariantKind::Video);
            assert(models[chosen] == list[chosen]@);
            let j = choose|j: int|
                0 <= j < entries.len() && list[chosen]@ == variants::progressive_variant(
                    #[trigger] entries[j],
                );
            assert(entries[j].url@ == list[chosen].url@);
        }
    }
}

/// The video that a quality selects is the best fit if any video fits. If none
/// does, or no height is named, it is the tallest, and with a height named it
/// exceeds that only where no adaptive stream is offered.
pub proof fn law_selected_video_is_the_best<F>(
    config: PlayerConfig<F>,
    list: Seq<MediaVariant<F>>,
    quality: Seq<char>,
    i: int,
)
    requires
        variants::is_stable_order(variants::offered(config), variants::models(list)),
        selected_video(list, quality) == Some(i),
    ensures
        0 <= i < list.len(),
        list[i].kind == VariantKind::Video,
        match variants::height_named(quality) {
            Some(target) if exists|j: int|
                0 <= j < list.len() && variants::fits(
                    #[trigger] variants::models(list)[j],
                    target,
                ) => variants::is_best_fit(variants::models(list), target, i),
            _ => forall|j: int|
                0 <= j < list.len() && (#[trigger] list[j]).kind == VariantKind::Video
                    && list[j].height is Some && list[i].height is Some ==> list[j].height->0
                    <= list[i].height->0,
        },
        variants::height_named(quality) matches Some(target) ==> variants::fits(list[i]@, target)
            || !has_adaptive(list),
{
    let models = variants::models(list);
    lemma_last_video(list);
    variants::law_pick_does_not_exceed(models, quality);
    variants::law_adaptive_comes_last(config, models);
    assert forall|j: int| 0 <= j < list.len() implies #[trigger] models[j] == list[j]@ by {}
    if let Some(target) = variants::height_named(quality) {
        variants::law_best_fit_exists(models, target);
        assert forall|j: int| 0 <= j < list.len() implies #[trigger] list[j].kind
            == models[j].kind by {
            assert(models[j] == list[j]@);
        }
    }
    if last_video(list) == Some(i) {
        assert forall|j: int|
            0 <= j < list.len() && (#[trigger] list[j]).kind == VariantKind::Video
                && list[j].height is Some && list[i].height is Some implies list[j].height->0
            <= list[i].height->0 by {
            assert(models[j] == list[j]@);
            assert(models[i] == list[i]@);
        }
    }
}

/// A setting is on if it says `true`, `1` or `yes`, in whatever case, and off
/// otherwise.
pub proof fn law_settings_that_are_on(value: &str, r: bool)
    requires
        call_ensures(is_truthy, (value,), r),
    ensures
        r <==> is_on(value@),
        r <==> {
            let s = value@;
            ||| s.len() == 1 && s[0] == '1'
            ||| s.len() == 3 && (s[0] == 'y' || s[0] == 'Y') && (s[1] == 'e' || s[1] == 'E') && (s[2]
                == 's' || s[2] == 'S')
            ||| s.len() == 4 && (s[0] == 't' || s[0] == 'T') && (s[1] == 'r' || s[1] == 'R') && (s[2]
                == 'u' || s[2] == 'U') && (s[3] == 'e' || s[3] == 'E')
        },
{
    reveal_strlit("true");
    reveal_strlit("1");
    reveal_strlit("yes");
    let s = value@;
    let name = text::lowered(s);
    assert("1"@.len() == 1 && "yes"@.len() == 3 && "true"@.len() == 4);
    assert(name.len() == s.len());
    assert(is_on(s) <==> (name == "1"@ || name == "yes"@ || name == "true"@));
    if s.len() == 1 {
        assert(name[0] == text::lower_char(s[0]));
        lemma_lower_case_of(s[0], '1');
        assert(name =~= "1"@ <==> name[0] == '1');
    }
    if s.len() == 3 {
        assert(name[0] == text::lower_char(s[0]) && name[1] == text::lower_char(s[1]) && name[2]
            == text::lower_char(s[2]));
        lemma_lower_case_of(s[0], 'y');
        lemma_lower_case_of(s[1], 'e');
        lemma_lower_case_of(s[2], 's');
        assert(name =~= "yes"@ <==> name[0] == 'y' && name[1] == 'e' && name[2] == 's');
    }
    if s.len() == 4 {
        assert(name[0] == text::lower_char(s[0]) && name[1] == text::lower_char(s[1]) && name[2]
            == text::lower_char(s[2]) && name[3] == text::lower_char(s[3]));
        lemma_lower_case_of(s[0], 't');
        lemma_lower_case_of(s[1], 'r');
        lemma_lower_case_of(s[2], 'u');
        lemma_lower_case_of(s[3], 'e');
        assert(name =~= "true"@ <==> name[0] == 't' && name[1] == 'r' && name[2] == 'u' && name[3]
            == 'e');
    }
}

/// A character that stays as it is or becomes `small` in lower case.
proof fn lemma_lower_case_of(c: char, small: char)
    requires
        'a' <= small <= 'z' || small == '1',
    ensures
        text::lower_char(c) == small <==> c == small || ('a' <= small && c as int + 32
            == small as int),
{
}

/// File `j` of the config is the tallest that does not exceed `target`, and the
/// first of those of its height.
pub open spec fn is_best_file<F>(entries: Seq<ProgressiveEntry<F>>, target: u32, j: int) -> bool {
    &&& 0 <= j < entries.len()
    &&& entries[j].height is Some
    &&& entries[j].height->0 <= target
    &&& forall|k: int|
        0 <= k < entries.len() && (#[trigger] entries[k]).height is Some && entries[k].height->0
            <= target ==> entries[k].height->0 <= entries[j].height->0 && (k < j
            ==> entries[k].height->0 < entries[j].height->0)
}

/// File `j` of the config is the tallest, files of unknown height taken for the
/// lowest, and the last of those of its height.
pub open spec fn is_tallest_file<F>(entries: Seq<ProgressiveEntry<F>>, j: int) -> bool {
    &&& 0 <= j < entries.len()
    &&& forall|k: int|
        0 <= k < entries.len() ==> {
            let mine = match entries[j].height {
                Some(height) => height as int,
                None => 0,
            };
            let other = match (#[trigger] entries[k]).height {
                Some(height) => height as int,
                None => 0,
            };
            other <= mine && (k > j ==> other < mine)
        }
}

/// Every file of the config is listed.
proof fn lemma_file_is_listed<F>(
    config: PlayerConfig<F>,
    list: Seq<MediaVariant<F>>,
    j: int,
) -> (i: int)
    requires
        variants::is_stable_order(variants::offered(config), variants::models(list)),
        0 <= j < config.request.files.progressive@.len(),
    ensures
        0 <= i < list.len(),
        list[i]@ == variants::progressive_variant(config.request.files.progressive@[j]),
        variants::offered(config)[j] == list[i]@,
        list[i].kind == VariantKind::Video,
{
    let all = variants::offered(config);
    let models = variants::models(list);
    variants::lemma_same_members(all, models);
    assert(all[j] == variants::progressive_variant(config.request.files.progressive@[j]));
    assert(all.contains(all[j]));
    assert(models.contains(all[j]));
    let i = choose|i: int| 0 <= i < models.len() && models[i] == all[j];
    assert(list[i]@ == models[i]);
    i
}

/// What is listed as a video is a file of the config.
proof fn lemma_video_is_a_file<F>(
    config: PlayerConfig<F>,
    list: Seq<MediaVariant<F>>,
    i: int,
) -> (j: int)
    requires
        variants::is_stable_order(variants::offered(config), variants::models(list)),
        0 <= i < list.len(),
        list[i].kind == VariantKind::Video,
    ensures
        0 <= j < config.request.files.progressive@.len(),
        list[i]@ == variants::progressive_variant(config.request.files.progressive@[j]),
{
    let all = variants::offered(config);
    let models = variants::models(list);
    variants::lemma_same_members(all, models);
    assert(models[i] == list[i]@);
    assert(models.contains(models[i]));
    assert(all.contains(models[i]));
    let j = choose|j: int| 0 <= j < all.len() && all[j] == models[i];
    assert(j < config.request.files.progressive@.len());
    j
}

/// Without a manifest nothing but videos is listed.
proof fn lemma_no_manifest_is_listed<F>(
    config: PlayerConfig<F>,
    list: Seq<MediaVariant<F>>,
    i: int,
)
    requires
        variants::is_stable_order(variants::offered(config), variants::models(list)),
        variants::offered_manifest(config) is None,
        0 <= i < list.len(),
    ensures
        list[i].kind == VariantKind::Video,
{
    let all = variants::offered(config);
    let models = variants::models(list);
    variants::lemma_same_members(all, models);
    assert(models[i] == list[i]@);
    assert(models.contains(models[i]));
    assert(all.contains(models[i]));
    let j = choose|j: int| 0 <= j < all.len() && all[j] == models[i];
    assert(all[j] == variants::progressive_variant(config.request.files.progressive@[j]));
}

/// The best file of the config is the variant that is picked.
#[verifier::spinoff_prover]
proof fn lemma_best_file_is_picked<F>(
    config: PlayerConfig<F>,
    list: Seq<MediaVariant<F>>,
    quality: Seq<char>,
    target: u32,
    j: int,
)
    requires
        variants::is_stable_order(variants::offered(config), variants::models(list)),
        variants::height_named(quality) == Some(target),
        is_best_file(config.request.files.progressive@, target, j),
    ensures
        variants::picked_index(variants::models(list), quality) matches Some(i) && 0 <= i
            < list.len() && list[i].kind == VariantKind::Video && list[i]@
            == variants::progressive_variant(config.request.files.progressive@[j]),
{
    let all = variants::offered(config);
    let models = variants::models(list);
    let entries = config.request.files.progressive@;
    let at = lemma_file_is_listed(config, list, j);
    variants::law_pick_is_the_closest(models, quality);
    assert(models[at] == list[at]@);
    let i = variants::picked_index(models, quality)->0;
    assert(models[i] == list[i]@);
    let k = lemma_video_is_a_file(config, list, i);
    let height = entries[j].height;
    assert(entries[k].height == models[i].height);
    assert(models[i].height == height);
    let p = variants::is_video_of::<F>(height);
    variants::law_videos_are_listed_by_height(config, models, height);
    assert forall|l: int| 0 <= l < i implies !p(#[trigger] models[l]) by {}
    variants::lemma_filter_keeps_the_first(models, p, i);
    assert forall|l: int| 0 <= l < j implies !p(#[trigger] all[l]) by {
        assert(all[l] == variants::progressive_variant(entries[l]));
    }
    assert(all[j] == variants::progressive_variant(entries[j]));
    variants::lemma_filter_keeps_the_first(all, p, j);
}

/// The tallest file of the config is the last video of the list.
#[verifier::spinoff_prover]
proof fn lemma_tallest_file_is_last<F>(
    config: PlayerConfig<F>,
    list: Seq<MediaVariant<F>>,
    j: int,
)
    requires
        variants::is_stable_order(variants::offered(config), variants::models(list)),
        is_tallest_file(config.request.files.progressive@, j),
    ensures
        last_video(list) matches Some(i) && 0 <= i < list.len() && list[i]@
            == variants::progressive_variant(config.request.files.progressive@[j]),
{
    let all = variants::offered(config);
    let models = variants::models(list);
    let entries = config.request.files.progressive@;
    let at = lemma_file_is_listed(config, list, j);
    lemma_last_video(list);
    let i = last_video(list)->0;
    assert(models[i] == list[i]@ && models[at] == list[at]@);
    let k = lemma_video_is_a_file(config, list, i);
    let key = variants::sort_key(all[j]);
    let p = variants::has_key::<F>(key);
    assert(at <= i);
    if at < i {
        assert(variants::key_le(variants::sort_key(models[at]), variants::sort_key(models[i])));
    }
    assert(entries[k].height == models[i].height);
    assert(variants::sort_key(models[i]) == key);
    assert(models.filter(p) == all.filter(p));
    assert forall|l: int| i < l < models.len() implies !p(#[trigger] models[l]) by {
        assert(models[l] == list[l]@);
    }
    variants::lemma_filter_keeps_the_last(models, p, i);
    assert forall|l: int| j < l < all.len() implies !p(#[trigger] all[l]) by {
        if l < entries.len() {
            assert(all[l] == variants::progressive_variant(entries[l]));
            assert(entries[l].height == all[l].height);
        }
    }
    variants::lemma_filter_keeps_the_last(all, p, j);
}

/// With a height named, the stream is the file of the config that is the
/// tallest not to exceed it, the first of those of one height.
pub proof fn law_stream_is_the_best_file<F>(
    config: PlayerConfig<F>,
    quality: &str,
    target: u32,
    j: int,
    r: Result<String, PluginError>,
)
    requires
        call_ensures(resolve_stream_url::<F>, (config, quality, false), r),
        variants::height_named(quality@) == Some(target),
        is_best_file(config.request.files.progressive@, target, j),
    ensures
        r matches Ok(url) && url@ == config.request.files.progressive@[j].url@,
{
    let list = choose|list: Seq<MediaVariant<F>>| #[trigger]
        variants::is_stable_order(variants::offered(config), variants::models(list))
            && is_stream_url(list, quality@, false, r);
    lemma_best_file_is_picked(config, list, quality@, target, j);
}

/// With no height named the stream is the tallest file of the config, the last
/// of those of one height. It is too where every file exceeds the height that
/// was named and no manifest is offered.
pub proof fn law_stream_is_the_tallest_file<F>(
    config: PlayerConfig<F>,
    quality: &str,
    j: int,
    r: Result<String, PluginError>,
)
    requires
        call_ensures(resolve_stream_url::<F>, (config, quality, false), r),
        is_tallest_file(config.request.files.progressive@, j),
        variants::height_named(quality@) matches Some(target) ==> variants::offered_manifest(
            config,
        ) is None && forall|k: int|
            0 <= k < config.request.files.progressive@.len() ==> (
            #[trigger] config.request.files.progressive@[k]).height is None
                || config.request.files.progressive@[k].height->0 > target,
    ensures
        r matches Ok(url) && url@ == config.request.files.progressive@[j].url@,
{
    let list = choose|list: Seq<MediaVariant<F>>| #[trigger]
        variants::is_stable_order(variants::offered(config), variants::models(list))
            && is_stream_url(list, quality@, false, r);
    let models = variants::models(list);
    lemma_tallest_file_is_last(config, list, j);
    variants::law_pick_does_not_exceed(models, quality@);
    if let Some(i) = variants::picked_index(models, quality@) {
        assert(models[i] == list[i]@);
        lemma_no_manifest_is_listed(config, list, i);
        let k = lemma_video_is_a_file(config, list, i);
        assert(config.request.files.progressive@[k].height == models[i].height);
    }
}

/// For a video there is no stream without a file: the caller is sent to the
/// broker if there is a manifest, also where every file exceeds the height that
/// was named. For audio alone the stream is the manifest.
pub proof fn law_stream_without_a_file<F>(
    config: PlayerConfig<F>,
    quality: &str,
    audio_only: bool,
    r: Result<String, PluginError>,
)
    requires
        call_ensures(resolve_stream_url::<F>, (config, quality, audio_only), r),
    ensures
        ({
            let entries = config.request.files.progressive@;
            match variants::offered_manifest(config) {
                Some(url) => {
                    &&& audio_only ==> (r matches Ok(s) && s@ == url)
                    &&& !audio_only && entries.len() == 0 ==> (r matches Err(
                        PluginError::AdaptiveStreamOnly,
                    ))
                    &&& !audio_only && (variants::height_named(quality@) matches Some(target)
                        && forall|k: int|
                        0 <= k < entries.len() ==> (#[trigger] entries[k]).height is None
                            || entries[k].height->0 > target) ==> (r matches Err(
                        PluginError::AdaptiveStreamOnly,
                    ))
                },
                None => audio_only || entries.len() == 0 ==> (r matches Err(
                    PluginError::NoVariantsFound,
                )),
            }
        }),
{
    let entries = config.request.files.progressive@;
    let list = choose|list: Seq<MediaVariant<F>>| #[trigger]
        variants::is_stable_order(variants::offered(config), variants::models(list))
            && is_stream_url(list, quality@, audio_only, r);
    law_stream_outcome(config, list, quality@, audio_only, r);
    if let Some(target) = variants::height_named(quality@) {
        if forall|k: int|
            0 <= k < entries.len() ==> (#[trigger] entries[k]).height is None
                || entries[k].height->0 > target {
            assert(is_unmet(entries, quality@));
        }
    }
}

/// The preferred video leads: the tallest that does not exceed the height that
/// was named, the first of those of one height. The others keep their order.
/// Without such a video, or without a height, the list stays as it is.
pub proof fn law_preferred_height_leads<F>(
    response: MediaVariantsResponse<F>,
    preferred: &str,
    r: MediaVariantsResponse<F>,
    i: int,
)
    requires
        call_ensures(apply_quality_preference::<F>, (response, preferred), r),
    ensures
        ({
            let list = response.variants@;
            match variants::height_named(preferred@) {
                Some(target) => {
                    &&& (0 <= i < list.len() && list[i].kind == VariantKind::Video
                        && list[i].height is Some && list[i].height->0 <= target && forall|k: int|
                        0 <= k < list.len() && (#[trigger] list[k]).kind == VariantKind::Video
                            && list[k].height is Some && list[k].height->0 <= target
                            ==> list[k].height->0 <= list[i].height->0 && (k < i
                            ==> list[k].height->0 < list[i].height->0)) ==> r.variants@ == seq![
                        list[i],
                    ] + list.take(i) + list.skip(i + 1)
                    &&& (forall|k: int|
                        0 <= k < list.len() && (#[trigger] list[k]).kind == VariantKind::Video
                            && list[k].height is Some ==> list[k].height->0 > target)
                        ==> r.variants@ == list
                },
                None => r.variants@ == list,
            }
        }),
{
    let list = response.variants@;
    let models = variants::models(list);
    variants::law_pick_is_the_closest(models, preferred@);
    assert forall|k: int| 0 <= k < list.len() implies #[trigger] models[k] == list[k]@ by {}
    assert forall|k: int| 0 <= k < list.len() implies (#[trigger] list[k]).kind == models[k].kind
        && list[k].height == models[k].height by {
        assert(models[k] == list[k]@);
    }
    if let Some(target) = variants::height_named(preferred@) {
        if 0 <= i < list.len() && list[i].kind == VariantKind::Video && list[i].height is Some
            && list[i].height->0 <= target && forall|k: int|
            0 <= k < list.len() && (#[trigger] list[k]).kind == VariantKind::Video
                && list[k].height is Some && list[k].height->0 <= target ==> list[k].height->0
                <= list[i].height->0 && (k < i ==> list[k].height->0 < list[i].height->0) {
            assert(models[i] == list[i]@);
            let n = variants::picked_index(models, preferred@)->0;
            assert(models[n] == list[n]@);
            assert(n == i);
            assert(seq![list[i]] + list.remove(i) =~= seq![list[i]] + list.take(i) + list.skip(
                i + 1,
            ));
        }
        if let Some(n) = variants::picked_index(models, preferred@) {
            assert(models[n] == list[n]@);
        }
    }
}

/// With the audio setting on, the manifest is all that is listed. With it off
/// the list is that of the config, and if a height is preferred the best file
/// for it leads.
pub proof fn law_settings_shape_the_list<F>(
    config: PlayerConfig<F>,
    audio_only: &str,
    preferred: &str,
    r: MediaVariantsResponse<F>,
    j: int,
)
    requires
        call_ensures(get_media_variants::<F>, (config, audio_only, preferred), r),
    ensures
        is_on(audio_only@) ==> match variants::offered_manifest(config) {
            Some(url) => r.variants@.len() == 1 && r.variants@[0].kind == VariantKind::Adaptive
                && r.variants@[0].url@ == url,
            None => r.variants@.len() == 0,
        },
        !is_on(audio_only@) ==> variants::models(r.variants@).to_multiset() == variants::offered(
            config,
        ).to_multiset(),
        !is_on(audio_only@) && variants::height_named(preferred@) is None
            ==> variants::is_stable_order(variants::offered(config), variants::models(r.variants@)),
        !is_on(audio_only@) && (variants::height_named(preferred@) matches Some(target)
            && is_best_file(config.request.files.progressive@, target, j)) ==> {
            let entry = config.request.files.progressive@[j];
            &&& r.variants@.len() > 0
            &&& r.variants@[0].kind == VariantKind::Video
            &&& r.variants@[0].url@ == entry.url@
            &&& r.variants@[0].height == entry.height
            &&& r.variants@[0].format_id@ == entry.quality@
        },
{
    let list = choose|list: Seq<MediaVariant<F>>| #[trigger]
        variants::is_stable_order(variants::offered(config), variants::models(list))
            && r.variants@ == hoisted(
            if is_on(audio_only@) {
                list.filter(variants::carries_audio::<F>())
            } else {
                list
            },
            preferred@,
        );
    let p = variants::carries_audio::<F>();
    if is_on(audio_only@) {
        let kept = list.filter(p);
        variants::law_audio_only_leaves_the_manifest(config, list);
        let models = variants::models(kept);
        assert(models == variants::adaptive_part(config));
        assert(models.len() == kept.len());
        variants::law_pick_does_not_exceed(models, preferred@);
        if kept.len() > 0 {
            assert(models[0] == kept[0]@);
        }
        if let Some(n) = variants::picked_index(models, preferred@) {
            assert(models[n] == kept[n]@);
        }
        assert(hoisted(kept, preferred@) == kept);
    } else {
        law_hoisting_is_a_permutation(list, preferred@);
        lemma_models_as_multisets(r.variants@, list);
        variants::law_stable_order_is_a_permutation(
            variants::offered(config),
            variants::models(list),
        );
        if let Some(target) = variants::height_named(preferred@) {
            if is_best_file(config.request.files.progressive@, target, j) {
                lemma_best_file_is_picked(config, list, preferred@, target, j);
            }
        }
    }
}

/// Lists with the same variants have the same models.
proof fn lemma_models_as_multisets<F>(a: Seq<MediaVariant<F>>, b: Seq<MediaVariant<F>>)
    requires
        a.to_multiset() == b.to_multiset(),
    ensures
        variants::models(a).to_multiset() == variants::models(b).to_multiset(),
    decreases a.len(),
{
    a.to_multiset_ensures();
    b.to_multiset_ensures();
    assert(a.len() == b.len());
    if a.len() == 0 {
        assert(variants::models(a) =~= variants::models(b));
    } else {
        let v = a.last();
        assert(a.contains(v));
        assert(b.to_multiset().count(v) > 0);
        assert(b.contains(v));
        let i = choose|i: int| 0 <= i < b.len() && b[i] == v;
        let front = a.drop_last();
        let rest = b.remove(i);
        front.to_multiset_ensures();
        assert(a =~= front.push(v));
        assert(a.to_multiset() =~= front.to_multiset().insert(v));
        assert(b.to_multiset().remove(v) =~= rest.to_multiset());
        assert(front.to_multiset() =~= rest.to_multiset());
        lemma_models_as_multisets(front, rest);
        let ms = variants::models(b);
        ms.to_multiset_ensures();
        variants::models(front).to_multiset_ensures();
        assert(variants::models(a) =~= variants::models(front).push(v@));
        assert(ms[i] == v@);
        assert(ms.remove(i) =~= variants::models(rest));
        assert(ms.contains(ms[i]));
        assert(ms.to_multiset() =~= ms.to_multiset().remove(v@).insert(v@));
    }
}

/// A fetch begins with the config endpoint of the video that the URL names, and
/// keeps its id and its share token. Any other URL is refused by its name.
pub proof fn law_fetch_begins_with_the_video(
    url: &str,
    r: Result<(ConfigFetch, String), PluginError>,
)
    requires
        call_ensures(ConfigFetch::start, (url,), r),
    ensures
        match url_matcher::video_id_in(url@) {
            Some(id) => {
                &&& r matches Ok((fetch, request))
                &&& fetch.video_id@ == id
                &&& fetch.hash is Some <==> url_matcher::private_hash_in(url@) is Some
                &&& fetch.hash matches Some(token) ==> url_matcher::private_hash_in(url@) == Some(
                    token@,
                )
                &&& fetch.stage == FetchStage::Config
                &&& request@ == parser::get_request(
                    "https://player.vimeo.com/video/"@ + id + "/config"@,
                )
            },
            None => r matches Err(PluginError::UnsupportedUrl(message)) && message@ == url@,
        },
{
    url_matcher::law_only_single_videos_have_ids(url@);
}

/// What decoding makes of a text: of the text as it is, or else of the text with
/// its single-quoted strings rewritten.
pub open spec fn decoded_config<F>(
    strict: spec_fn(Seq<char>) -> Result<PlayerConfig<F>, String>,
    s: Seq<char>,
) -> Result<PlayerConfig<F>, String> {
    match strict(s) {
        Ok(config) => Ok(config),
        Err(_) => strict(crate::literal::rewritten(crate::literal::Mode::Plain, s)),
    }
}

/// A fetch follows the answer. On success the config is the body of the config
/// endpoint, or the block embedded in the page, whichever decodes. A refusal of
/// the config endpoint leads to the player page of the same video, and every
/// other status ends the fetch with that status.
pub proof fn law_fetch_follows_the_answer<
    F,
    E: Fn(&str) -> Result<HttpResponse, String>,
    D: Fn(&str) -> Result<PlayerConfig<F>, String>,
>(
    fetch: ConfigFetch,
    raw: &str,
    decode_answer: E,
    decode_config: D,
    step: FetchStep<F>,
    response: HttpResponse,
    strict: spec_fn(Seq<char>) -> Result<PlayerConfig<F>, String>,
    embedded: Option<Seq<char>>,
)
    requires
        call_ensures(
            ConfigFetch::receive::<F, E, D>,
            (fetch, raw, decode_answer, decode_config),
            step,
        ),
        forall|d: Result<HttpResponse, String>| #[trigger]
            call_ensures(decode_answer, (raw,), d) ==> d == Ok::<HttpResponse, String>(response),
        forall|s: &str, d: Result<PlayerConfig<F>, String>| #[trigger]
            call_ensures(decode_config, (s,), d) ==> d == strict(s@),
        forall|page: &str, e: Result<&str, PluginError>| #[trigger]
            scanner::is_extracted(page, e) && page@ == response.body@ ==> match embedded {
                Some(block) => e matches Ok(b) && b@ == block,
                None => e matches Err(PluginError::PlayerConfigNotFound),
            },
    ensures
        if 200 <= response.status <= 299 {
            if fetch.stage == FetchStage::Config && decoded_config(strict, response.body@) is Ok {
                step == FetchStep::Found(decoded_config(strict, response.body@)->Ok_0)
            } else {
                match embedded {
                    Some(block) => match decoded_config(strict, block) {
                        Ok(config) => step == FetchStep::Found(config),
                        Err(reason) => step == FetchStep::<F>::Failed(
                            PluginError::ParseJson(reason),
                        ),
                    },
                    None => step matches FetchStep::Failed(PluginError::PlayerConfigNotFound),
                }
            }
        } else if response.status == 401 || response.status == 403 {
            match fetch.stage {
                FetchStage::Config => {
                    &&& step matches FetchStep::Send { fetch: next, request }
                    &&& next.video_id == fetch.video_id
                    &&& next.hash == fetch.hash
                    &&& next.stage == FetchStage::Embed
                    &&& request@ == parser::get_request(
                        match fetch.hash {
                            Some(token) => "https://player.vimeo.com/video/"@ + fetch.video_id@
                                + "?h="@ + token@,
                            None => "https://player.vimeo.com/video/"@ + fetch.video_id@,
                        },
                    )
                },
                FetchStage::Embed => step matches FetchStep::Failed(PluginError::Private(message))
                    && message@ == "status "@ + text::decimal(response.status as nat),
            }
        } else {
            step matches FetchStep::Failed(PluginError::HttpStatus { status, message }) && status
                == response.status
        },
{
    let answer = choose|answer: Result<String, PluginError>| #[trigger]
        is_answer(decode_answer, raw, answer) && is_fetch_step(fetch, answer, decode_config, step);
    assert(parser::is_success_body(response, answer));
    if let Ok(body) = answer {
        if fetch.stage == FetchStage::Config {
            let (page, r) = choose|page: &str, r: Result<PlayerConfig<F>, PluginError>| #[trigger]
                is_served_config(decode_config, page, r) && page@ == body@ && step == ended(r);
            let parsed = choose|parsed: Result<PlayerConfig<F>, PluginError>| #[trigger]
                player_config::is_parsed_config(decode_config, page, parsed) && match parsed {
                    Ok(config) => r == Ok::<PlayerConfig<F>, PluginError>(config),
                    Err(_) => is_embedded_config(decode_config, page, r),
                };
            player_config::law_decoding_decides(decode_config, page, parsed, strict);
            if parsed is Err {
                lemma_embedded_config_is_decoded(decode_config, page, r, strict, embedded);
            }
        } else {
            let (page, r) = choose|page: &str, r: Result<PlayerConfig<F>, PluginError>| #[trigger]
                is_embedded_config(decode_config, page, r) && page@ == body@ && step == ended(r);
            lemma_embedded_config_is_decoded(decode_config, page, r, strict, embedded);
        }
    }
}

proof fn lemma_embedded_config_is_decoded<F, D: Fn(&str) -> Result<PlayerConfig<F>, String>>(
    decode: D,
    page: &str,
    r: Result<PlayerConfig<F>, PluginError>,
    strict: spec_fn(Seq<char>) -> Result<PlayerConfig<F>, String>,
    embedded: Option<Seq<char>>,
)
    requires
        is_embedded_config(decode, page, r),
        forall|s: &str, d: Result<PlayerConfig<F>, String>| #[trigger]
            call_ensures(decode, (s,), d) ==> d == strict(s@),
        forall|e: Result<&str, PluginError>| #[trigger]
            scanner::is_extracted(page, e) ==> match embedded {
                Some(block) => e matches Ok(b) && b@ == block,
                None => e matches Err(PluginError::PlayerConfigNotFound),
            },
    ensures
        match embedded {
            Some(block) => match decoded_config(strict, block) {
                Ok(config) => r == Ok::<PlayerConfig<F>, PluginError>(config),
                Err(reason) => r == Err::<PlayerConfig<F>, PluginError>(
                    PluginError::ParseJson(reason),
                ),
            },
            None => r matches Err(PluginError::PlayerConfigNotFound),
        },
{
    let extracted = choose|extracted: Result<&str, PluginError>| #[trigger]
        scanner::is_extracted(page, extracted) && match extracted {
            Ok(block) => player_config::is_parsed_config(decode, block, r),
            Err(error) => r == Err::<PlayerConfig<F>, PluginError>(error),
        };
    if let Ok(block) = extracted {
        player_config::law_decoding_decides(decode, block, r, strict);
    }
}

/// An answer that does not decode ends a fetch with the reason.
pub proof fn law_fetch_ends_with_a_bad_answer<
    F,
    E: Fn(&str) -> Result<HttpResponse, String>,
    D: Fn(&str) -> Result<PlayerConfig<F>, String>,
>(
    fetch: ConfigFetch,
    raw: &str,
    decode_answer: E,
    decode_config: D,
    step: FetchStep<F>,
    reason: String,
)
    requires
        call_ensures(
            ConfigFetch::receive::<F, E, D>,
            (fetch, raw, decode_answer, decode_config),
            step,
        ),
        forall|d: Result<HttpResponse, String>| #[trigger]
            call_ensures(decode_answer, (raw,), d) ==> d == Err::<HttpResponse, String>(reason),
    ensures
        step == FetchStep::<F>::Failed(PluginError::HostResponse(reason)),
{
}

/// The metadata of a video is asked for under the URL that names it, and under
/// no other.
pub proof fn law_links_are_asked_for(url: &str, r: Result<String, PluginError>)
    requires
        call_ensures(extract_links_request, (url,), r),
    ensures
        match url_matcher::kind_of(url@) {
            url_matcher::UrlKind::Video | url_matcher::UrlKind::PrivateVideo => r matches Ok(request)
                && request@ == parser::get_request(
                "https://vimeo.com/api/oembed.json?url="@ + parser::percent_encoded(
                    vstd::utf8::encode_utf8(url@),
                ),
            ),
            _ => r matches Err(PluginError::UnsupportedUrl(message)) && message@ == url@,
        },
{
}

/// The links follow the answer: a video becomes one link with its metadata and
/// the URL that was asked for. What is no video is refused, what does not decode
/// is reported, and a status that is no success is an error.
pub proof fn law_links_follow_the_answer<
    E: Fn(&str) -> Result<HttpResponse, String>,
    D: Fn(&str) -> Result<OembedResponse, String>,
>(
    url: &str,
    raw: &str,
    decode_answer: E,
    decode_oembed: D,
    r: Result<ExtractLinksResponse, PluginError>,
    response: HttpResponse,
    decoded: Result<OembedResponse, String>,
)
    requires
        call_ensures(
            extract_links_response::<E, D>,
            (url, raw, decode_answer, decode_oembed),
            r,
        ),
        forall|d: Result<HttpResponse, String>| #[trigger]
            call_ensures(decode_answer, (raw,), d) ==> d == Ok::<HttpResponse, String>(response),
        forall|s: &str, d: Result<OembedResponse, String>| #[trigger]
            call_ensures(decode_oembed, (s,), d) && s@ == response.body@ ==> d == decoded,
    ensures
        if 200 <= response.status <= 299 {
            match decoded {
                Ok(payload) => if payload.kind@ == "video"@ {
                    &&& r matches Ok(links)
                    &&& links.kind@ == "video"@
                    &&& links.videos@.len() == 1
                    &&& url@.len() > 0 ==> links.videos@[0].url@ == url@
                    &&& links.videos@[0].title@ == payload.title@
                    &&& links.videos@[0].description == payload.description
                    &&& links.videos@[0].uploader == payload.author_name
                    &&& links.videos@[0].duration == payload.duration
                    &&& links.videos@[0].thumbnail == payload.thumbnail_url
                    &&& links.videos@[0].id@ == match payload.video_id {
                        Some(id) => text::decimal(id as nat),
                        None => seq![],
                    }
                } else {
                    r matches Err(PluginError::UnsupportedUrl(message)) && message@
                        == "oEmbed kind '"@ + payload.kind@ + "' is not a video"@
                },
                Err(reason) => r == Err::<ExtractLinksResponse, PluginError>(
                    PluginError::ParseJson(reason),
                ),
            }
        } else if response.status == 401 || response.status == 403 {
            r matches Err(PluginError::Private(message)) && message@ == "status "@ + text::decimal(
                response.status as nat,
            )
        } else {
            r matches Err(PluginError::HttpStatus { status, message }) && status == response.status
        },
{
}

/// No showcase is enumerated, whatever the URL.
pub proof fn law_showcases_are_refused(url: &str, r: Result<String, PluginError>)
    requires
        call_ensures(extract_playlist, (url,), r),
    ensures
        r matches Err(PluginError::UnsupportedUrl(message)) && message@
            == "showcase extraction is not implemented yet"@,
{
}

/// A download is asked for with what the caller wants: the URL and the directory
/// as they are, the height of the quality, and for audio alone the format. A URL
/// that names no single video is refused.
pub proof fn law_download_is_asked_for(
    url: &str,
    quality: &str,
    format: &str,
    output_dir: &str,
    audio_only: bool,
    r: Result<String, PluginError>,
)
    requires
        call_ensures(download_request, (url, quality, format, output_dir, audio_only), r),
    ensures
        match url_matcher::kind_of(url@) {
            url_matcher::UrlKind::Video | url_matcher::UrlKind::PrivateVideo => r matches Ok(request)
                && request@ == crate::json::object_text(
                seq![
                    ("action"@, crate::json::JsonModel::Text("download"@)),
                    ("url"@, crate::json::JsonModel::Text(url@)),
                    (
                        "quality"@,
                        match yt_dlp::quality_named(quality@) {
                            Some(height) => crate::json::JsonModel::Number(height),
                            None => crate::json::JsonModel::Null,
                        },
                    ),
                    (
                        "format"@,
                        match yt_dlp::audio_format_named(format@) {
                            Some(name) if audio_only => crate::json::JsonModel::Text(name),
                            _ => crate::json::JsonModel::Null,
                        },
                    ),
                    ("output_dir"@, crate::json::JsonModel::Text(output_dir@)),
                    ("audio_only"@, crate::json::JsonModel::Flag(audio_only)),
                ],
            ),
            _ => r matches Err(PluginError::UnsupportedUrl(message)) && message@ == url@,
        },
{
    let fields = yt_dlp::download_fields(url@, quality@, format@, output_dir@, audio_only);
    assert(fields =~= seq![
        ("action"@, crate::json::JsonModel::Text("download"@)),
        ("url"@, crate::json::JsonModel::Text(url@)),
        (
            "quality"@,
            match yt_dlp::quality_named(quality@) {
                Some(height) => crate::json::JsonModel::Number(height),
                None => crate::json::JsonModel::Null,
            },
        ),
        (
            "format"@,
            match yt_dlp::audio_format_named(format@) {
                Some(name) if audio_only => crate::json::JsonModel::Text(name),
                _ => crate::json::JsonModel::Null,
            },
        ),
        ("output_dir"@, crate::json::JsonModel::Text(output_dir@)),
        ("audio_only"@, crate::json::JsonModel::Flag(audio_only)),
    ]);
}

/// The path of a download that succeeded is the last line of its output,
/// character for character, without the white space around it. Output of white
/// space alone names none.
pub proof fn law_download_names_its_path<D: Fn(&str) -> Result<YtDlpResponse, serde_json::Error>>(
    raw: &str,
    decode: D,
    r: Result<String, PluginError>,
    response: YtDlpResponse,
    front: Seq<char>,
    pad: Seq<char>,
    line: Seq<char>,
    back: Seq<char>,
)
    requires
        call_ensures(download_path::<D>, (raw, decode), r),
        forall|d: Result<YtDlpResponse, serde_json::Error>| #[trigger]
            call_ensures(decode, (raw,), d) ==> d == Ok::<YtDlpResponse, serde_json::Error>(
                response,
            ),
        response.exit_code == 0,
        text::is_blank(pad),
        text::is_blank(back),
        text::is_tight(line),
        !pad.contains('\n'),
        !line.contains('\n'),
        !back.contains('\n'),
    ensures
        response.stdout@ == pad + line + back ==> (r matches Ok(path) && path@ == line),
        response.stdout@ == front + seq!['\n'] + (pad + line + back) ==> (r matches Ok(path)
            && path@ == line),
        text::is_blank(response.stdout@) ==> (r matches Err(PluginError::EmptyDownloadPath)),
{
    yt_dlp::law_path_is_the_last_line(front, pad, line, back);
    yt_dlp::law_only_blank_output_has_no_path(response.stdout@);
}

/// A download that failed comes to its exit code and its error output, and an
/// answer that does not decode to the decoder's error.
pub proof fn law_failed_download_is_reported<
    D: Fn(&str) -> Result<YtDlpResponse, serde_json::Error>,
>(
    raw: &str,
    decode: D,
    r: Result<String, PluginError>,
    decoded: Result<YtDlpResponse, serde_json::Error>,
)
    requires
        call_ensures(download_path::<D>, (raw, decode), r),
        forall|d: Result<YtDlpResponse, serde_json::Error>| #[trigger]
            call_ensures(decode, (raw,), d) ==> d == decoded,
    ensures
        match decoded {
            Ok(response) => response.exit_code != 0 ==> (r matches Err(
                PluginError::Subprocess { exit_code, stderr },
            ) && exit_code == response.exit_code && stderr@ == yt_dlp::stderr_excerpt(
                response.stderr@,
            )),
            Err(error) => r == Err::<String, PluginError>(PluginError::SerdeJson(error)),
        },
{
}

} // verus!
