use std::collections::HashMap;

use serde_json::Value;
use vortex_mod_vimeo::error::PluginError;
use vortex_mod_vimeo::parser::{
    CdnEntry, CdnTable, FilesConfig, HlsEntry, HttpResponse, OembedResponse, PlayerConfig,
    ProgressiveEntry, RequestConfig, VideoMeta,
};
use vortex_mod_vimeo::plugin_api::{
    apply_quality_preference, download_path, download_request, extract_links_request,
    extract_links_response, extract_playlist, get_media_variants, is_truthy, resolve_stream_url,
    ConfigFetch, FetchStage, FetchStep,
};
use vortex_mod_vimeo::yt_dlp::YtDlpResponse;
use vortex_mod_vimeo::{MediaVariantsResponse, VariantKind};

const VIMEO_URL: &str = "https://vimeo.com/123456789";

const OEMBED_BODY: &str = r#"{
    "type":"video",
    "title":"Sintel trailer",
    "description":"Blender demo",
    "author_name":"Blender Foundation",
    "thumbnail_url":"https://i.vimeocdn.com/video/1.jpg",
    "duration":52,
    "video_id":123456789
}"#;

const PLAYER_CONFIG_BODY: &str = r#"{
    "request":{"files":{
        "progressive":[
            {"profile":164,"quality":"360p","width":640,"height":360,"fps":24.0,"mime":"video/mp4","url":"https://vod.vimeo.com/360.mp4"},
            {"profile":165,"quality":"720p","width":1280,"height":720,"fps":24.0,"mime":"video/mp4","url":"https://vod.vimeo.com/720.mp4"}
        ],
        "hls":{
            "cdns":{"akfire":{"url":"https://akamai.vimeo.com/master.m3u8"}},
            "default_cdn":"akfire"
        }
    }},
    "video":{"id":123456789,"title":"Sintel trailer","duration":52}
}"#;

const HLS_ONLY_BODY: &str = r#"{
    "request":{"files":{"hls":{"cdns":{"akfire":{"url":"https://akamai.vimeo.com/master.m3u8"}}}}}
}"#;

fn text(value: &Value) -> Option<String> {
    value.as_str().map(String::from)
}

fn small(value: &Value) -> Option<u32> {
    value.as_u64().map(|n| n as u32)
}

fn required(value: &Value, key: &str) -> Result<String, String> {
    text(&value[key]).ok_or(format!("missing field `{key}`"))
}

fn decode_oembed(raw: &str) -> Result<OembedResponse, String> {
    let value: Value = serde_json::from_str(raw).map_err(|e| e.to_string())?;
    Ok(OembedResponse {
        kind: required(&value, "type")?,
        title: required(&value, "title")?,
        description: text(&value["description"]),
        author_name: text(&value["author_name"]),
        author_url: text(&value["author_url"]),
        thumbnail_url: text(&value["thumbnail_url"]),
        duration: value["duration"].as_u64(),
        video_id: value["video_id"].as_u64(),
    })
}

fn decode_answer(raw: &str) -> Result<HttpResponse, String> {
    let value: Value = serde_json::from_str(raw).map_err(|e| e.to_string())?;
    let status = value["status"].as_u64().ok_or("missing field `status`")?;
    Ok(HttpResponse {
        status: status as u16,
        headers: HashMap::new(),
        body: text(&value["body"]).unwrap_or_default(),
    })
}

fn decode_stream(value: &Value) -> Option<HlsEntry> {
    let mut cdns = CdnTable::new();
    for (name, entry) in value.get("cdns")?.as_object()? {
        cdns.insert(
            name.clone(),
            CdnEntry {
                url: text(&entry["url"])?,
                avc_url: text(&entry["avc_url"]),
            },
        );
    }
    Some(HlsEntry {
        cdns,
        default_cdn: text(&value["default_cdn"]),
    })
}

fn decode_config(raw: &str) -> Result<PlayerConfig<f64>, String> {
    let value: Value = serde_json::from_str(raw).map_err(|e| e.to_string())?;
    let files = value["request"].get("files").ok_or("missing field `files`")?;
    let mut progressive = Vec::new();
    for entry in files["progressive"].as_array().into_iter().flatten() {
        progressive.push(ProgressiveEntry {
            profile: entry.get("profile").cloned(),
            quality: required(entry, "quality")?,
            width: small(&entry["width"]),
            height: small(&entry["height"]),
            fps: entry["fps"].as_f64(),
            mime: text(&entry["mime"]),
            url: required(entry, "url")?,
        });
    }
    let video = value.get("video").map(|video| VideoMeta {
        id: video["id"].as_u64(),
        title: text(&video["title"]),
        duration: video["duration"].as_u64(),
        thumbs: None,
    });
    Ok(PlayerConfig {
        request: RequestConfig {
            files: FilesConfig {
                progressive,
                hls: decode_stream(&files["hls"]),
                dash: decode_stream(&files["dash"]),
            },
        },
        video,
    })
}

fn decode_run(raw: &str) -> Result<YtDlpResponse, serde_json::Error> {
    let value: Value = serde_json::from_str(raw)?;
    Ok(YtDlpResponse {
        exit_code: value["exit_code"].as_i64().unwrap() as i32,
        stdout: value["stdout"].as_str().unwrap().into(),
        stderr: value["stderr"].as_str().unwrap().into(),
    })
}

fn envelope(status: u16, body: &str) -> String {
    format!("{{\"status\":{status},\"body\":{}}}", Value::from(body))
}

fn receive(fetch: ConfigFetch, raw: &str) -> FetchStep<f64> {
    fetch.receive(raw, decode_answer, decode_config)
}

fn url_of(request: &str) -> String {
    let value: Value = serde_json::from_str(request).unwrap();
    assert_eq!(value["method"], "GET");
    text(&value["url"]).unwrap()
}

fn urls(response: &MediaVariantsResponse<f64>) -> Vec<&str> {
    response.variants.iter().map(|v| v.url.as_str()).collect()
}

#[test]
fn links_are_asked_for_and_built() {
    let request = extract_links_request(VIMEO_URL).unwrap();
    assert_eq!(
        url_of(&request),
        "https://vimeo.com/api/oembed.json?url=https%3A%2F%2Fvimeo.com%2F123456789"
    );
    let raw = envelope(200, OEMBED_BODY);
    let links = extract_links_response(VIMEO_URL, &raw, decode_answer, decode_oembed).unwrap();
    assert_eq!(links.kind, "video");
    assert_eq!(links.videos[0].id, "123456789");
    assert_eq!(links.videos[0].url, VIMEO_URL);
}

#[test]
fn links_of_other_urls_are_not_asked_for() {
    for url in ["https://vimeo.com/showcase/98765", "https://example.com/"] {
        let err = extract_links_request(url).unwrap_err();
        assert!(matches!(err, PluginError::UnsupportedUrl(u) if u == url));
    }
}

#[test]
fn links_fail_with_the_answer() {
    let fail = |raw: &str| {
        extract_links_response(VIMEO_URL, raw, decode_answer, decode_oembed).unwrap_err()
    };
    assert!(matches!(fail("nonsense"), PluginError::HostResponse(_)));
    assert!(matches!(fail(&envelope(401, "")), PluginError::Private(_)));
    assert!(matches!(fail(&envelope(500, "")), PluginError::HttpStatus { status: 500, .. }));
    assert!(matches!(fail(&envelope(200, "[")), PluginError::ParseJson(_)));
    let photo = r#"{"type":"photo","title":"x"}"#;
    assert!(matches!(fail(&envelope(200, photo)), PluginError::UnsupportedUrl(_)));
}

#[test]
fn playlist_is_reported_as_unsupported() {
    let err = extract_playlist("https://vimeo.com/showcase/123").unwrap_err();
    assert!(err.message().contains("showcase extraction is not implemented yet"));
}

#[test]
fn config_is_fetched_from_the_endpoint() {
    let (fetch, request) = ConfigFetch::start(VIMEO_URL).unwrap();
    assert_eq!(url_of(&request), "https://player.vimeo.com/video/123456789/config");
    assert_eq!(fetch.stage, FetchStage::Config);
    assert_eq!(fetch.hash, None);
    match receive(fetch, &envelope(200, PLAYER_CONFIG_BODY)) {
        FetchStep::Found(config) => assert_eq!(config.request.files.progressive.len(), 2),
        other => panic!("unexpected step {other:?}"),
    }
}

#[test]
fn config_is_found_in_a_page_that_the_endpoint_serves() {
    let page = format!("<html><script>window.playerConfig = {PLAYER_CONFIG_BODY};</script></html>");
    let (fetch, _) = ConfigFetch::start(VIMEO_URL).unwrap();
    match receive(fetch, &envelope(200, &page)) {
        FetchStep::Found(config) => assert_eq!(config.video.unwrap().id, Some(123456789)),
        other => panic!("unexpected step {other:?}"),
    }
    let (fetch, _) = ConfigFetch::start(VIMEO_URL).unwrap();
    assert!(matches!(
        receive(fetch, &envelope(200, "<html></html>")),
        FetchStep::Failed(PluginError::PlayerConfigNotFound)
    ));
}

#[test]
fn refusal_leads_to_the_player_page_with_the_token() {
    for status in [401, 403] {
        let (fetch, _) = ConfigFetch::start("https://vimeo.com/123456789/abcdef1234").unwrap();
        let (fetch, request) = match receive(fetch, &envelope(status, "no")) {
            FetchStep::Send { fetch, request } => (fetch, request),
            other => panic!("unexpected step {other:?}"),
        };
        assert_eq!(url_of(&request), "https://player.vimeo.com/video/123456789?h=abcdef1234");
        assert_eq!(fetch.stage, FetchStage::Embed);
        let page = "<script>window.playerConfig = {'request':{'files':{}}};</script>";
        assert!(matches!(receive(fetch, &envelope(200, page)), FetchStep::Found(_)));
    }
}

#[test]
fn refused_page_ends_the_fetch() {
    let (fetch, _) = ConfigFetch::start(VIMEO_URL).unwrap();
    let (fetch, request) = match receive(fetch, &envelope(403, "")) {
        FetchStep::Send { fetch, request } => (fetch, request),
        other => panic!("unexpected step {other:?}"),
    };
    assert_eq!(url_of(&request), "https://player.vimeo.com/video/123456789");
    assert!(matches!(
        receive(fetch, &envelope(403, "")),
        FetchStep::Failed(PluginError::Private(_))
    ));
}

#[test]
fn other_failures_end_the_fetch() {
    let (fetch, _) = ConfigFetch::start(VIMEO_URL).unwrap();
    assert!(matches!(
        receive(fetch, &envelope(404, "gone")),
        FetchStep::Failed(PluginError::HttpStatus { status: 404, .. })
    ));
    let (fetch, _) = ConfigFetch::start(VIMEO_URL).unwrap();
    assert!(matches!(receive(fetch, "{}"), FetchStep::Failed(PluginError::HostResponse(_))));
    let err = ConfigFetch::start("https://vimeo.com/showcase/1").unwrap_err();
    assert!(matches!(err, PluginError::UnsupportedUrl(_)));
}

#[test]
fn variants_follow_the_settings() {
    let all = get_media_variants(decode_config(PLAYER_CONFIG_BODY).unwrap(), "false", "");
    assert_eq!(
        urls(&all),
        vec![
            "https://vod.vimeo.com/360.mp4",
            "https://vod.vimeo.com/720.mp4",
            "https://akamai.vimeo.com/master.m3u8"
        ]
    );
    let hoisted = get_media_variants(decode_config(PLAYER_CONFIG_BODY).unwrap(), "", "720p");
    assert_eq!(
        urls(&hoisted),
        vec![
            "https://vod.vimeo.com/720.mp4",
            "https://vod.vimeo.com/360.mp4",
            "https://akamai.vimeo.com/master.m3u8"
        ]
    );
    let audio = get_media_variants(decode_config(PLAYER_CONFIG_BODY).unwrap(), "Yes", "720p");
    assert_eq!(audio.variants.len(), 1);
    assert_eq!(audio.variants[0].kind, VariantKind::Adaptive);
}

#[test]
fn preference_that_picks_nothing_changes_nothing() {
    let all = get_media_variants(decode_config(PLAYER_CONFIG_BODY).unwrap(), "0", "best");
    assert_eq!(all.variants[0].format_id, "360p");
    let low = apply_quality_preference(all, "144p");
    assert_eq!(low.variants[0].format_id, "360p");
    assert_eq!(low.variants[2].kind, VariantKind::Adaptive);
    let empty = apply_quality_preference(MediaVariantsResponse::<f64> { variants: vec![] }, "720p");
    assert!(empty.variants.is_empty());
}

#[test]
fn picked_variant_leads_among_equal_urls() {
    let mut config = decode_config(PLAYER_CONFIG_BODY).unwrap();
    config.request.files.progressive[0].url = "https://same.mp4".into();
    config.request.files.progressive[1].url = "https://same.mp4".into();
    let r = get_media_variants(config, "", "720p");
    assert_eq!(r.variants[0].format_id, "720p");
    assert_eq!(r.variants[1].format_id, "360p");
}

#[test]
fn settings_are_truthy_in_any_case() {
    for value in ["true", "TRUE", "1", "yes", "Yes"] {
        assert!(is_truthy(value));
    }
    for value in ["", "0", "no", "on", " true", "truee"] {
        assert!(!is_truthy(value));
    }
}

#[test]
fn stream_is_the_progressive_file_for_the_quality() {
    let resolve = |quality: &str| {
        resolve_stream_url(decode_config(PLAYER_CONFIG_BODY).unwrap(), quality, false).unwrap()
    };
    assert_eq!(resolve("720p"), "https://vod.vimeo.com/720.mp4");
    assert_eq!(resolve("480p"), "https://vod.vimeo.com/360.mp4");
    assert_eq!(resolve(""), "https://vod.vimeo.com/720.mp4");
    assert_eq!(resolve("best"), "https://vod.vimeo.com/720.mp4");
}

#[test]
fn quality_below_every_file_is_left_to_the_broker() {
    let low = |body: &str| resolve_stream_url(decode_config(body).unwrap(), "144p", false);
    let err = low(PLAYER_CONFIG_BODY).unwrap_err();
    assert!(matches!(err, PluginError::AdaptiveStreamOnly));
    let files_only = r#"{"request":{"files":{"progressive":[
        {"quality":"720p","height":720,"url":"https://vod.vimeo.com/720.mp4"},
        {"quality":"360p","height":360,"url":"https://vod.vimeo.com/360.mp4"}
    ]}}}"#;
    assert_eq!(low(files_only).unwrap(), "https://vod.vimeo.com/720.mp4");
}

#[test]
fn audio_stream_is_the_manifest() {
    let url = resolve_stream_url(decode_config(PLAYER_CONFIG_BODY).unwrap(), "720p", true).unwrap();
    assert_eq!(url, "https://akamai.vimeo.com/master.m3u8");
    let none = decode_config(r#"{"request":{"files":{}}}"#).unwrap();
    let err = resolve_stream_url(none, "", true).unwrap_err();
    assert!(matches!(err, PluginError::NoVariantsFound));
}

#[test]
fn manifest_alone_is_left_to_the_broker() {
    let err = resolve_stream_url(decode_config(HLS_ONLY_BODY).unwrap(), "720p", false).unwrap_err();
    assert!(matches!(err, PluginError::AdaptiveStreamOnly));
    assert!(err.message().contains("adaptive stream (HLS/DASH)"));
    assert_eq!(
        err.message(),
        "video is only available as an adaptive stream (HLS/DASH) at this quality; use download_to_file"
    );
    let none = decode_config(r#"{"request":{"files":{}}}"#).unwrap();
    let err = resolve_stream_url(none, "720p", false).unwrap_err();
    assert_eq!(err.message(), "no playable variants found for this Vimeo video");
}

#[test]
fn download_goes_through_the_typed_broker() {
    let request =
        download_request(VIMEO_URL, "1080p", "m3u8", "/tmp/vortex-downloads/job", false).unwrap();
    assert_eq!(
        request,
        r#"{"action":"download","url":"https://vimeo.com/123456789","quality":1080,"format":null,"output_dir":"/tmp/vortex-downloads/job","audio_only":false}"#
    );
    let raw = r#"{"exit_code":0,"stdout":"/tmp/vortex-downloads/job/123456789.mp4\n","stderr":""}"#;
    assert_eq!(
        download_path(raw, decode_run).unwrap(),
        "/tmp/vortex-downloads/job/123456789.mp4"
    );
    let err = download_request("https://vimeo.com/album/1", "", "", "/tmp", false).unwrap_err();
    assert!(matches!(err, PluginError::UnsupportedUrl(_)));
}

#[test]
fn download_failures_are_told_apart() {
    let fail = |raw: &str| download_path(raw, decode_run).unwrap_err();
    assert!(matches!(
        fail(r#"{"exit_code":0,"stdout":" \n","stderr":"x"}"#),
        PluginError::EmptyDownloadPath
    ));
    assert!(matches!(
        fail(r#"{"exit_code":7,"stdout":"/a","stderr":"x"}"#),
        PluginError::Subprocess { exit_code: 7, .. }
    ));
    assert!(matches!(fail(""), PluginError::SerdeJson(_)));
}
