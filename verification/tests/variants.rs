use serde_json::Value;
use vortex_mod_vimeo::error::PluginError;
use vortex_mod_vimeo::parser::{
    CdnEntry, CdnTable, FilesConfig, HlsEntry, OembedResponse, PlayerConfig, ProgressiveEntry,
    RequestConfig,
};
use vortex_mod_vimeo::url_matcher::UrlKind;
use vortex_mod_vimeo::variants::parse_height;
use vortex_mod_vimeo::{
    build_media_variants_response, build_single_video_response, ensure_single_video,
    ensure_vimeo_url, filter_audio_only, handle_can_handle, handle_supports_playlist, pick_cdn,
    pick_variant_for_quality, ExtractLinksResponse, MediaVariant, VariantKind,
};

fn encode_links(response: &ExtractLinksResponse) -> Value {
    let mut videos = Vec::new();
    for link in &response.videos {
        let mut video = serde_json::Map::new();
        video.insert("id".into(), Value::from(link.id.as_str()));
        video.insert("title".into(), Value::from(link.title.as_str()));
        video.insert("url".into(), Value::from(link.url.as_str()));
        videos.push(Value::Object(video));
    }
    let mut object = serde_json::Map::new();
    object.insert("kind".into(), Value::from(response.kind));
    object.insert("videos".into(), Value::Array(videos));
    Value::Object(object)
}

fn sample_oembed() -> OembedResponse {
    OembedResponse {
        kind: "video".into(),
        title: "Sintel trailer".into(),
        description: Some("Blender demo".into()),
        author_name: Some("Blender Foundation".into()),
        author_url: Some("https://vimeo.com/blender".into()),
        thumbnail_url: Some("https://i.vimeocdn.com/video/1.jpg".into()),
        duration: Some(52),
        video_id: Some(123_456_789),
    }
}

fn sample_progressive(quality: &str, height: u32, url: &str) -> ProgressiveEntry<f64> {
    ProgressiveEntry {
        profile: None,
        quality: quality.to_string(),
        width: Some(height * 16 / 9),
        height: Some(height),
        fps: Some(24.0),
        mime: Some("video/mp4".into()),
        url: url.to_string(),
    }
}

fn sample_config_with_all() -> PlayerConfig<f64> {
    let mut cdns = CdnTable::new();
    cdns.insert(
        "akfire".into(),
        CdnEntry {
            url: "https://cdn.vimeocdn.com/master.m3u8".into(),
            avc_url: None,
        },
    );
    PlayerConfig {
        request: RequestConfig {
            files: FilesConfig {
                progressive: vec![
                    sample_progressive("1080p", 1080, "https://a.mp4"),
                    sample_progressive("360p", 360, "https://b.mp4"),
                    sample_progressive("720p", 720, "https://c.mp4"),
                ],
                hls: Some(HlsEntry {
                    cdns,
                    default_cdn: Some("akfire".into()),
                }),
                dash: None,
            },
        },
        video: None,
    }
}

#[test]
fn can_handle_recognises_public_video() {
    assert_eq!(handle_can_handle("https://vimeo.com/123456789"), "true");
}

#[test]
fn can_handle_rejects_unknown() {
    assert_eq!(handle_can_handle("https://example.com/"), "false");
}

#[test]
fn supports_playlist_false_for_video() {
    assert_eq!(
        handle_supports_playlist("https://vimeo.com/123456789"),
        "false"
    );
}

#[test]
fn build_single_video_response_populates_fields() {
    let r = build_single_video_response(sample_oembed(), "https://vimeo.com/123456789");
    assert_eq!(r.kind, "video");
    assert_eq!(r.videos.len(), 1);
    let v = &r.videos[0];
    assert_eq!(v.id, "123456789");
    assert_eq!(v.title, "Sintel trailer");
    assert_eq!(v.url, "https://vimeo.com/123456789");
    assert_eq!(v.uploader.as_deref(), Some("Blender Foundation"));
    assert_eq!(v.duration, Some(52));
}

#[test]
fn build_single_video_response_preserves_private_share_hash() {
    let source_url = "https://vimeo.com/123456789/abcdef1234";
    let r = build_single_video_response(sample_oembed(), source_url);
    assert_eq!(
        r.videos[0].url, source_url,
        "private share URL must be preserved verbatim"
    );
}

#[test]
fn build_single_video_response_falls_back_when_source_empty() {
    let r = build_single_video_response(sample_oembed(), "");
    assert_eq!(r.videos[0].url, "https://vimeo.com/123456789");
}

#[test]
fn build_variants_sorted_ascending_height_then_hls() {
    let r = build_media_variants_response(sample_config_with_all());
    let heights: Vec<Option<u32>> = r.variants.iter().map(|v| v.height).collect();
    assert_eq!(heights, vec![Some(360), Some(720), Some(1080), None]);
    assert_eq!(r.variants.last().unwrap().kind, VariantKind::Adaptive);
}

#[test]
fn build_variants_ext_derived_from_mime() {
    let r = build_media_variants_response(sample_config_with_all());
    assert_eq!(r.variants[0].ext, "mp4");
}

#[test]
fn filter_audio_only_keeps_only_adaptive() {
    let r = build_media_variants_response(sample_config_with_all());
    let filtered = filter_audio_only(r);
    assert_eq!(filtered.variants.len(), 1);
    assert_eq!(filtered.variants[0].kind, VariantKind::Adaptive);
}

#[test]
fn pick_variant_below_preferred_quality() {
    let r = build_media_variants_response(sample_config_with_all());
    let picked = pick_variant_for_quality(&r.variants, "720p").unwrap();
    assert_eq!(picked.height, Some(720));
}

#[test]
fn pick_variant_works_on_unsorted_slice() {
    let variants = vec![
        MediaVariant {
            format_id: "1080p".into(),
            kind: VariantKind::Video,
            ext: "mp4".into(),
            width: Some(1920),
            height: Some(1080),
            fps: Some(24.0),
            url: "a".into(),
        },
        MediaVariant {
            format_id: "360p".into(),
            kind: VariantKind::Video,
            ext: "mp4".into(),
            width: Some(640),
            height: Some(360),
            fps: Some(24.0),
            url: "b".into(),
        },
        MediaVariant {
            format_id: "720p".into(),
            kind: VariantKind::Video,
            ext: "mp4".into(),
            width: Some(1280),
            height: Some(720),
            fps: Some(24.0),
            url: "c".into(),
        },
    ];
    let picked = pick_variant_for_quality(&variants, "720p").unwrap();
    assert_eq!(picked.height, Some(720));
    let picked = pick_variant_for_quality(&variants, "1080p").unwrap();
    assert_eq!(picked.height, Some(1080));
    let picked = pick_variant_for_quality(&variants, "480p").unwrap();
    assert_eq!(
        picked.height,
        Some(360),
        "480p preferred should pick 360p (max height <= target)"
    );
}

#[test]
fn pick_variant_for_2k_maps_to_1440() {
    let r = build_media_variants_response(sample_config_with_all());
    let picked = pick_variant_for_quality(&r.variants, "2K").unwrap();
    assert_eq!(picked.height, Some(1080));
}

#[test]
fn pick_variant_falls_back_to_adaptive_when_no_progressive_fits() {
    let r = build_media_variants_response(sample_config_with_all());
    let picked = pick_variant_for_quality(&r.variants, "240p").unwrap();
    assert_eq!(picked.kind, VariantKind::Adaptive);
}

#[test]
fn ensure_vimeo_url_rejects_unknown() {
    let err = ensure_vimeo_url("https://example.com/").unwrap_err();
    assert!(matches!(err, PluginError::UnsupportedUrl(_)));
}

#[test]
fn ensure_single_video_rejects_showcase() {
    let err = ensure_single_video("https://vimeo.com/showcase/1").unwrap_err();
    assert!(matches!(err, PluginError::UnsupportedUrl(_)));
}

#[test]
fn private_video_classification_is_accepted_by_can_handle() {
    assert_eq!(
        handle_can_handle("https://vimeo.com/123456789/abcdef1234"),
        "true"
    );
}

#[test]
fn json_serialisation_of_extract_links_response() {
    let r = build_single_video_response(sample_oembed(), "https://vimeo.com/123456789");
    let json = serde_json::to_string(&encode_links(&r)).unwrap();
    let parsed: serde_json::Value = serde_json::from_str(&json).unwrap();
    assert_eq!(parsed["kind"], "video");
    assert_eq!(parsed["videos"][0]["title"], "Sintel trailer");
}

#[test]
fn supports_playlist_false_for_showcase_until_implemented() {
    assert_eq!(
        handle_supports_playlist("https://vimeo.com/showcase/98765"),
        "false",
        "Showcase must not be advertised as playlist-supported"
    );
}

#[test]
fn can_handle_rejects_showcase_until_implemented() {
    assert_eq!(
        handle_can_handle("https://vimeo.com/showcase/98765"),
        "false"
    );
}

#[test]
fn ensure_vimeo_url_rejects_showcase() {
    let err = ensure_vimeo_url("https://vimeo.com/showcase/98765").unwrap_err();
    assert!(matches!(err, PluginError::UnsupportedUrl(_)));
}

#[test]
fn pick_cdn_is_deterministic_without_default() {
    let mut cdns = CdnTable::new();
    cdns.insert(
        "z_akamai".into(),
        CdnEntry {
            url: "https://z.example/m.m3u8".into(),
            avc_url: None,
        },
    );
    cdns.insert(
        "a_fastly".into(),
        CdnEntry {
            url: "https://a.example/m.m3u8".into(),
            avc_url: None,
        },
    );
    let hls = HlsEntry {
        cdns,
        default_cdn: None,
    };
    for _ in 0..5 {
        assert_eq!(pick_cdn(&hls).as_deref(), Some("https://a.example/m.m3u8"));
    }
}

fn variant(format_id: &str, kind: VariantKind, height: Option<u32>, url: &str) -> MediaVariant<f64> {
    MediaVariant {
        format_id: format_id.into(),
        kind,
        ext: "mp4".into(),
        width: None,
        height,
        fps: None,
        url: url.into(),
    }
}

fn config(progressive: Vec<ProgressiveEntry<f64>>, hls: Option<HlsEntry>) -> PlayerConfig<f64> {
    PlayerConfig {
        request: RequestConfig {
            files: FilesConfig {
                progressive,
                hls,
                dash: None,
            },
        },
        video: None,
    }
}

#[test]
fn link_without_source_and_id_has_no_url() {
    let mut oembed = sample_oembed();
    oembed.video_id = None;
    let r = build_single_video_response(oembed, "");
    assert_eq!(r.videos[0].id, "");
    assert_eq!(r.videos[0].url, "");
    assert_eq!(r.videos[0].description.as_deref(), Some("Blender demo"));
    assert_eq!(r.videos[0].thumbnail.as_deref(), Some("https://i.vimeocdn.com/video/1.jpg"));
}

#[test]
fn gates_name_the_kind_or_the_url() {
    let kind = ensure_single_video("https://vimeo.com/123456789/abcdef1234").unwrap();
    assert_eq!(kind, UrlKind::PrivateVideo);
    assert_eq!(ensure_vimeo_url("https://vimeo.com/123456789").unwrap(), UrlKind::Video);
    let err = ensure_vimeo_url("https://vimeo.com/showcase/1").unwrap_err();
    assert_eq!(
        err.message(),
        "URL is not a recognised Vimeo resource: https://vimeo.com/showcase/1"
    );
}

#[test]
fn equal_heights_keep_their_order() {
    let mut unknown = sample_progressive("unknown", 0, "https://0.mp4");
    unknown.height = None;
    let r = build_media_variants_response(config(
        vec![
            sample_progressive("720p60", 720, "https://1.mp4"),
            sample_progressive("360p", 360, "https://2.mp4"),
            sample_progressive("720p", 720, "https://3.mp4"),
            unknown,
        ],
        None,
    ));
    let ids: Vec<&str> = r.variants.iter().map(|v| v.format_id.as_str()).collect();
    assert_eq!(ids, vec!["unknown", "360p", "720p60", "720p"]);
    assert_eq!(r.variants[2].fps, Some(24.0));
    assert_eq!(r.variants[2].width, Some(1280));
}

#[test]
fn extension_comes_from_a_video_type_alone() {
    let mut webm = sample_progressive("a", 1, "a");
    webm.mime = Some("video/webm".into());
    let mut other = sample_progressive("b", 2, "b");
    other.mime = Some("application/mp4".into());
    let mut none = sample_progressive("c", 3, "c");
    none.mime = None;
    let r = build_media_variants_response(config(vec![webm, other, none], None));
    let exts: Vec<&str> = r.variants.iter().map(|v| v.ext.as_str()).collect();
    assert_eq!(exts, vec!["webm", "mp4", "mp4"]);
}

#[test]
fn manifest_is_that_of_the_default_network() {
    let mut cdns = CdnTable::new();
    for name in ["b", "a", "c"] {
        cdns.insert(
            name.into(),
            CdnEntry {
                url: format!("https://{name}.example/"),
                avc_url: None,
            },
        );
    }
    cdns.insert(
        "b".into(),
        CdnEntry {
            url: "https://replaced.example/".into(),
            avc_url: None,
        },
    );
    assert_eq!(cdns.get("b").unwrap().url, "https://replaced.example/");
    assert!(cdns.get("d").is_none());
    let mut hls = HlsEntry {
        cdns,
        default_cdn: Some("b".into()),
    };
    assert_eq!(pick_cdn(&hls).as_deref(), Some("https://replaced.example/"));
    hls.default_cdn = Some("gone".into());
    assert_eq!(pick_cdn(&hls).as_deref(), Some("https://a.example/"));
    let r = build_media_variants_response(config(vec![], Some(hls)));
    assert_eq!(r.variants.len(), 1);
    assert_eq!(r.variants[0].format_id, "hls");
    assert_eq!(r.variants[0].ext, "m3u8");
    assert_eq!(r.variants[0].url, "https://a.example/");
    let empty = HlsEntry {
        cdns: CdnTable::new(),
        default_cdn: Some("b".into()),
    };
    assert_eq!(pick_cdn(&empty), None);
    assert!(build_media_variants_response(config(vec![], Some(empty))).variants.is_empty());
}

#[test]
fn first_network_is_the_first_by_characters() {
    let mut cdns = CdnTable::new();
    for name in ["ab", "é", "a", "B"] {
        cdns.insert(
            name.into(),
            CdnEntry {
                url: name.into(),
                avc_url: None,
            },
        );
    }
    let hls = HlsEntry {
        cdns,
        default_cdn: None,
    };
    assert_eq!(pick_cdn(&hls).as_deref(), Some("B"));
}

#[test]
fn audio_variants_survive_the_audio_filter() {
    let r = filter_audio_only(vortex_mod_vimeo::MediaVariantsResponse {
        variants: vec![
            variant("v", VariantKind::Video, Some(1), "v"),
            variant("a", VariantKind::Audio, None, "a"),
            variant("w", VariantKind::Video, Some(2), "w"),
            variant("h", VariantKind::Adaptive, None, "h"),
        ],
    });
    let ids: Vec<&str> = r.variants.iter().map(|v| v.format_id.as_str()).collect();
    assert_eq!(ids, vec!["a", "h"]);
}

#[test]
fn first_of_equal_fits_is_picked() {
    let variants = vec![
        variant("x", VariantKind::Video, None, "x"),
        variant("y", VariantKind::Video, Some(720), "y"),
        variant("z", VariantKind::Video, Some(720), "z"),
        variant("h", VariantKind::Adaptive, Some(100), "h"),
    ];
    assert_eq!(pick_variant_for_quality(&variants, "1080").unwrap().format_id, "y");
    assert_eq!(pick_variant_for_quality(&variants, "719").unwrap().format_id, "h");
    assert!(pick_variant_for_quality(&variants, "high").is_none());
    assert!(pick_variant_for_quality(&variants[..1], "720p").is_none());
}

#[test]
fn quality_labels_name_heights() {
    assert_eq!(parse_height("720p"), Some(720));
    assert_eq!(parse_height("1080PpP"), Some(1080));
    assert_eq!(parse_height("2k"), Some(1440));
    assert_eq!(parse_height("4K"), Some(2160));
    assert_eq!(parse_height("8K"), None);
    assert_eq!(parse_height(" 720p"), None);
    assert_eq!(parse_height(""), None);
}
