use std::collections::HashMap;

use serde_json::Value;
use vortex_mod_vimeo::error::PluginError;
use vortex_mod_vimeo::parser::{
    build_embed_html_request, build_oembed_request, build_player_config_request,
    extract_player_config_from_html, gap_contains_assignment, js_object_literal_to_json,
    parse_http_response, parse_oembed, parse_player_config, truncate, urlencode, CdnEntry, CdnTable,
    FilesConfig, HlsEntry, HttpResponse, OembedResponse, PlayerConfig, ProgressiveEntry,
    RequestConfig, VideoMeta,
};

fn text(value: &Value) -> Option<String> {
    value.as_str().map(String::from)
}

fn small(value: &Value) -> Option<u32> {
    value.as_u64().map(|n| n as u32)
}

fn required(value: &Value, key: &str) -> Result<String, String> {
    text(&value[key]).ok_or(format!("missing field `{key}`"))
}

fn decode_oembed(raw: &str) -> Result<OembedResponse, String> {
    let value: Value = serde_json::from_str(raw).map_err(|e| e.to_string())?;
    Ok(OembedResponse {
        kind: required(&value, "type")?,
        title: required(&value, "title")?,
        description: text(&value["description"]),
        author_name: text(&value["author_name"]),
        author_url: text(&value["author_url"]),
        thumbnail_url: text(&value["thumbnail_url"]),
        duration: value["duration"].as_u64(),
        video_id: value["video_id"].as_u64(),
    })
}

fn decode_answer(raw: &str) -> Result<HttpResponse, String> {
    let value: Value = serde_json::from_str(raw).map_err(|e| e.to_string())?;
    let status = value["status"].as_u64().ok_or("missing field `status`")?;
    Ok(HttpResponse {
        status: status as u16,
        headers: HashMap::new(),
        body: text(&value["body"]).unwrap_or_default(),
    })
}

fn decode_stream(value: &Value) -> Option<HlsEntry> {
    let mut cdns = CdnTable::new();
    for (name, entry) in value.get("cdns")?.as_object()? {
        cdns.insert(
            name.clone(),
            CdnEntry {
                url: text(&entry["url"])?,
                avc_url: text(&entry["avc_url"]),
            },
        );
    }
    Some(HlsEntry {
        cdns,
        default_cdn: text(&value["default_cdn"]),
    })
}

fn decode_config(raw: &str) -> Result<PlayerConfig<f64>, String> {
    let value: Value = serde_json::from_str(raw).map_err(|e| e.to_string())?;
    let files = value["request"].get("files").ok_or("missing field `files`")?;
    let mut progressive = Vec::new();
    for entry in files["progressive"].as_array().into_iter().flatten() {
        progressive.push(ProgressiveEntry {
            profile: entry.get("profile").cloned(),
            quality: required(entry, "quality")?,
            width: small(&entry["width"]),
            height: small(&entry["height"]),
            fps: entry["fps"].as_f64(),
            mime: text(&entry["mime"]),
            url: required(entry, "url")?,
        });
    }
    let video = value.get("video").map(|video| VideoMeta {
        id: video["id"].as_u64(),
        title: text(&video["title"]),
        duration: video["duration"].as_u64(),
        thumbs: None,
    });
    Ok(PlayerConfig {
        request: RequestConfig {
            files: FilesConfig {
                progressive,
                hls: decode_stream(&files["hls"]),
                dash: decode_stream(&files["dash"]),
            },
        },
        video,
    })
}

const OEMBED_JSON: &str = r#"{
        "type": "video",
        "version": "1.0",
        "title": "Sintel trailer",
        "description": "Third open movie by the Blender Foundation.",
        "author_name": "Blender Foundation",
        "author_url": "https://vimeo.com/blender",
        "thumbnail_url": "https://i.vimeocdn.com/video/1.jpg",
        "duration": 52,
        "video_id": 123456789
    }"#;

const PLAYER_CONFIG_JSON: &str = r#"{
        "request": {
            "files": {
                "progressive": [
                    {
                        "profile": 164,
                        "quality": "360p",
                        "width": 640,
                        "height": 360,
                        "fps": 24.0,
                        "mime": "video/mp4",
                        "url": "https://vod.vimeo.com/360.mp4"
                    },
                    {
                        "profile": 165,
                        "quality": "720p",
                        "width": 1280,
                        "height": 720,
                        "fps": 24.0,
                        "mime": "video/mp4",
                        "url": "https://vod.vimeo.com/720.mp4"
                    },
                    {
                        "profile": 174,
                        "quality": "1080p",
                        "width": 1920,
                        "height": 1080,
                        "fps": 24.0,
                        "mime": "video/mp4",
                        "url": "https://vod.vimeo.com/1080.mp4"
                    }
                ],
                "hls": {
                    "cdns": {
                        "akfire": {
                            "url": "https://akamai.vimeo.com/master.m3u8",
                            "avc_url": "https://akamai.vimeo.com/avc.m3u8"
                        }
                    },
                    "default_cdn": "akfire"
                }
            }
        },
        "video": { "id": 123456789, "title": "Sintel trailer", "duration": 52 }
    }"#;

#[test]
fn parse_oembed_accepts_video_type() {
    let r = parse_oembed(OEMBED_JSON, decode_oembed).unwrap();
    assert_eq!(r.title, "Sintel trailer");
    assert_eq!(r.duration, Some(52));
    assert_eq!(r.video_id, Some(123456789));
}

#[test]
fn parse_oembed_rejects_non_video_type() {
    let json = r#"{"type": "photo", "title": "x"}"#;
    let err = parse_oembed(json, decode_oembed).unwrap_err();
    assert!(matches!(err, PluginError::UnsupportedUrl(_)));
}

#[test]
fn parse_player_config_accepts_single_quoted_js_literal() {
    let raw = r#"{
            'request': {
                'files': {
                    'progressive': [
                        {
                            'profile': 164,
                            'quality': '720p',
                            'width': 1280,
                            'height': 720,
                            'fps': 24.0,
                            'mime': 'video/mp4',
                            'url': 'https://vod.vimeo.com/720.mp4'
                        }
                    ]
                }
            }
        }"#;
    let c = parse_player_config(raw, &decode_config).unwrap();
    assert_eq!(c.request.files.progressive.len(), 1);
    assert_eq!(c.request.files.progressive[0].quality, "720p");
    assert_eq!(
        c.request.files.progressive[0].url,
        "https://vod.vimeo.com/720.mp4"
    );
}

#[test]
fn parse_player_config_accepts_mixed_quoting() {
    let raw = r#"{
            "request": {
                "files": {
                    'progressive': [
                        {"profile": 1, "quality": "360p", "url": 'https://vod.vimeo.com/360.mp4'}
                    ]
                }
            }
        }"#;
    let c = parse_player_config(raw, &decode_config).unwrap();
    assert_eq!(
        c.request.files.progressive[0].url,
        "https://vod.vimeo.com/360.mp4"
    );
}

#[test]
fn js_object_literal_preserves_double_quoted_apostrophe() {
    let input = r#"{"title":"don't stop"}"#;
    let out = js_object_literal_to_json(input);
    assert_eq!(out, input);
}

#[test]
fn js_object_literal_preserves_utf8_content() {
    let input = r#"{'title':'Éclair — intro 🎬','n':1}"#;
    let out = js_object_literal_to_json(input);
    assert_eq!(out, r#"{"title":"Éclair — intro 🎬","n":1}"#);
    let v: serde_json::Value = serde_json::from_str(&out).unwrap();
    assert_eq!(v["title"], "Éclair — intro 🎬");
}

#[test]
fn js_object_literal_preserves_utf8_inside_double_quoted() {
    let input = r#"{"title":"Élodie: «bonjour»"}"#;
    let out = js_object_literal_to_json(input);
    assert_eq!(out, r#"{"title":"Élodie: «bonjour»"}"#);
}

#[test]
fn parse_player_config_accepts_js_literal_with_utf8() {
    let raw = r#"{
            'request': {
                'files': {
                    'progressive': [
                        {
                            'quality': '720p',
                            'url': 'https://vod.vimeo.com/720.mp4'
                        }
                    ]
                }
            },
            'video': {
                'title': 'Éclair — intro 🎬'
            }
        }"#;
    let c = parse_player_config(raw, &decode_config).unwrap();
    assert_eq!(c.request.files.progressive[0].quality, "720p");
    assert_eq!(c.video.unwrap().title.unwrap(), "Éclair — intro 🎬");
}

#[test]
fn js_object_literal_converts_escaped_single_quote() {
    let input = r#"{'title':'it\'s fine'}"#;
    let out = js_object_literal_to_json(input);
    assert_eq!(out, r#"{"title":"it's fine"}"#);
}

#[test]
fn parse_player_config_all_qualities() {
    let c = parse_player_config(PLAYER_CONFIG_JSON, &decode_config).unwrap();
    let qualities: Vec<_> = c
        .request
        .files
        .progressive
        .iter()
        .map(|e| e.quality.as_str())
        .collect();
    assert_eq!(qualities, vec!["360p", "720p", "1080p"]);
    assert!(c.request.files.hls.is_some());
}

#[test]
fn player_config_heights_preserved() {
    let c = parse_player_config(PLAYER_CONFIG_JSON, &decode_config).unwrap();
    let heights: Vec<_> = c
        .request
        .files
        .progressive
        .iter()
        .map(|e| e.height)
        .collect();
    assert_eq!(heights, vec![Some(360), Some(720), Some(1080)]);
}

#[test]
fn extract_player_config_simple_brace_balanced() {
    let html = r#"<html><script>window.playerConfig = {"a":1,"b":{"c":"}"}};</script></html>"#;
    let json = extract_player_config_from_html(html).unwrap();
    assert_eq!(json, r#"{"a":1,"b":{"c":"}"}}"#);
}

#[test]
fn extract_player_config_escaped_quote_in_string() {
    let html = r#"playerConfig = {"title":"he said \"hi\"","n":1};"#;
    let json = extract_player_config_from_html(html).unwrap();
    assert_eq!(json, r#"{"title":"he said \"hi\"","n":1}"#);
}

#[test]
fn extract_player_config_not_found() {
    let html = "<html><body>no config here</body></html>";
    let err = extract_player_config_from_html(html).unwrap_err();
    assert!(matches!(err, PluginError::PlayerConfigNotFound));
}

#[test]
fn extract_player_config_handles_single_quoted_strings() {
    let html = r#"<script>window.playerConfig = {'url':'has}brace','n':1};</script>"#;
    let json = extract_player_config_from_html(html).unwrap();
    assert_eq!(json, r#"{'url':'has}brace','n':1}"#);
}

#[test]
fn extract_player_config_skips_meta_tag_mention() {
    let html = r#"<meta name="playerConfig" content="legacy"><script>window.playerConfig = {"n":1};</script>"#;
    let json = extract_player_config_from_html(html).unwrap();
    assert_eq!(json, r#"{"n":1}"#);
}

#[test]
fn extract_player_config_skips_similar_prefixes() {
    let html = r#"
            <script>
              window.playerConfigVersion = {"legacy": true};
              window.playerConfig = {"real": true};
            </script>
        "#;
    let json = extract_player_config_from_html(html).unwrap();
    assert_eq!(json, r#"{"real": true}"#);
}

#[test]
fn extract_player_config_rejects_left_boundary_violation() {
    let html = r#"
            <script>
              mywindow.playerConfig = {"decoy": true};
              window.playerConfig = {"real": true};
            </script>
        "#;
    let json = extract_player_config_from_html(html).unwrap();
    assert_eq!(json, r#"{"real": true}"#);
}

#[test]
fn extract_player_config_rejects_equality_comparison() {
    let html = r#"
            <script>
              if (window.playerConfig === null) { legacy(); }
              window.playerConfig = {"real": true};
            </script>
        "#;
    let json = extract_player_config_from_html(html).unwrap();
    assert_eq!(json, r#"{"real": true}"#);
}

#[test]
fn extract_player_config_rejects_loose_equality_and_inequality() {
    let html_eq = r#"
            <script>
              if (window.playerConfig == null) { legacy(); }
              window.playerConfig = {"real": true};
            </script>
        "#;
    assert_eq!(
        extract_player_config_from_html(html_eq).unwrap(),
        r#"{"real": true}"#
    );

    let html_neq = r#"
            <script>
              if (window.playerConfig !== null) { /* ... */ }
              window.playerConfig = {"real": true};
            </script>
        "#;
    assert_eq!(
        extract_player_config_from_html(html_neq).unwrap(),
        r#"{"real": true}"#
    );
}

#[test]
fn extract_player_config_rejects_arrow_function_reference() {
    let html = r#"
            <script>
              const cb = window.playerConfig => { legacy(); };
              window.playerConfig = {"real": true};
            </script>
        "#;
    let json = extract_player_config_from_html(html).unwrap();
    assert_eq!(json, r#"{"real": true}"#);
}

#[test]
fn gap_contains_assignment_accepts_bare_equal() {
    assert!(gap_contains_assignment(" = "));
    assert!(gap_contains_assignment("="));
    assert!(gap_contains_assignment("\t= \n"));
}

#[test]
fn gap_contains_assignment_ignores_equals_inside_string_literals() {
    assert!(!gap_contains_assignment(
        r#" msg = "not = here" "#.split('=').next().unwrap()
    ));
    assert!(!gap_contains_assignment(r#" "has = inside" "#));
    assert!(!gap_contains_assignment(r#" 'single = quoted' "#));
    assert!(gap_contains_assignment(r#" "prefix" = "#));
}

#[test]
fn gap_contains_assignment_handles_escaped_quotes() {
    assert!(!gap_contains_assignment(r#" "it \"= inside\"" "#));
}

#[test]
fn extract_player_config_skips_marker_inside_already_open_string() {
    let html = r#"
            <script>
              var x = "testing window.playerConfig = {bad: true} still in string";
              window.playerConfig = {"real": true};
            </script>
        "#;
    let json = extract_player_config_from_html(html).unwrap();
    assert_eq!(json, r#"{"real": true}"#);
}

#[test]
fn extract_player_config_skips_decoy_inside_string_literal() {
    let html = r#"
            <script>
              const msg = "debug: window.playerConfig = bogus";
              window.playerConfig = {"real": true};
            </script>
        "#;
    let json = extract_player_config_from_html(html).unwrap();
    assert_eq!(json, r#"{"real": true}"#);
}

#[test]
fn gap_contains_assignment_rejects_comparisons_and_arrows() {
    assert!(!gap_contains_assignment(" == "));
    assert!(!gap_contains_assignment(" === "));
    assert!(!gap_contains_assignment(" != "));
    assert!(!gap_contains_assignment(" !== "));
    assert!(!gap_contains_assignment(" <= "));
    assert!(!gap_contains_assignment(" >= "));
    assert!(!gap_contains_assignment(" => "));
    assert!(!gap_contains_assignment(""));
    assert!(!gap_contains_assignment("no equals here"));
}

#[test]
fn extract_player_config_rejects_non_assignment_reference() {
    let html = r#"
            <script>
              console.log(window.playerConfig);
              function f() {}
              window.playerConfig = {"real": true};
            </script>
        "#;
    let json = extract_player_config_from_html(html).unwrap();
    assert_eq!(json, r#"{"real": true}"#);
}

#[test]
fn extract_player_config_fallback_marker_still_works() {
    let html = r#"<script>playerConfig = {"fallback": true};</script>"#;
    let json = extract_player_config_from_html(html).unwrap();
    assert_eq!(json, r#"{"fallback": true}"#);
}

#[test]
fn extract_player_config_rejects_dollar_sign_identifier_continuation() {
    let html = r#"
            <script>
              window.playerConfig$legacy = {"legacy": true};
              window.playerConfig = {"real": true};
            </script>
        "#;
    let json = extract_player_config_from_html(html).unwrap();
    assert_eq!(json, r#"{"real": true}"#);
}

#[test]
fn extract_player_config_skips_similar_prefixes_for_fallback_marker() {
    let html = r#"
            <script>
              playerConfigDetail = {"legacy": true};
              playerConfig = {"real": true};
            </script>
        "#;
    let json = extract_player_config_from_html(html).unwrap();
    assert_eq!(json, r#"{"real": true}"#);
}

#[test]
fn build_oembed_request_url_encoded() {
    let req = build_oembed_request("https://vimeo.com/123456789").unwrap();
    assert!(req.contains("\"method\":\"GET\""));
    assert!(req.contains("url=https%3A%2F%2Fvimeo.com%2F123456789"));
}

#[test]
fn build_player_config_request_shape() {
    let req = build_player_config_request("123456789").unwrap();
    assert!(req.contains("https://player.vimeo.com/video/123456789/config"));
}

#[test]
fn http_response_private_when_401() {
    let r = HttpResponse {
        status: 401,
        headers: HashMap::new(),
        body: "x".into(),
    };
    assert!(matches!(
        r.into_success_body().unwrap_err(),
        PluginError::Private(_)
    ));
}

fn answer(status: u16, body: &str) -> HttpResponse {
    HttpResponse {
        status,
        headers: HashMap::new(),
        body: body.into(),
    }
}

#[test]
fn status_decides_about_the_body() {
    assert_eq!(answer(200, "a").into_success_body().unwrap(), "a");
    assert_eq!(answer(299, "").into_success_body().unwrap(), "");
    let err = answer(403, "x").into_success_body().unwrap_err();
    assert_eq!(err.message(), "Vimeo resource is private: status 403");
    let err = answer(300, "moved").into_success_body().unwrap_err();
    assert_eq!(err.message(), "Vimeo API returned status 300: moved");
    let err = answer(199, &"é".repeat(200)).into_success_body().unwrap_err();
    match err {
        PluginError::HttpStatus { status, message } => {
            assert_eq!(status, 199);
            assert_eq!(message, format!("{}…", "é".repeat(128)));
        }
        other => panic!("unexpected error {other:?}"),
    }
}

#[test]
fn excerpt_ends_between_characters() {
    assert_eq!(truncate("abc", 3), "abc");
    assert_eq!(truncate("abcd", 3), "abc…");
    assert_eq!(truncate("aéb", 2), "a…");
    assert_eq!(truncate("🔥🔥", 7), "🔥…");
    assert_eq!(truncate("🔥", 3), "…");
    assert_eq!(truncate("", 0), "");
}

#[test]
fn envelope_is_decoded_or_refused() {
    let response = parse_http_response(r#"{"status":200,"body":"b"}"#, decode_answer).unwrap();
    assert_eq!(response.status, 200);
    assert_eq!(response.body, "b");
    let err = parse_http_response("{}", decode_answer).unwrap_err();
    assert_eq!(err.message(), "host function response invalid: missing field `status`");
}

#[test]
fn undecodable_oembed_is_reported() {
    let err = parse_oembed(r#"{"type":"video"}"#, decode_oembed).unwrap_err();
    assert_eq!(err.message(), "Vimeo JSON parse error: missing field `title`");
    let err = parse_oembed(r#"{"type":"rich","title":"x"}"#, decode_oembed).unwrap_err();
    assert_eq!(
        err.message(),
        "URL is not a recognised Vimeo resource: oEmbed kind 'rich' is not a video"
    );
}

#[test]
fn undecodable_config_is_reported_after_the_rewrite() {
    let err = parse_player_config("{'request': {}}", &decode_config).unwrap_err();
    assert_eq!(err.message(), "Vimeo JSON parse error: missing field `files`");
    let expected = decode_config("{\"a").unwrap_err();
    let err = parse_player_config("{'a", &decode_config).unwrap_err();
    assert_eq!(err.message(), format!("Vimeo JSON parse error: {expected}"));
}

#[test]
fn requests_are_written_exactly() {
    assert_eq!(
        build_oembed_request("https://vimeo.com/1?a=b c&d=é").unwrap(),
        r#"{"method":"GET","url":"https://vimeo.com/api/oembed.json?url=https%3A%2F%2Fvimeo.com%2F1%3Fa%3Db%20c%26d%3D%C3%A9"}"#
    );
    assert_eq!(
        build_player_config_request("123456").unwrap(),
        r#"{"method":"GET","url":"https://player.vimeo.com/video/123456/config"}"#
    );
    assert_eq!(
        build_embed_html_request("123456", Some("0123abcd")).unwrap(),
        r#"{"method":"GET","url":"https://player.vimeo.com/video/123456?h=0123abcd"}"#
    );
    assert_eq!(
        build_embed_html_request("123456", None).unwrap(),
        r#"{"method":"GET","url":"https://player.vimeo.com/video/123456"}"#
    );
}

#[test]
fn url_components_are_percent_encoded() {
    assert_eq!(urlencode("AZaz09-_.~"), "AZaz09-_.~");
    assert_eq!(urlencode("/?&=%+ \u{7f}"), "%2F%3F%26%3D%25%2B%20%7F");
    assert_eq!(urlencode("🎬"), "%F0%9F%8E%AC");
    assert_eq!(urlencode(""), "");
}

#[test]
fn rewriting_keeps_json_and_is_idempotent() {
    let once = js_object_literal_to_json(r#"{'a':"b",'say "hi"':'it\'s \\ \n'}"#);
    assert_eq!(once, r#"{"a":"b","say \"hi\"":"it's \\ \n"}"#);
    assert_eq!(js_object_literal_to_json(&once), once);
    assert_eq!(js_object_literal_to_json(r#"{"a":"\'"}"#), r#"{"a":"\'"}"#);
}

#[test]
fn unbalanced_block_is_not_found() {
    for html in [
        "window.playerConfig = {\"a\": {}",
        "window.playerConfig = 1;",
        "\"window.playerConfig = {}\"",
        "window.playerConfig",
        "",
    ] {
        let err = extract_player_config_from_html(html).unwrap_err();
        assert_eq!(err.message(), "Vimeo player config not found on page");
    }
}

#[test]
fn block_of_other_alphabets_is_cut_whole() {
    let html = "é🎬 window.playerConfig = {\"t\":\"É {\"}; …";
    assert_eq!(extract_player_config_from_html(html).unwrap(), "{\"t\":\"É {\"}");
}

#[test]
fn config_with_single_quotes_parses_alike() {
    let raw = PLAYER_CONFIG_JSON;
    assert!(!raw.contains('\'') && !raw.contains('\\'));
    let single = raw.replace('"', "'");
    assert_eq!(js_object_literal_to_json(&single), raw);
    let a = parse_player_config(raw, &decode_config).unwrap();
    let b = parse_player_config(&single, &decode_config).unwrap();
    assert_eq!(format!("{a:?}"), format!("{b:?}"));
}
