use serde_json::Value;
use vortex_mod_vimeo::error::PluginError;
use vortex_mod_vimeo::yt_dlp::{
    build_download_request, optional_audio_format, parse_download_path_from_stdout, parse_quality,
    parse_ytdlp_response, truncate_stderr, YtDlpResponse,
};

fn decode_run(raw: &str) -> Result<YtDlpResponse, serde_json::Error> {
    let value: Value = serde_json::from_str(raw)?;
    Ok(YtDlpResponse {
        exit_code: value["exit_code"].as_i64().unwrap() as i32,
        stdout: value["stdout"].as_str().unwrap().into(),
        stderr: value["stderr"].as_str().unwrap().into(),
    })
}

#[test]
fn parse_path_picks_last_non_empty_line() {
    let stdout = "\n[info] some chatter\n/tmp/output/1234.mp4\n\n";
    assert_eq!(
        parse_download_path_from_stdout(stdout).unwrap(),
        "/tmp/output/1234.mp4"
    );
}

#[test]
fn parse_path_errors_with_empty_download_path_on_blank_stdout() {
    assert!(matches!(
        parse_download_path_from_stdout(""),
        Err(PluginError::EmptyDownloadPath)
    ));
    assert!(matches!(
        parse_download_path_from_stdout("\n\n   \n"),
        Err(PluginError::EmptyDownloadPath)
    ));
}

#[test]
fn parse_response_propagates_non_zero_exit() {
    let json = r#"{"exit_code":1,"stdout":"","stderr":"boom"}"#;
    let err = parse_ytdlp_response(json, decode_run).unwrap_err();
    assert!(matches!(err, PluginError::Subprocess { exit_code: 1, .. }));
}

#[test]
fn parse_response_ok_returns_stdout() {
    let json = r#"{"exit_code":0,"stdout":"/tmp/out.mp4\n","stderr":""}"#;
    assert_eq!(parse_ytdlp_response(json, decode_run).unwrap(), "/tmp/out.mp4\n");
}

#[test]
fn truncate_stderr_handles_multibyte_boundaries() {
    let long: String = "🔥".repeat(600);
    let out = truncate_stderr(&long);
    assert!(out.ends_with("[truncated]"));
    assert!(std::str::from_utf8(out.as_bytes()).is_ok());
}

#[test]
fn download_request_uses_typed_broker_contract() {
    let req = build_download_request(
        "https://vimeo.com/123",
        "1080p",
        "m3u8",
        "/tmp/downloads",
        false,
    )
    .unwrap();
    let json: serde_json::Value = serde_json::from_str(&req).unwrap();

    assert_eq!(json["action"], "download");
    assert_eq!(json["url"], "https://vimeo.com/123");
    assert_eq!(json["quality"], 1080);
    assert!(json["format"].is_null());
    assert_eq!(json["output_dir"], "/tmp/downloads");
    assert_eq!(json["audio_only"], false);
    for forbidden in ["binary", "args", "timeout_ms"] {
        assert!(
            json.get(forbidden).is_none(),
            "unexpected process control: {forbidden}"
        );
    }
}

#[test]
fn download_request_serialises_empty_options_as_null() {
    let req = build_download_request("https://vimeo.com/123", "", "", "/tmp/downloads", true)
        .unwrap();
    let json: serde_json::Value = serde_json::from_str(&req).unwrap();

    assert!(json["quality"].is_null());
    assert!(json["format"].is_null());
    assert_eq!(json["audio_only"], true);
}

#[test]
fn audio_request_only_serialises_supported_audio_formats() {
    let req = build_download_request(
        "https://vimeo.com/123",
        "audio_only",
        "m4a",
        "/tmp/downloads",
        true,
    )
    .unwrap();
    let json: serde_json::Value = serde_json::from_str(&req).unwrap();
    assert_eq!(json["format"], "m4a");

    let req = build_download_request(
        "https://vimeo.com/123",
        "audio_only",
        "m3u8",
        "/tmp/downloads",
        true,
    )
    .unwrap();
    let json: serde_json::Value = serde_json::from_str(&req).unwrap();
    assert!(json["format"].is_null());
}

#[test]
fn undecodable_answer_is_a_json_error() {
    let err = parse_ytdlp_response("{", decode_run).unwrap_err();
    assert!(matches!(err, PluginError::SerdeJson(_)));
    let expected = serde_json::from_str::<Value>("{").unwrap_err().to_string();
    assert_eq!(err.message(), format!("JSON error: {expected}"));
}

#[test]
fn failed_run_carries_a_trimmed_error_output() {
    let json = r#"{"exit_code":-2,"stdout":"x","stderr":" boom \n"}"#;
    let err = parse_ytdlp_response(json, decode_run).unwrap_err();
    assert_eq!(err.message(), "yt-dlp failed (exit code -2): boom");
}

#[test]
fn stderr_is_cut_behind_the_limit() {
    let exact = "x".repeat(512);
    assert_eq!(truncate_stderr(&exact), exact);
    let longer = "x".repeat(513);
    assert_eq!(truncate_stderr(&longer), format!("{exact}… [truncated]"));
    assert_eq!(truncate_stderr("  \n a b \t"), "a b");
}

#[test]
fn quality_names_a_height() {
    assert_eq!(parse_quality("1080p"), Some(1080));
    assert_eq!(parse_quality(" 720pp "), Some(720));
    assert_eq!(parse_quality("720P"), None);
    assert_eq!(parse_quality("+480"), Some(480));
    assert_eq!(parse_quality("4294967295"), Some(4294967295));
    assert_eq!(parse_quality("4294967296"), None);
    assert_eq!(parse_quality("Best"), None);
    assert_eq!(parse_quality("  "), None);
    assert_eq!(parse_quality("p"), None);
}

#[test]
fn audio_format_is_matched_in_any_case() {
    for name in ["aac", "flac", "m4a", "mp3", "ogg", "opus", "vorbis", "wav", "webm"] {
        assert_eq!(optional_audio_format(&format!(" {} ", name.to_uppercase())), Some(name));
    }
    assert_eq!(optional_audio_format("mp4"), None);
    assert_eq!(optional_audio_format(""), None);
}

#[test]
fn download_request_is_written_exactly() {
    let request = build_download_request("u\"\\\u{1}\n/é", "720p", "MP3", "/d", true).unwrap();
    assert_eq!(
        request,
        "{\"action\":\"download\",\"url\":\"u\\\"\\\\\\u0001\\n/é\",\"quality\":720,\"format\":\"mp3\",\"output_dir\":\"/d\",\"audio_only\":true}"
    );
}

#[test]
fn download_path_is_one_trimmed_line() {
    assert_eq!(parse_download_path_from_stdout("a\n  /b c \r\n\u{2003}\n").unwrap(), "/b c");
    assert_eq!(parse_download_path_from_stdout("only").unwrap(), "only");
    let with_blanks = "first\nlast\n \n\n";
    assert_eq!(
        parse_download_path_from_stdout(with_blanks).unwrap(),
        parse_download_path_from_stdout("first\nlast").unwrap()
    );
    let err = parse_download_path_from_stdout(" ").unwrap_err();
    assert_eq!(err.message(), "yt-dlp reported no output path");
}

#[test]
fn message_holds_the_json_text_it_is_given() {
    let err = parse_ytdlp_response("{", decode_run).unwrap_err();
    assert_eq!(err.message_with("boom"), "JSON error: boom");
    let other = PluginError::NoVariantsFound;
    assert_eq!(other.message_with("boom"), other.message());
}
