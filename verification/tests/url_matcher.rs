use vortex_mod_vimeo::url_matcher::{
    classify_url, extract_private_hash, extract_showcase_id, extract_video_id, is_vimeo_url,
    UrlKind,
};

#[test]
fn test_classify_url() {
    let cases = [
        ("https://vimeo.com/123456789", UrlKind::Video),
        ("https://www.vimeo.com/123456789", UrlKind::Video),
        ("https://vimeo.com/123456789/abcdef1234", UrlKind::PrivateVideo),
        ("https://vimeo.com/showcase/98765", UrlKind::Showcase),
        ("https://vimeo.com/album/54321", UrlKind::Showcase),
        ("https://player.vimeo.com/video/123456789", UrlKind::Video),
        ("https://vimeo.com/123456789?autoplay=1", UrlKind::Video),
        ("https://vimeo.com/123456789/", UrlKind::Video),
        ("https://vimeo.com/ondemand/example", UrlKind::Unknown),
        ("https://vimeo.com/user/foo", UrlKind::Unknown),
        ("https://example.com/?u=vimeo.com/123", UrlKind::Unknown),
        ("not a url", UrlKind::Unknown),
        ("https://vimeo.com/123456789#t=30", UrlKind::Video),
        ("https://vimeo.com/123456789/abcdef1234#comment", UrlKind::PrivateVideo),
        ("https://vimeo.com/showcase/98765#intro", UrlKind::Showcase),
        ("https://vimeo.com/showcase/98765/extra/segments", UrlKind::Unknown),
    ];
    for (url, expected) in cases {
        assert_eq!(classify_url(url), expected, "{url}");
    }
}

#[test]
fn extract_video_id_public() {
    assert_eq!(
        extract_video_id("https://vimeo.com/123456789"),
        Some("123456789".into())
    );
}

#[test]
fn extract_video_id_private() {
    assert_eq!(
        extract_video_id("https://vimeo.com/123456789/abcdef1234"),
        Some("123456789".into())
    );
}

#[test]
fn extract_private_hash_from_share_link() {
    assert_eq!(
        extract_private_hash("https://vimeo.com/123456789/abcdef1234"),
        Some("abcdef1234".into())
    );
}

#[test]
fn extract_private_hash_none_for_public_video() {
    assert!(extract_private_hash("https://vimeo.com/123456789").is_none());
}

#[test]
fn extract_private_hash_none_for_showcase() {
    assert!(extract_private_hash("https://vimeo.com/showcase/98765").is_none());
}

#[test]
fn extract_private_hash_strips_query_and_fragment() {
    assert_eq!(
        extract_private_hash("https://vimeo.com/123456789/abcdef1234?autoplay=1"),
        Some("abcdef1234".into())
    );
    assert_eq!(
        extract_private_hash("https://vimeo.com/123456789/abcdef1234#t=30"),
        Some("abcdef1234".into())
    );
}

#[test]
fn extract_private_hash_from_player_query() {
    assert_eq!(
        extract_private_hash("https://player.vimeo.com/video/123456789?h=fba859c46b"),
        Some("fba859c46b".into())
    );
}

#[test]
fn extract_private_hash_from_player_query_with_other_params() {
    assert_eq!(
        extract_private_hash(
            "https://player.vimeo.com/video/123456789?app_id=122963&h=fba859c46b&autoplay=0"
        ),
        Some("fba859c46b".into())
    );
    assert_eq!(
        extract_private_hash(
            "https://player.vimeo.com/video/123456789?h=fba859c46b&app_id=122963"
        ),
        Some("fba859c46b".into())
    );
}

#[test]
fn extract_private_hash_from_player_query_rejects_non_hex() {
    assert!(
        extract_private_hash("https://player.vimeo.com/video/123456789?h=NOT-A-HASH").is_none()
    );
}

#[test]
fn extract_private_hash_from_player_query_rejects_too_short() {
    assert!(extract_private_hash("https://player.vimeo.com/video/123456789?h=abc").is_none());
}

#[test]
fn extract_private_hash_from_player_query_ignores_fragment() {
    assert!(
        extract_private_hash("https://player.vimeo.com/video/123456789#?h=deadbeefcafe")
            .is_none()
    );
}

#[test]
fn extract_private_hash_from_player_query_with_trailing_fragment() {
    assert_eq!(
        extract_private_hash("https://player.vimeo.com/video/123456789?h=fba859c46b#t=30"),
        Some("fba859c46b".into())
    );
}

#[test]
fn extract_private_hash_ignores_h_query_on_non_player_host() {
    assert!(
        extract_private_hash("https://vimeo.com/123456789?h=fba859c46b").is_none(),
        "vimeo.com should use path-segment hash only"
    );
}

#[test]
fn extract_video_id_player() {
    assert_eq!(
        extract_video_id("https://player.vimeo.com/video/123456789"),
        Some("123456789".into())
    );
}

#[test]
fn extract_video_id_rejects_showcase() {
    assert_eq!(extract_video_id("https://vimeo.com/showcase/1"), None);
}

#[test]
fn extract_showcase_id_matches_showcase_and_album() {
    assert_eq!(
        extract_showcase_id("https://vimeo.com/showcase/98765"),
        Some("98765".into())
    );
    assert_eq!(
        extract_showcase_id("https://vimeo.com/album/54321"),
        Some("54321".into())
    );
}

#[test]
fn is_vimeo_url_sanity() {
    assert!(is_vimeo_url("https://vimeo.com/1234567"));
    assert!(!is_vimeo_url("https://example.com/"));
}

#[test]
fn host_is_matched_without_case_credentials_and_port() {
    assert_eq!(classify_url("HTTPS://VIMEO.COM/123456789"), UrlKind::Video);
    assert_eq!(classify_url("https://user:pw@vimeo.com:443/123456789"), UrlKind::Video);
    assert_eq!(classify_url("https://m.vimeo.com/123456789"), UrlKind::Video);
    assert_eq!(classify_url("https://vimeo.com@example.com/123456789"), UrlKind::Unknown);
    assert_eq!(classify_url("https://[::1]:8080/123456789"), UrlKind::Unknown);
    assert_eq!(classify_url("https://[::1/123456789"), UrlKind::Unknown);
    assert_eq!(classify_url("https://:443/123456789"), UrlKind::Unknown);
    assert_eq!(classify_url("ftp://vimeo.com/123456789"), UrlKind::Unknown);
    assert_eq!(classify_url("https:///123456789"), UrlKind::Unknown);
}

#[test]
fn id_has_at_least_six_digits() {
    assert_eq!(classify_url("https://vimeo.com/12345"), UrlKind::Unknown);
    assert_eq!(classify_url("https://vimeo.com/123456"), UrlKind::Video);
    assert_eq!(extract_video_id("https://vimeo.com/12345"), None);
    assert_eq!(classify_url("https://player.vimeo.com/video/12345"), UrlKind::Unknown);
    assert_eq!(classify_url("https://player.vimeo.com/123456"), UrlKind::Unknown);
}

#[test]
fn decimal_digits_beyond_ascii_make_an_id() {
    let url = "https://vimeo.com/\u{0661}\u{0662}\u{0663}\u{0664}\u{0665}\u{0666}";
    assert_eq!(classify_url(url), UrlKind::Video);
    assert_eq!(classify_url("https://vimeo.com/12345\u{00b2}"), UrlKind::Unknown);
}

#[test]
fn token_has_at_least_eight_lower_case_digits() {
    assert_eq!(classify_url("https://vimeo.com/123456789/abcdef1"), UrlKind::Unknown);
    assert_eq!(classify_url("https://vimeo.com/123456789/ABCDEF1234"), UrlKind::Unknown);
    assert_eq!(
        extract_private_hash("https://player.vimeo.com/video/123456789?h=FBA859C46B"),
        None
    );
    assert_eq!(
        extract_private_hash("https://player.vimeo.com/video/123456789?h=abc&h=fba859c46b"),
        Some("fba859c46b".into())
    );
}

#[test]
fn permalink_and_player_page_name_the_video() {
    for id in ["123456", "987654321"] {
        let permalink = format!("https://vimeo.com/{id}");
        assert_eq!(extract_video_id(&permalink).as_deref(), Some(id));
        assert_eq!(extract_private_hash(&permalink), None);
        let page = format!("https://player.vimeo.com/video/{id}?h=0123abcd");
        assert_eq!(classify_url(&page), UrlKind::Video);
        assert_eq!(extract_video_id(&page).as_deref(), Some(id));
        assert_eq!(extract_private_hash(&page).as_deref(), Some("0123abcd"));
        let bare = format!("https://player.vimeo.com/video/{id}");
        assert_eq!(extract_private_hash(&bare), None);
    }
}

#[test]
fn query_fragment_and_trailing_slash_do_not_matter() {
    for suffix in ["", "/", "//", "?a=b", "#t=1", "/?a=b#c", "#c?d"] {
        let url = format!("https://vimeo.com/123456789/abcdef1234{suffix}");
        assert_eq!(classify_url(&url), UrlKind::PrivateVideo, "{url}");
        assert_eq!(extract_video_id(&url).as_deref(), Some("123456789"));
        assert_eq!(extract_private_hash(&url).as_deref(), Some("abcdef1234"));
    }
}

#[test]
fn showcase_has_no_video_id() {
    assert_eq!(extract_video_id("https://vimeo.com/album/98765432"), None);
    assert_eq!(extract_showcase_id("https://vimeo.com/98765432"), None);
    assert_eq!(extract_showcase_id("no url"), None);
    assert!(is_vimeo_url("https://vimeo.com/showcase/1"));
}

#[test]
fn other_hosts_and_shapes_have_no_id_and_no_token() {
    for url in [
        "https://example.com/123456789",
        "https://example.com/video/123456789",
        "https://example.com/123456789/abcdef1234",
        "https://vimeo.com/video/123456789",
        "https://player.vimeo.com/123456789/abcdef1234",
        "https://player.vimeo.com/123456789?h=fba859c46b",
        "https://player.vimeo.com/embed?h=fba859c46b",
    ] {
        assert_eq!(classify_url(url), UrlKind::Unknown, "{url}");
        assert_eq!(extract_video_id(url), None, "{url}");
        assert_eq!(extract_private_hash(url), None, "{url}");
    }
    let share = "https://www.vimeo.com/123456789/abcdef1234";
    assert_eq!(extract_video_id(share).as_deref(), Some("123456789"));
    assert_eq!(extract_private_hash(share).as_deref(), Some("abcdef1234"));
}

#[test]
fn suffixes_do_not_matter_to_other_urls_either() {
    for url in ["no url", "https:/", "https://vimeo.com", "ftp://vimeo.com/123456", "https:///1"] {
        assert_eq!(classify_url(url), UrlKind::Unknown);
        assert_eq!(classify_url(&format!("{url}/")), UrlKind::Unknown);
    }
    for url in ["no url", "ftp://vimeo.com/123456", "https:///123456"] {
        for suffix in ["#://vimeo.com/123456", "?https://vimeo.com/123456"] {
            assert_eq!(classify_url(&format!("{url}{suffix}")), UrlKind::Unknown);
        }
    }
}
