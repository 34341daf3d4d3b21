use vibe_core::navigation::{allow_navigation, allow_navigation_to, AppUrl};

fn url(value: &str) -> AppUrl {
    AppUrl::parse(value).expect("valid url")
}

fn is_app_url(url: &AppUrl) -> bool {
    vibe_core::navigation::is_app_url(url, true)
}

#[test]
fn app_origins_are_allowed() {
    assert!(is_app_url(&url("tauri://localhost/index.html")));
    assert!(is_app_url(&url("http://tauri.localhost/index.html")));
    assert!(is_app_url(&url("http://asset.localhost/recording.wav")));
    assert!(is_app_url(&url("asset://localhost/recording.wav")));
}

#[test]
fn the_cve_shape_is_rejected() {
    // A first-subdomain-only check accepted every one of these.
    assert!(!is_app_url(&url("http://tauri.evil.com/")));
    assert!(!is_app_url(&url("http://asset.attacker.test/")));
    // ...and a naive suffix check would accept these instead.
    assert!(!is_app_url(&url("https://tauri.localhost.evil.com/")));
    assert!(!is_app_url(&url("https://evil.com/tauri.localhost")));
}

#[test]
fn ordinary_remote_and_exotic_schemes_are_rejected() {
    assert!(!is_app_url(&url("https://example.com/")));
    assert!(!is_app_url(&url("javascript:alert(1)")));
    assert!(!is_app_url(&url("file:///etc/passwd")));
    assert!(!is_app_url(&url("vibe://download/?url=https://evil.com/x.bin")));
}

#[test]
fn the_parts_of_a_url_are_those_that_the_url_crate_sees() {
    for text in ["HTTP://Tauri.Localhost:80/x", "mailto:a@b.c", "https://[::1]/", "https://127.1/", "asset://localhost/"] {
        let parsed = url::Url::parse(text).unwrap();
        let own = url(text);
        assert_eq!(own.scheme, parsed.scheme());
        assert_eq!(own.host.as_deref(), parsed.host_str());
    }
    assert_eq!(url("HTTP://Tauri.Localhost:80/x").scheme, "http");
    assert_eq!(url("HTTP://Tauri.Localhost:80/x").host.as_deref(), Some("tauri.localhost"));
    assert_eq!(url("mailto:a@b.c").host, None);
    assert!(AppUrl::parse("not a url").is_none());
}

#[test]
fn the_development_server_is_for_development_builds() {
    for text in ["http://localhost:1420/", "https://localhost/", "http://127.0.0.1:1420/"] {
        assert!(allow_navigation_to(text, true));
        assert!(!allow_navigation_to(text, false));
    }
    assert!(!allow_navigation_to("ftp://localhost/", true));
}

#[test]
fn a_release_build_goes_where_the_app_is() {
    for text in ["tauri://localhost/", "asset://x/", "https://asset.localhost/a.wav", "http://tauri.localhost/"] {
        assert!(allow_navigation(&url(text), false));
    }
    assert!(!allow_navigation(&url("https://example.com/"), false));
    assert!(!allow_navigation(&url("https://tauri.localhost./"), true));
}

#[test]
fn a_text_that_is_no_url_goes_nowhere() {
    assert!(!allow_navigation_to("", true));
    assert!(!allow_navigation_to("tauri", true));
}
