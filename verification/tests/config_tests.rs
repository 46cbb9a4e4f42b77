use image_downloader::config::{fixed_request_user_agent, select_source, Config, FatalError, Source};

const DESKTOP_UA: &str = "Mozilla/5.0 (Macintosh; Intel Mac OS X 10_15_7) AppleWebKit/537.36 (KHTML, like Gecko) Chrome/138.0.0.0 Safari/537.36";

#[test]
fn defaults_match_the_design() {
    let c = Config::default();
    assert_eq!(c.timeout_secs, 10);
    assert_eq!(c.redirect_limit, 5);
    assert_eq!(c.user_agent, DESKTOP_UA);
    assert_eq!(c.output_dir, "img");
    assert!(c.proxy.is_none());
    assert!(!c.proxy_for_downloads);
}

#[test]
fn request_user_agent_is_the_fixed_literal() {
    assert_eq!(fixed_request_user_agent(), DESKTOP_UA);
}

#[test]
fn url_selects_the_remote_source() {
    let r = select_source(Some("http://h.test/p".to_string()), None);
    match r {
        Ok(Source::RemoteUrl(u)) => assert_eq!(u, "http://h.test/p"),
        _ => panic!("expected the remote source"),
    }
}

#[test]
fn file_selects_the_local_source() {
    let r = select_source(None, Some("page.html".to_string()));
    match r {
        Ok(Source::LocalFile(p)) => assert_eq!(p, "page.html"),
        _ => panic!("expected the local source"),
    }
}

#[test]
fn neither_source_is_a_fatal_error() {
    let r = select_source(None, None);
    assert!(matches!(r, Err(FatalError::MissingSource)));
}

#[test]
fn url_wins_when_both_are_given() {
    let r = select_source(
        Some("http://h.test/p".to_string()),
        Some("page.html".to_string()),
    );
    assert!(matches!(r, Ok(Source::RemoteUrl(_))));
}
