use image_downloader::extract::get_url_list;

#[test]
fn duplicate_url_extracted_once() {
    let out = get_url_list(b"see http://a.test/x.png and http://a.test/x.png again");
    assert_eq!(out, vec![b"http://a.test/x.png".to_vec()]);
}

#[test]
fn case_variants_are_distinct_entries() {
    let out = get_url_list(b"http://a.test/y.JPG http://a.test/y.jpg");
    assert_eq!(
        out,
        vec![b"http://a.test/y.JPG".to_vec(), b"http://a.test/y.jpg".to_vec()]
    );
}

#[test]
fn recognizes_all_eight_extensions() {
    for ext in ["jpg", "gif", "png", "webp", "JPG", "GIF", "PNG", "WEBP"] {
        let text = format!("pre http://h.test/f.{} post", ext);
        let out = get_url_list(text.as_bytes());
        assert_eq!(out, vec![format!("http://h.test/f.{}", ext).into_bytes()]);
    }
}

#[test]
fn rejects_mixed_case_extension() {
    let out = get_url_list(b"http://a.test/y.Jpg");
    assert!(out.is_empty());
}

#[test]
fn keeps_first_seen_order_without_duplicates() {
    let out = get_url_list(
        b"http://a.test/b.png http://a.test/a.png http://a.test/b.png http://a.test/a.png",
    );
    assert_eq!(
        out,
        vec![b"http://a.test/b.png".to_vec(), b"http://a.test/a.png".to_vec()]
    );
}

#[test]
fn requires_a_scheme() {
    let out = get_url_list(b"a.test/x.png");
    assert!(out.is_empty());
}

#[test]
fn recognizes_https() {
    let out = get_url_list(b"https://a.test/b.gif");
    assert_eq!(out, vec![b"https://a.test/b.gif".to_vec()]);
}

#[test]
fn greedy_match_takes_the_latest_valid_extension() {
    let out = get_url_list(b"http://a.test/x.png.jpg");
    assert_eq!(out, vec![b"http://a.test/x.png.jpg".to_vec()]);
}

#[test]
fn extension_must_end_at_a_word_boundary() {
    let out = get_url_list(b"http://a.test/x.pngx");
    assert!(out.is_empty());
}

#[test]
fn run_may_span_whitespace() {
    let out = get_url_list(b"http://a.test/im age.png");
    assert_eq!(out, vec![b"http://a.test/im age.png".to_vec()]);
}

#[test]
fn empty_text_yields_nothing() {
    let out = get_url_list(b"");
    assert!(out.is_empty());
}

#[test]
fn url_at_end_of_text_is_matched() {
    let out = get_url_list(b"look: http://a.test/last.webp");
    assert_eq!(out, vec![b"http://a.test/last.webp".to_vec()]);
}
