use image_downloader::dispatch::{
    derive_filename, downloader_args, downloader_program, plan_downloads, progress_line,
    report_results, DownloadOutcome,
};
use image_downloader::numfmt::u64_to_dec;

#[test]
fn filename_is_last_path_segment() {
    let name = derive_filename(b"http://host/path/to/image.png");
    assert_eq!(name, b"image.png".to_vec());
}

#[test]
fn filename_without_slash_falls_back_to_unknown() {
    let name = derive_filename(b"image.png");
    assert_eq!(name, b"unknown".to_vec());
}

#[test]
fn filename_after_trailing_slash_is_empty() {
    let name = derive_filename(b"http://host/dir/");
    assert_eq!(name, b"".to_vec());
}

#[test]
fn plan_keeps_order_and_derives_names() {
    let urls = vec![b"http://h.test/a/x.png".to_vec(), b"http://h.test/y.gif".to_vec()];
    let tasks = plan_downloads(&urls, b"img", &None, false);
    assert_eq!(tasks.len(), 2);
    assert_eq!(tasks[0].url, urls[0]);
    assert_eq!(tasks[0].filename, b"x.png".to_vec());
    assert_eq!(tasks[0].dir, b"img".to_vec());
    assert!(tasks[0].proxy.is_none());
    assert_eq!(tasks[1].url, urls[1]);
    assert_eq!(tasks[1].filename, b"y.gif".to_vec());
}

#[test]
fn plan_applies_proxy_only_when_flag_is_set() {
    let urls = vec![b"http://h.test/x.png".to_vec()];
    let proxy = Some(b"http://proxy.test:8080".to_vec());
    let with_flag = plan_downloads(&urls, b"img", &proxy, true);
    assert_eq!(with_flag[0].proxy, Some(b"http://proxy.test:8080".to_vec()));
    let without_flag = plan_downloads(&urls, b"img", &proxy, false);
    assert!(without_flag[0].proxy.is_none());
    let no_proxy = plan_downloads(&urls, b"img", &None, true);
    assert!(no_proxy[0].proxy.is_none());
}

#[test]
fn downloader_is_aria2c() {
    assert_eq!(downloader_program(), b"aria2c".to_vec());
}

#[test]
fn args_without_proxy() {
    let urls = vec![b"http://h.test/a/x.png".to_vec()];
    let tasks = plan_downloads(&urls, b"img", &None, false);
    let args = downloader_args(&tasks[0]);
    assert_eq!(
        args,
        vec![
            b"-o".to_vec(),
            b"x.png".to_vec(),
            b"-d".to_vec(),
            b"img".to_vec(),
            b"http://h.test/a/x.png".to_vec(),
        ]
    );
}

#[test]
fn args_with_proxy() {
    let urls = vec![b"http://h.test/a/x.png".to_vec()];
    let proxy = Some(b"http://proxy.test:8080".to_vec());
    let tasks = plan_downloads(&urls, b"out", &proxy, true);
    let args = downloader_args(&tasks[0]);
    assert_eq!(
        args,
        vec![
            b"-o".to_vec(),
            b"x.png".to_vec(),
            b"-d".to_vec(),
            b"out".to_vec(),
            b"http://h.test/a/x.png".to_vec(),
            b"--all-proxy".to_vec(),
            b"http://proxy.test:8080".to_vec(),
        ]
    );
}

#[test]
fn progress_line_format() {
    let line = progress_line(3, 12, b"img", b"x.png");
    assert_eq!(line, b"Downloading 3/12 file name: img/x.png".to_vec());
}

#[test]
fn decimal_rendering() {
    assert_eq!(u64_to_dec(0), b"0".to_vec());
    assert_eq!(u64_to_dec(7), b"7".to_vec());
    assert_eq!(u64_to_dec(10), b"10".to_vec());
    assert_eq!(u64_to_dec(123456789), b"123456789".to_vec());
    assert_eq!(u64_to_dec(u64::MAX), b"18446744073709551615".to_vec());
}

#[test]
fn failing_item_does_not_stop_the_others() {
    let urls = vec![
        b"http://h.test/a.png".to_vec(),
        b"http://h.test/b.png".to_vec(),
        b"http://h.test/c.png".to_vec(),
    ];
    let outcomes = vec![
        DownloadOutcome::Completed,
        DownloadOutcome::Failed,
        DownloadOutcome::Completed,
    ];
    let reports = report_results(&urls, &outcomes);
    assert_eq!(reports.len(), 3);
    assert_eq!(reports[0].url, urls[0]);
    assert_eq!(reports[0].outcome, DownloadOutcome::Completed);
    assert_eq!(reports[1].url, urls[1]);
    assert_eq!(reports[1].outcome, DownloadOutcome::Failed);
    assert_eq!(reports[2].url, urls[2]);
    assert_eq!(reports[2].outcome, DownloadOutcome::Completed);
}

#[test]
fn launch_error_is_reported_per_item() {
    let urls = vec![b"http://h.test/a.png".to_vec(), b"http://h.test/b.png".to_vec()];
    let outcomes = vec![DownloadOutcome::CouldNotStart, DownloadOutcome::Completed];
    let reports = report_results(&urls, &outcomes);
    assert_eq!(reports.len(), 2);
    assert_eq!(reports[0].outcome, DownloadOutcome::CouldNotStart);
    assert_eq!(reports[1].outcome, DownloadOutcome::Completed);
}
