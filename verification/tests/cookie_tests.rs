use bili_downloader::cli::{Args, Quality};
use bili_downloader::cookie::{clean_cookie_header, load_cookie, parse_cookie_file};
use bili_downloader::error::Error;

#[test]
fn typed_cookie_is_cleaned() {
    assert_eq!(
        clean_cookie_header("  Cookie: SESSDATA=1; bili_jct=2;; "),
        "SESSDATA=1; bili_jct=2"
    );
    assert_eq!(clean_cookie_header("Cookie:Cookie:a=1"), "a=1");
    assert_eq!(clean_cookie_header("a=1"), "a=1");
    assert_eq!(clean_cookie_header(" ; "), "");
}

#[test]
fn netscape_cookie_file() {
    let text = "# Netscape HTTP Cookie File\n\
                .bilibili.com\tTRUE\t/\tFALSE\t0\tSESSDATA\t abc \n\
                \n\
                .bilibili.com\tTRUE\t/\tFALSE\t0\tbili_jct\txyz\n";
    assert_eq!(parse_cookie_file(text), "SESSDATA=abc; bili_jct=xyz");
}

#[test]
fn netscape_lines_win_over_other_lines() {
    let text = "plain=1\n.b.com\tTRUE\t/\tFALSE\t0\tk\tv\n";
    assert_eq!(parse_cookie_file(text), "k=v");
}

#[test]
fn header_cookie_file() {
    let text = "Cookie: SESSDATA=abc;\n bili_jct=xyz;\n";
    assert_eq!(parse_cookie_file(text), "SESSDATA=abc;; bili_jct=xyz");
}

#[test]
fn cookie_file_with_crlf_lines() {
    assert_eq!(parse_cookie_file("a=1\r\nb=2\r\n"), "a=1; b=2");
}

#[test]
fn cookie_file_without_content() {
    assert_eq!(parse_cookie_file(""), "");
    assert_eq!(parse_cookie_file("# only a comment\n\n   \n"), "");
}

fn args(cookie: Option<&str>, cookie_file: Option<&str>) -> Args {
    Args {
        input: None,
        format: None,
        quality: Quality::P1080,
        page: None,
        output_dir: "downloads".to_string(),
        cookie: cookie.map(str::to_string),
        cookie_file: cookie_file.map(str::to_string),
        ffmpeg: "ffmpeg".to_string(),
        keep_temp: false,
    }
}

#[test]
fn command_line_cookie_comes_first() {
    let r = load_cookie(&args(Some("Cookie: a=1;"), Some("cookies.txt")), Some("b=2"));
    assert_eq!(r.unwrap(), Some("a=1".to_string()));
}

#[test]
fn cookie_file_is_used_without_command_line_cookie() {
    let r = load_cookie(&args(None, Some("cookies.txt")), Some("b=2\n"));
    assert_eq!(r.unwrap(), Some("b=2".to_string()));
}

#[test]
fn empty_cookie_file_is_an_error() {
    let r = load_cookie(&args(None, Some("cookies.txt")), Some("# nothing\n"));
    assert!(matches!(r, Err(Error::EmptyCookieFile)));
    assert_eq!(r.unwrap_err().message(), "Cookie 文件里没有可用 Cookie。");
}

#[test]
fn no_cookie_at_all() {
    assert_eq!(load_cookie(&args(None, None), None).unwrap(), None);
}

#[test]
fn carriage_return_without_line_feed_is_kept_inside_a_line() {
    assert_eq!(parse_cookie_file("a=1\rb=2"), "a=1\rb=2");
}
