use bili_downloader::error::Error;
use bili_downloader::models::{ApiResponse, DashStream, DurlData};

fn stream(id: u32) -> DashStream {
    DashStream {
        id,
        base_url_camel: None,
        base_url_snake: None,
        backup_url_camel: None,
        backup_url_snake: None,
        bandwidth: None,
        codecs: None,
        mime_type_camel: None,
        mime_type_snake: None,
        width: None,
        height: None,
    }
}

fn strings(list: &[&str]) -> Vec<String> {
    list.iter().map(|s| s.to_string()).collect()
}

#[test]
fn successful_answer_gives_its_data() {
    let r = ApiResponse { code: 0, message: "0".to_string(), data: Some(5u32) };
    assert_eq!(r.into_data().unwrap(), 5);
}

#[test]
fn failed_answer_gives_its_code_and_message() {
    let r: ApiResponse<u32> = ApiResponse { code: -404, message: "啥都木有".to_string(), data: None };
    let e = r.into_data().unwrap_err();
    assert!(matches!(&e, Error::Api { code: -404, .. }));
    assert_eq!(e.message(), "Bilibili API error -404: 啥都木有");
    let r: ApiResponse<u32> = ApiResponse { code: 62002, message: "稿件不可见".to_string(), data: Some(1) };
    assert_eq!(r.into_data().unwrap_err().message(), "Bilibili API error 62002: 稿件不可见");
}

#[test]
fn answer_without_data() {
    let r: ApiResponse<u32> = ApiResponse { code: 0, message: String::new(), data: None };
    let e = r.into_data().unwrap_err();
    assert!(matches!(e, Error::MissingData));
    assert_eq!(e.message(), "B 站接口没有返回数据");
}

#[test]
fn extreme_error_codes() {
    let r: ApiResponse<u32> = ApiResponse { code: i64::MIN, message: "m".to_string(), data: None };
    assert_eq!(
        r.into_data().unwrap_err().message(),
        "Bilibili API error -9223372036854775808: m"
    );
}

#[test]
fn dash_urls_prefer_camel_case() {
    let mut s = stream(80);
    s.base_url_camel = Some("https://a/base".to_string());
    s.base_url_snake = Some("https://a/snake".to_string());
    s.backup_url_camel = Some(strings(&["https://b/1", "https://b/2"]));
    s.backup_url_snake = Some(strings(&["https://c/1"]));
    assert_eq!(s.urls(), strings(&["https://a/base", "https://b/1", "https://b/2"]));
}

#[test]
fn dash_urls_fall_back_to_snake_case() {
    let mut s = stream(80);
    s.base_url_snake = Some("https://a/snake".to_string());
    s.backup_url_snake = Some(strings(&["https://c/1"]));
    assert_eq!(s.urls(), strings(&["https://a/snake", "https://c/1"]));
    assert!(stream(16).urls().is_empty());
}

#[test]
fn mime_type_prefers_camel_case() {
    let mut s = stream(80);
    assert_eq!(s.mime_type(), None);
    s.mime_type_snake = Some("video/mp4".to_string());
    assert_eq!(s.mime_type(), Some("video/mp4"));
    s.mime_type_camel = Some("video/webm".to_string());
    assert_eq!(s.mime_type(), Some("video/webm"));
}

#[test]
fn durl_urls_start_with_the_main_url() {
    let d = DurlData {
        url: "https://main".to_string(),
        backup_url_camel: None,
        backup_url_snake: Some(strings(&["https://backup"])),
    };
    assert_eq!(d.urls(), strings(&["https://main", "https://backup"]));
    let only = DurlData { url: "u".to_string(), backup_url_camel: None, backup_url_snake: None };
    assert_eq!(only.urls(), strings(&["u"]));
}
