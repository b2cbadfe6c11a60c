use bili_downloader::api::{
    collect_collection_entries, default_headers, extract_page_from_input, page_from_match,
    parse_video_id, play_url, video_id_from_matches, video_referer, view_url,
};
use bili_downloader::error::Error;
use bili_downloader::models::{
    PageData, UgcSeasonData, UgcSeasonEpisodeData, UgcSeasonSectionData, VideoId, ViewData,
};

fn bvid_of(r: Result<VideoId, Error>) -> String {
    match r {
        Ok(VideoId::Bvid(b)) => b,
        other => panic!("expected a BV id, got {:?}", other),
    }
}

fn aid_of(r: Result<VideoId, Error>) -> u64 {
    match r {
        Ok(VideoId::Aid(a)) => a,
        other => panic!("expected an aid, got {:?}", other),
    }
}

#[test]
fn bv_id_is_found_in_a_link() {
    let r = parse_video_id("https://www.bilibili.com/video/BV1xx411c7mD?p=2&spm=1");
    assert_eq!(bvid_of(r), "BV1xx411c7mD");
}

#[test]
fn bv_id_alone_in_any_case() {
    assert_eq!(bvid_of(parse_video_id("BV1xx411c7mD")), "BV1xx411c7mD");
    assert_eq!(bvid_of(parse_video_id("bv1xx411c7md")), "bv1xx411c7md");
}

#[test]
fn bv_id_comes_before_an_av_number() {
    assert_eq!(bvid_of(parse_video_id("av170001 BV1xx411c7mD")), "BV1xx411c7mD");
}

#[test]
fn av_number_alone_and_in_a_link() {
    assert_eq!(aid_of(parse_video_id("av170001")), 170001);
    assert_eq!(aid_of(parse_video_id("AV170001")), 170001);
    assert_eq!(aid_of(parse_video_id("https://www.bilibili.com/video/av12345/")), 12345);
}

#[test]
fn numeric_aid() {
    assert_eq!(aid_of(parse_video_id("170001")), 170001);
}

#[test]
fn av_number_too_large() {
    let r = parse_video_id("av99999999999999999999");
    assert!(matches!(r, Err(Error::InvalidAv)));
    assert_eq!(r.unwrap_err().message(), "av 号无效");
}

#[test]
fn numeric_aid_too_large_or_empty() {
    let r = parse_video_id("99999999999999999999");
    assert!(matches!(r, Err(Error::InvalidNumericAid)));
    assert_eq!(r.unwrap_err().message(), "数字 aid 无效");
    assert!(matches!(parse_video_id(""), Err(Error::InvalidNumericAid)));
}

#[test]
fn no_video_id() {
    let r = parse_video_id("hello world");
    assert!(matches!(r, Err(Error::NoVideoId)));
    assert_eq!(r.unwrap_err().message(), "输入里没有找到 BV 号或 av 号。");
    assert!(matches!(parse_video_id("BV123"), Err(Error::NoVideoId)));
    assert!(matches!(parse_video_id("12a"), Err(Error::NoVideoId)));
}

#[test]
fn video_id_from_given_matches() {
    let bv = video_id_from_matches(Some("BVabc".to_string()), Some("1".to_string()), "x");
    assert_eq!(bvid_of(bv), "BVabc");
    assert_eq!(aid_of(video_id_from_matches(None, Some("+7".to_string()), "x")), 7);
    assert!(matches!(
        video_id_from_matches(None, Some("x".to_string()), "1"),
        Err(Error::InvalidAv)
    ));
    assert_eq!(aid_of(video_id_from_matches(None, None, "0042")), 42);
    assert!(matches!(video_id_from_matches(None, None, "+42"), Err(Error::NoVideoId)));
}

#[test]
fn page_parameter_of_a_link() {
    assert_eq!(
        extract_page_from_input("https://www.bilibili.com/video/BV1xx411c7mD?p=3"),
        Some(3)
    );
    assert_eq!(extract_page_from_input("BV1xx411c7mD?spm=1&p=12"), Some(12));
    assert_eq!(extract_page_from_input("BV1xx411c7mD?p=0"), None);
    assert_eq!(extract_page_from_input("BV1xx411c7mD"), None);
    assert_eq!(extract_page_from_input("BV1xx411c7mD?np=2"), None);
}

#[test]
fn page_from_given_digits() {
    assert_eq!(page_from_match(Some("12".to_string())), Some(12));
    assert_eq!(page_from_match(Some("0".to_string())), None);
    assert_eq!(page_from_match(Some("99999999999999999999999".to_string())), None);
    assert_eq!(page_from_match(None), None);
}

fn episode(aid: u64, bvid: &str) -> UgcSeasonEpisodeData {
    UgcSeasonEpisodeData { aid, bvid: bvid.to_string() }
}

fn video(pages: usize, title: &str, season: Option<UgcSeasonData>) -> ViewData {
    ViewData {
        aid: 1,
        bvid: "BV1".to_string(),
        title: title.to_string(),
        pages: (0..pages)
            .map(|i| PageData { cid: i as u64, page: i as u32 + 1, part: format!("P{}", i + 1) })
            .collect(),
        ugc_season: season,
    }
}

fn season(title: &str, sections: Vec<Vec<UgcSeasonEpisodeData>>) -> UgcSeasonData {
    UgcSeasonData {
        title: title.to_string(),
        sections: sections
            .into_iter()
            .map(|episodes| UgcSeasonSectionData { episodes })
            .collect(),
    }
}

#[test]
fn collection_keeps_one_entry_per_aid_in_order() {
    let s = season(
        "合集标题",
        vec![
            vec![episode(1, "BV_a"), episode(2, "BV_b")],
            vec![episode(1, "BV_a_again"), episode(3, "BV_c")],
        ],
    );
    let c = collect_collection_entries(&video(1, "视频", Some(s))).expect("a collection");
    assert_eq!(c.title, "合集标题");
    let bvids: Vec<String> = c.items.iter().map(|e| e.bvid.clone()).collect();
    assert_eq!(bvids, vec!["BV_a", "BV_b", "BV_c"]);
}

#[test]
fn collection_with_blank_title_uses_the_video_title() {
    let s = season(" \t ", vec![vec![episode(1, "BV_a"), episode(2, "BV_b")]]);
    let c = collect_collection_entries(&video(1, "视频标题", Some(s))).expect("a collection");
    assert_eq!(c.title, "视频标题");
}

#[test]
fn no_collection_for_multi_page_or_single_episode_or_none() {
    let s = season("t", vec![vec![episode(1, "BV_a"), episode(2, "BV_b")]]);
    assert!(collect_collection_entries(&video(2, "v", Some(s))).is_none());
    let one = season("t", vec![vec![episode(1, "BV_a"), episode(1, "BV_a2")]]);
    assert!(collect_collection_entries(&video(1, "v", Some(one))).is_none());
    assert!(collect_collection_entries(&video(1, "v", None)).is_none());
    let empty = season("t", vec![]);
    assert!(collect_collection_entries(&video(1, "v", Some(empty))).is_none());
}

#[test]
fn request_urls() {
    assert_eq!(
        view_url(&VideoId::Bvid("BV1xx411c7mD".to_string())),
        "https://api.bilibili.com/x/web-interface/view?bvid=BV1xx411c7mD"
    );
    assert_eq!(
        view_url(&VideoId::Aid(170001)),
        "https://api.bilibili.com/x/web-interface/view?aid=170001"
    );
    assert_eq!(
        play_url("BV1xx411c7mD", 279786, 80),
        "https://api.bilibili.com/x/player/playurl?bvid=BV1xx411c7mD&cid=279786&qn=80&fnver=0&fnval=4048&fourk=1"
    );
    assert_eq!(video_referer("BV1xx411c7mD"), "https://www.bilibili.com/video/BV1xx411c7mD/");
}

#[test]
fn default_headers_without_and_with_cookie() {
    let plain = default_headers(None).expect("headers");
    let names: Vec<&str> = plain.iter().map(|(n, _)| n.as_str()).collect();
    assert_eq!(names, vec!["user-agent", "accept", "accept-language"]);
    assert_eq!(plain[1].1, "*/*");
    assert_eq!(plain[2].1, "zh-CN,zh;q=0.9,en;q=0.8");

    let with = default_headers(Some("SESSDATA=abc; 名字=值\tx")).expect("headers");
    assert_eq!(with.len(), 4);
    assert_eq!(with[3], ("cookie".to_string(), "SESSDATA=abc; 名字=值\tx".to_string()));
}

#[test]
fn cookie_with_control_characters_is_refused() {
    let r = default_headers(Some("SESSDATA=abc\nEvil: 1"));
    assert!(matches!(r, Err(Error::InvalidCookieHeader)));
    assert_eq!(r.unwrap_err().message(), "Cookie contains invalid characters");
    assert!(matches!(default_headers(Some("a\u{7f}")), Err(Error::InvalidCookieHeader)));
}
