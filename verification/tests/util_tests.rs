use bili_downloader::models::{PageData, ViewData};
use bili_downloader::number::{decimal_chars, parse_unsigned_chars};
use bili_downloader::util::{
    format_accept_quality, make_output_stem, numbered_file_name, quality_label,
    quality_option_labels, sanitize_filename, split_file_name, timestamp_from_seconds,
    truncate_chars, unix_timestamp,
};

fn chars(s: &str) -> Vec<char> {
    s.chars().collect()
}

fn text(cs: &[char]) -> String {
    cs.iter().collect()
}

fn view(title: &str, aid: u64, pages: Vec<PageData>) -> ViewData {
    ViewData {
        aid,
        bvid: "BV1xx411c7mD".to_string(),
        title: title.to_string(),
        pages,
        ugc_season: None,
    }
}

fn page(number: u32, part: &str) -> PageData {
    PageData { cid: 1000 + number as u64, page: number, part: part.to_string() }
}

#[test]
fn sanitize_replaces_invalid_characters_and_trims_spaces_and_dots() {
    assert_eq!(sanitize_filename(" a<b>c:d. "), "a_b_c_d");
    assert_eq!(sanitize_filename("x\"y/z\\w|q?r*s"), "x_y_z_w_q_r_s");
}

#[test]
fn sanitize_replaces_control_characters() {
    assert_eq!(sanitize_filename("\u{7}bell\u{9f}"), "_bell_");
    assert_eq!(sanitize_filename("tab\there"), "tab_here");
}

#[test]
fn sanitize_keeps_inner_spaces_and_unicode() {
    assert_eq!(sanitize_filename("..【中文】 标题 .."), "【中文】 标题");
}

#[test]
fn sanitize_can_leave_nothing() {
    assert_eq!(sanitize_filename(" .. . "), "");
    assert_eq!(sanitize_filename(""), "");
}

#[test]
fn sanitize_is_idempotent_on_examples() {
    for name in ["..a?b.. ", " .x. ", "<>", "normal name", "\u{1}. a"] {
        let once = sanitize_filename(name);
        assert_eq!(sanitize_filename(&once), once);
    }
}

#[test]
fn truncate_keeps_at_most_the_given_number_of_characters() {
    assert_eq!(truncate_chars("你好世界", 2), "你好");
    assert_eq!(truncate_chars("abc", 10), "abc");
    assert_eq!(truncate_chars("abc", 0), "");
}

#[test]
fn output_stem_of_a_multi_page_video_names_the_page() {
    let v = view("标题", 1, vec![page(1, "第一集"), page(2, "第二集")]);
    assert_eq!(make_output_stem(&v, &v.pages[1]), "标题 - P2 第二集");
}

#[test]
fn output_stem_of_a_single_page_video_is_the_title() {
    let v = view("a/b: c?", 1, vec![page(1, "ignored")]);
    assert_eq!(make_output_stem(&v, &v.pages[0]), "a_b_ c_");
}

#[test]
fn output_stem_falls_back_to_the_aid() {
    let v = view(" ... ", 170001, vec![page(1, "p")]);
    assert_eq!(make_output_stem(&v, &v.pages[0]), "BV170001");
}

#[test]
fn output_stem_is_cut_to_120_characters() {
    let long: String = std::iter::repeat('长').take(130).collect();
    let v = view(&long, 1, vec![page(1, "p")]);
    let stem = make_output_stem(&v, &v.pages[0]);
    assert_eq!(stem.chars().count(), 120);
    assert!(long.starts_with(&stem));
}

#[test]
fn quality_labels_of_known_and_unknown_numbers() {
    assert_eq!(quality_label(120), "4K");
    assert_eq!(quality_label(116), "1080P60");
    assert_eq!(quality_label(112), "1080P+");
    assert_eq!(quality_label(80), "1080P");
    assert_eq!(quality_label(74), "720P60");
    assert_eq!(quality_label(64), "720P");
    assert_eq!(quality_label(32), "480P");
    assert_eq!(quality_label(16), "360P");
    assert_eq!(quality_label(6), "QN6");
    assert_eq!(quality_label(127), "QN127");
}

#[test]
fn accept_quality_prefers_descriptions_then_labels() {
    let descriptions = vec!["超清 4K".to_string(), "高清 1080P".to_string()];
    assert_eq!(
        format_accept_quality(&[120, 80, 64], &descriptions),
        "超清 4K, 高清 1080P, 720P"
    );
    assert_eq!(format_accept_quality(&[], &descriptions), "");
    assert_eq!(format_accept_quality(&[16], &[]), "360P");
}

#[test]
fn quality_option_labels_in_order() {
    let descriptions = vec!["流畅 360P".to_string()];
    assert_eq!(
        quality_option_labels(&[16, 32], &descriptions),
        vec!["流畅 360P".to_string(), "480P".to_string()]
    );
}

#[test]
fn numbered_file_names_keep_the_extension() {
    assert_eq!(numbered_file_name(Some("video.mp4"), 1), "video (1).mp4");
    assert_eq!(numbered_file_name(Some("archive.tar.gz"), 2), "archive.tar (2).gz");
    assert_eq!(numbered_file_name(Some("noext"), 3), "noext (3)");
    assert_eq!(numbered_file_name(Some(".hidden"), 1), ".hidden (1)");
    assert_eq!(numbered_file_name(Some("a."), 1), "a (1)");
    assert_eq!(numbered_file_name(Some(".."), 1), ".. (1)");
    assert_eq!(numbered_file_name(None, 12), "download (12)");
}

#[test]
fn numbered_file_names_differ_between_attempts() {
    let names: Vec<String> = (1..=12).map(|i| numbered_file_name(Some("x.mp3"), i)).collect();
    for i in 0..names.len() {
        for j in 0..names.len() {
            if i != j {
                assert_ne!(names[i], names[j]);
            }
        }
        assert_ne!(names[i], "x.mp3");
    }
}

#[test]
fn split_file_name_like_path_methods() {
    let (stem, ext) = split_file_name(&chars("clip.final.mp4"));
    assert_eq!(text(&stem), "clip.final");
    assert_eq!(ext.map(|e| text(&e)), Some("mp4".to_string()));
    let (stem, ext) = split_file_name(&chars(".bashrc"));
    assert_eq!(text(&stem), ".bashrc");
    assert_eq!(ext, None);
}

#[test]
fn decimal_notation_of_numbers() {
    assert_eq!(text(&decimal_chars(0)), "0");
    assert_eq!(text(&decimal_chars(1234567890123)), "1234567890123");
    assert_eq!(text(&decimal_chars(u64::MAX)), "18446744073709551615");
}

#[test]
fn parsing_unsigned_numbers_like_str_parse() {
    assert_eq!(parse_unsigned_chars(&chars("42"), u64::MAX), Some(42));
    assert_eq!(parse_unsigned_chars(&chars("+42"), u64::MAX), Some(42));
    assert_eq!(parse_unsigned_chars(&chars("007"), u64::MAX), Some(7));
    assert_eq!(parse_unsigned_chars(&chars("+"), u64::MAX), None);
    assert_eq!(parse_unsigned_chars(&chars(""), u64::MAX), None);
    assert_eq!(parse_unsigned_chars(&chars("-1"), u64::MAX), None);
    assert_eq!(parse_unsigned_chars(&chars("1a"), u64::MAX), None);
    assert_eq!(parse_unsigned_chars(&chars("١٢"), u64::MAX), None);
    assert_eq!(
        parse_unsigned_chars(&chars("18446744073709551615"), u64::MAX),
        Some(u64::MAX)
    );
    assert_eq!(parse_unsigned_chars(&chars("18446744073709551616"), u64::MAX), None);
    assert_eq!(parse_unsigned_chars(&chars("256"), 255), None);
    assert_eq!(parse_unsigned_chars(&chars("255"), 255), Some(255));
}

#[test]
fn parsing_the_decimal_notation_gives_the_number_back() {
    for n in [0u64, 9, 10, 99, 100, 170001, u64::MAX] {
        assert_eq!(parse_unsigned_chars(&decimal_chars(n), u64::MAX), Some(n));
    }
}

#[test]
fn unix_timestamp_is_after_2020() {
    assert!(unix_timestamp() > 1_577_836_800);
}

#[test]
fn timestamp_of_a_clock_before_the_epoch_is_zero() {
    assert_eq!(timestamp_from_seconds(Some(1700000000)), 1700000000);
    assert_eq!(timestamp_from_seconds(None), 0);
}
