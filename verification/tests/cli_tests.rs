use bili_downloader::cli::{
    chosen_page, format_from_choice, quality_prompt_plan, input_from_line, quality_from_choice, OutputFormat, Quality,
};
use bili_downloader::error::Error;
use bili_downloader::util::quality_label;

#[test]
fn format_extensions() {
    assert_eq!(OutputFormat::Mp4.extension(), "mp4");
    assert_eq!(OutputFormat::Mp3.extension(), "mp3");
}

#[test]
fn quality_numbers() {
    assert_eq!(Quality::Q4k.qn(), 120);
    assert_eq!(Quality::P1080.qn(), 80);
    assert_eq!(Quality::P720.qn(), 64);
    assert_eq!(Quality::P360.qn(), 16);
}

#[test]
fn each_quality_is_labelled_as_its_option() {
    assert_eq!(quality_label(Quality::Q4k.qn()), "4K");
    assert_eq!(quality_label(Quality::P1080.qn()), "1080P");
    assert_eq!(quality_label(Quality::P720.qn()), "720P");
    assert_eq!(quality_label(Quality::P360.qn()), "360P");
}

#[test]
fn typed_input_is_trimmed() {
    assert_eq!(input_from_line("  BV1xx411c7mD \r\n").unwrap(), "BV1xx411c7mD");
}

#[test]
fn empty_typed_input_is_an_error() {
    let r = input_from_line(" \n");
    assert!(matches!(r, Err(Error::EmptyInput)));
    assert_eq!(r.unwrap_err().message(), "未输入内容。");
}

#[test]
fn format_choices() {
    assert_eq!(format_from_choice("\n").unwrap(), OutputFormat::Mp4);
    assert_eq!(format_from_choice("1\n").unwrap(), OutputFormat::Mp4);
    assert_eq!(format_from_choice(" 2 \n").unwrap(), OutputFormat::Mp3);
}

#[test]
fn invalid_format_choice() {
    for line in ["3\n", "12", "mp3", "+1"] {
        let r = format_from_choice(line);
        assert!(matches!(r, Err(Error::InvalidFormatChoice)));
    }
    assert_eq!(
        format_from_choice("x").unwrap_err().message(),
        "格式编号只能是 1 或 2。"
    );
}

#[test]
fn quality_choices() {
    let qualities = [120, 80, 64];
    assert_eq!(quality_from_choice("\n", &qualities).unwrap(), None);
    assert_eq!(quality_from_choice("2\n", &qualities).unwrap(), Some(80));
    assert_eq!(quality_from_choice(" +3 ", &qualities).unwrap(), Some(64));
    assert_eq!(quality_from_choice("01", &qualities).unwrap(), Some(120));
}

#[test]
fn quality_choice_out_of_range() {
    let qualities = [120, 80];
    for line in ["0", "3\n"] {
        let r = quality_from_choice(line, &qualities);
        assert!(matches!(r, Err(Error::QualityChoiceOutOfRange { count: 2 })));
    }
    assert_eq!(
        quality_from_choice("9", &qualities).unwrap_err().message(),
        "清晰度编号必须在 1 到 2 之间。"
    );
}

#[test]
fn quality_choice_not_a_number() {
    let r = quality_from_choice(" abc \n", &[120]);
    match &r {
        Err(Error::InvalidQualityChoice { choice }) => assert_eq!(choice, "abc"),
        other => panic!("unexpected {:?}", other),
    }
    assert_eq!(r.unwrap_err().message(), "清晰度选择无效：abc");
    assert!(matches!(
        quality_from_choice("-1", &[120]),
        Err(Error::InvalidQualityChoice { .. })
    ));
}

#[test]
fn unicode_whitespace_is_trimmed() {
    assert_eq!(input_from_line("\u{3000}\u{a0}BV1xx411c7mD\u{2003}\u{85}").unwrap(), "BV1xx411c7mD");
    assert!(matches!(input_from_line("\u{200b}"), Ok(_)));
}

#[test]
fn page_option_wins_over_the_page_in_the_input() {
    assert_eq!(chosen_page(Some(2), Some(5)), Some(2));
    assert_eq!(chosen_page(None, Some(5)), Some(5));
    assert_eq!(chosen_page(None, None), None);
}

#[test]
fn qualities_are_offered_for_mp4_only() {
    assert_eq!(quality_prompt_plan(OutputFormat::Mp4, 3, true), (true, true));
    assert_eq!(quality_prompt_plan(OutputFormat::Mp4, 3, false), (true, false));
    assert_eq!(quality_prompt_plan(OutputFormat::Mp4, 0, true), (false, false));
    assert_eq!(quality_prompt_plan(OutputFormat::Mp3, 3, true), (false, false));
}
