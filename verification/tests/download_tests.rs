use bili_downloader::cli::OutputFormat;
use bili_downloader::download::{
    codec_preference, durl_plan, first_page_index, next_media_step, output_file_name, pages_to_download,
    segment_file_name, select_audio_stream, select_video_stream, stream_choice_lines,
    temp_dir_name, DurlPlan, MediaStep,
};
use bili_downloader::error::Error;
use bili_downloader::models::DashStream;

fn stream(id: u32, codecs: Option<&str>, bandwidth: Option<u64>, url: &str) -> DashStream {
    DashStream {
        id,
        base_url_camel: Some(url.to_string()),
        base_url_snake: None,
        backup_url_camel: None,
        backup_url_snake: None,
        bandwidth,
        codecs: codecs.map(str::to_string),
        mime_type_camel: None,
        mime_type_snake: None,
        width: None,
        height: None,
    }
}

fn url_of(s: &DashStream) -> String {
    s.base_url_camel.clone().unwrap()
}

#[test]
fn all_pages_of_a_multi_page_video_by_default() {
    assert_eq!(pages_to_download(3, None).unwrap(), vec![0, 1, 2]);
    assert_eq!(pages_to_download(2, None).unwrap(), vec![0, 1]);
}

#[test]
fn chosen_page_of_a_multi_page_video() {
    assert_eq!(pages_to_download(3, Some(2)).unwrap(), vec![1]);
    assert_eq!(pages_to_download(3, Some(0)).unwrap(), vec![0]);
    let r = pages_to_download(3, Some(4));
    assert!(matches!(r, Err(Error::PageNotFound { page: 4, count: 3 })));
    assert_eq!(r.unwrap_err().message(), "第 4 P 不存在。这个视频共 3 P。");
}

#[test]
fn first_page_of_a_video() {
    assert_eq!(first_page_index(3).unwrap(), 0);
    let r = first_page_index(0);
    assert!(matches!(r, Err(Error::NoPages)));
    assert_eq!(r.unwrap_err().message(), "视频没有分页数据");
}

#[test]
fn selected_page_of_a_single_page_video() {
    assert_eq!(pages_to_download(1, None).unwrap(), vec![0]);
    assert_eq!(pages_to_download(1, Some(1)).unwrap(), vec![0]);
    assert_eq!(pages_to_download(1, Some(0)).unwrap(), vec![0]);
}

#[test]
fn missing_page() {
    let r = pages_to_download(1, Some(2));
    assert!(matches!(r, Err(Error::PageNotFound { page: 2, count: 1 })));
    assert_eq!(r.unwrap_err().message(), "第 2 P 不存在。这个视频共 1 P。");
    assert!(matches!(pages_to_download(0, None), Err(Error::PageNotFound { page: 1, count: 0 })));
}

#[test]
fn codec_preferences() {
    assert_eq!(codec_preference(&stream(80, Some("avc1.640032"), None, "u")), 3);
    assert_eq!(codec_preference(&stream(80, Some("AVC1.640032"), None, "u")), 3);
    assert_eq!(codec_preference(&stream(80, Some("hev1.1.6.L120.90"), None, "u")), 2);
    assert_eq!(codec_preference(&stream(80, Some("HVC1"), None, "u")), 2);
    assert_eq!(codec_preference(&stream(80, Some("av01.0.08M.08"), None, "u")), 1);
    assert_eq!(codec_preference(&stream(80, Some("mp4a.40.2"), None, "u")), 0);
    assert_eq!(codec_preference(&stream(80, None, None, "u")), 0);
}

#[test]
fn best_video_stream_not_above_the_target() {
    let streams = vec![
        stream(120, Some("avc1"), Some(900), "4k"),
        stream(80, Some("hev1"), Some(100), "1080-hevc"),
        stream(80, Some("avc1"), Some(50), "1080-avc-first"),
        stream(80, Some("avc1"), Some(50), "1080-avc-last"),
        stream(64, Some("avc1"), Some(999), "720"),
    ];
    let chosen = select_video_stream(&streams, 80).unwrap();
    assert_eq!(url_of(chosen), "1080-avc-last");
    let chosen = select_video_stream(&streams, 120).unwrap();
    assert_eq!(url_of(chosen), "4k");
    let chosen = select_video_stream(&streams, 100).unwrap();
    assert_eq!(chosen.id, 80);
}

#[test]
fn video_stream_falls_back_to_the_lowest() {
    let streams = vec![
        stream(120, Some("avc1"), Some(900), "4k"),
        stream(64, Some("hev1"), Some(20), "720-hevc"),
        stream(64, Some("avc1"), Some(10), "720-avc"),
        stream(64, Some("avc1"), Some(10), "720-avc-later"),
    ];
    let chosen = select_video_stream(&streams, 16).unwrap();
    assert_eq!(url_of(chosen), "720-avc");
}

#[test]
fn no_video_stream() {
    let r = select_video_stream(&[], 80);
    assert!(matches!(r, Err(Error::NoVideoStream)));
    assert_eq!(r.unwrap_err().message(), "No video stream was returned.");
}

#[test]
fn audio_stream_with_the_largest_bandwidth() {
    let streams = Some(vec![
        stream(30216, None, Some(100), "a"),
        stream(30280, None, Some(300), "b"),
        stream(30232, None, Some(300), "c"),
        stream(30216, None, None, "d"),
    ]);
    assert_eq!(url_of(select_audio_stream(&streams).unwrap()), "c");
}

#[test]
fn no_audio_stream() {
    let r = select_audio_stream(&None);
    assert!(matches!(r, Err(Error::NoAudioStream)));
    assert_eq!(r.unwrap_err().message(), "No audio stream was returned.");
    assert!(matches!(select_audio_stream(&Some(vec![])), Err(Error::NoAudioStream)));
}

#[test]
fn stream_choice_report() {
    let mut video = stream(64, Some("avc1.64001F"), Some(1), "u");
    video.width = Some(1280);
    video.height = Some(720);
    video.mime_type_camel = Some("video/mp4".to_string());
    assert_eq!(
        stream_choice_lines("Video", &video, 80),
        vec![
            "Video：请求 1080P，实际使用 720P".to_string(),
            "分辨率：1280x720".to_string(),
            "编码：avc1.64001F".to_string(),
            "类型：video/mp4".to_string(),
        ]
    );
    assert_eq!(stream_choice_lines("Video", &video, 64)[0], "Video：720P");
    let audio = stream(30280, None, None, "u");
    assert_eq!(stream_choice_lines("Audio", &audio, 1), vec!["Audio：QN30280".to_string()]);
}

#[test]
fn file_names_of_a_download() {
    assert_eq!(output_file_name("标题", OutputFormat::Mp4), "标题.mp4");
    assert_eq!(output_file_name("标题", OutputFormat::Mp3), "标题.mp3");
    let stem: String = std::iter::repeat('a').take(50).collect();
    let expected: String = std::iter::repeat('a').take(40).collect::<String>() + "_1700000000";
    assert_eq!(temp_dir_name(&stem, 1700000000), expected);
    assert_eq!(temp_dir_name("短", 0), "短_0");
}

#[test]
fn segment_file_names() {
    assert_eq!(segment_file_name(0), "segment_001.bin");
    assert_eq!(segment_file_name(9), "segment_010.bin");
    assert_eq!(segment_file_name(99), "segment_100.bin");
    assert_eq!(segment_file_name(999), "segment_1000.bin");
}

#[test]
fn durl_plans() {
    assert_eq!(durl_plan(OutputFormat::Mp4, 1).unwrap(), DurlPlan::RemuxSingle);
    assert_eq!(durl_plan(OutputFormat::Mp3, 1).unwrap(), DurlPlan::SingleToMp3);
    assert_eq!(durl_plan(OutputFormat::Mp4, 3).unwrap(), DurlPlan::ConcatMp4);
    assert_eq!(durl_plan(OutputFormat::Mp3, 2).unwrap(), DurlPlan::ConcatMp3);
    let r = durl_plan(OutputFormat::Mp4, 0);
    assert!(matches!(r, Err(Error::NoStreams)));
    assert_eq!(r.unwrap_err().message(), "没有返回 DASH 或 durl 视频流。");
}

#[test]
fn media_download_steps() {
    assert_eq!(next_media_step(2, 0, false), MediaStep::Try(0));
    assert_eq!(next_media_step(2, 1, false), MediaStep::Try(1));
    assert_eq!(next_media_step(2, 1, true), MediaStep::Done);
    assert_eq!(next_media_step(2, 2, false), MediaStep::FailWithLastError);
    assert_eq!(next_media_step(0, 0, false), MediaStep::FailNoUrl);
    assert_eq!(Error::NoDownloadUrl.message(), "没有可用下载地址");
}
