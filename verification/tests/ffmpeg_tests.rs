use bili_downloader::error::Error;
use bili_downloader::ffmpeg::{
    concat_list_text, ffmpeg_failure_message, is_ffmpeg_entry, mux_mp4_args, next_ffmpeg_step,
    remux_audio_m4a_args, remux_concat_args, remux_single_args, transcode_concat_mp3_args,
    transcode_mp3_args, FfmpegJob, FfmpegStage, FfmpegStep,
};

const COMMON: [&str; 4] = ["-y", "-hide_banner", "-loglevel", "error"];

fn expected(rest: &[&str]) -> Vec<String> {
    COMMON.iter().chain(rest.iter()).map(|s| s.to_string()).collect()
}

#[test]
fn mux_arguments() {
    assert_eq!(
        mux_mp4_args("v.m4s", "a.m4s", "out.mp4"),
        expected(&["-i", "v.m4s", "-i", "a.m4s", "-c", "copy", "out.mp4"])
    );
}

#[test]
fn remux_arguments() {
    assert_eq!(
        remux_single_args("seg.bin", "out.mp4"),
        expected(&["-i", "seg.bin", "-c", "copy", "out.mp4"])
    );
    assert_eq!(
        remux_audio_m4a_args("a.m4s", "a.m4a"),
        expected(&["-i", "a.m4s", "-vn", "-c:a", "copy", "-movflags", "+faststart", "a.m4a"])
    );
    assert_eq!(
        remux_concat_args("concat.txt", "out.mp4"),
        expected(&["-f", "concat", "-safe", "0", "-i", "concat.txt", "-c", "copy", "out.mp4"])
    );
}

#[test]
fn transcode_arguments() {
    assert_eq!(
        transcode_mp3_args("a.m4a", "out.mp3"),
        expected(&["-i", "a.m4a", "-vn", "-codec:a", "libmp3lame", "-q:a", "2", "out.mp3"])
    );
    assert_eq!(
        transcode_concat_mp3_args("concat.txt", "out.mp3"),
        expected(&[
            "-f", "concat", "-safe", "0", "-i", "concat.txt", "-vn", "-codec:a", "libmp3lame",
            "-q:a", "2", "out.mp3",
        ])
    );
}

#[test]
fn failure_message_trims_stderr() {
    assert_eq!(
        ffmpeg_failure_message("合并 MP4 失败", "  Invalid data found\r\n"),
        "合并 MP4 失败: Invalid data found"
    );
    assert_eq!(ffmpeg_failure_message("x", ""), "x: ");
}

#[test]
fn concat_list_escapes_paths() {
    let paths = vec!["C:\\tmp\\seg 1.bin".to_string(), "it's.bin".to_string()];
    assert_eq!(
        concat_list_text(&paths),
        "file 'C:/tmp/seg 1.bin'\nfile 'it'\\''s.bin'\n"
    );
    assert_eq!(concat_list_text(&vec![]), "");
}

#[test]
fn ffmpeg_archive_entries() {
    assert!(is_ffmpeg_entry("ffmpeg-7.0-essentials_build/bin/ffmpeg.exe"));
    assert!(is_ffmpeg_entry("build\\bin\\ffmpeg.exe"));
    assert!(is_ffmpeg_entry("bin/ffmpeg.exe"));
    assert!(!is_ffmpeg_entry("ffmpeg-7.0/bin/ffprobe.exe"));
    assert!(!is_ffmpeg_entry("ffmpeg.exe"));
    assert!(!is_ffmpeg_entry("bin/ffmpeg.exe.txt"));
}

#[test]
fn search_for_ffmpeg() {
    assert_eq!(next_ffmpeg_step(FfmpegStage::ProbedGiven, true), FfmpegStep::Use);
    assert_eq!(next_ffmpeg_step(FfmpegStage::ProbedGiven, false), FfmpegStep::ProbeCache);
    assert_eq!(next_ffmpeg_step(FfmpegStage::ProbedCached, true), FfmpegStep::Use);
    assert_eq!(next_ffmpeg_step(FfmpegStage::ProbedCached, false), FfmpegStep::DownloadAndProbe);
    assert_eq!(next_ffmpeg_step(FfmpegStage::ProbedDownloaded, true), FfmpegStep::Use);
    assert_eq!(next_ffmpeg_step(FfmpegStage::ProbedDownloaded, false), FfmpegStep::GiveUp);
}

#[test]
fn messages_of_the_remaining_errors() {
    assert_eq!(Error::NoPages.message(), "视频没有分页数据");
    assert_eq!(Error::FfmpegNotInArchive.message(), "下载的压缩包里没有找到 ffmpeg.exe");
    assert_eq!(
        Error::FfmpegMissingAfterDownload.message(),
        "ffmpeg 已下载但未找到 ffmpeg.exe"
    );
}

#[test]
fn failure_contexts_of_the_jobs() {
    assert_eq!(FfmpegJob::MuxMp4.failure_context(), "合并 MP4 失败");
    assert_eq!(FfmpegJob::RemuxSingle.failure_context(), "重新封装 MP4 失败");
    assert_eq!(FfmpegJob::TranscodeMp3.failure_context(), "转码 MP3 失败");
    assert_eq!(FfmpegJob::RemuxAudioM4a.failure_context(), "重封装音频为 M4A 失败");
    assert_eq!(FfmpegJob::RemuxConcat.failure_context(), "拼接 MP4 失败");
    assert_eq!(FfmpegJob::TranscodeConcatMp3.failure_context(), "转码拼接后的 MP3 失败");
}
