//! What the tool asks `ffmpeg` to do, and how it finds an `ffmpeg` to ask.
use vstd::prelude::*;

use crate::error::push_str;
use crate::models::strings_view;
use crate::text::{
    chars_of, chars_occur_at, occurs_at, string_from_chars, trim, trim_chars, TrimSet,
};

verus! {

/// The options that every run of `ffmpeg` starts with: overwrite, no banner, errors only.
pub open spec fn common_args() -> Seq<Seq<char>> {
    seq!["-y"@, "-hide_banner"@, "-loglevel"@, "error"@]
}

fn push_arg(args: &mut Vec<String>, arg: &str)
    ensures
        strings_view(final(args)@) == strings_view(old(args)@).push(arg@),
{
    let ghost prev = args@;
    args.push(arg.to_owned());
    proof {
        assert(strings_view(args@) =~= strings_view(prev).push(arg@));
    }
}

fn common_arg_list() -> (args: Vec<String>)
    ensures
        strings_view(args@) == common_args(),
{
    let mut args: Vec<String> = Vec::new();
    push_arg(&mut args, "-y");
    push_arg(&mut args, "-hide_banner");
    push_arg(&mut args, "-loglevel");
    push_arg(&mut args, "error");
    proof {
        assert(strings_view(args@) =~= common_args());
    }
    args
}

/// The arguments that merge a video and an audio file into an MP4 without re-encoding.
pub open spec fn mux_mp4_args_of(video: Seq<char>, audio: Seq<char>, output: Seq<char>) -> Seq<
    Seq<char>,
> {
    common_args() + seq!["-i"@, video, "-i"@, audio, "-c"@, "copy"@, output]
}

pub fn mux_mp4_args(video: &str, audio: &str, output: &str) -> (args: Vec<String>)
    ensures
        strings_view(args@) == mux_mp4_args_of(video@, audio@, output@),
{
    let mut args = common_arg_list();
    push_arg(&mut args, "-i");
    push_arg(&mut args, video);
    push_arg(&mut args, "-i");
    push_arg(&mut args, audio);
    push_arg(&mut args, "-c");
    push_arg(&mut args, "copy");
    push_arg(&mut args, output);
    proof {
        assert(strings_view(args@) =~= mux_mp4_args_of(video@, audio@, output@));
    }
    args
}

/// The arguments that re-mux one file into another container without re-encoding.
pub open spec fn remux_single_args_of(input: Seq<char>, output: Seq<char>) -> Seq<Seq<char>> {
    common_args() + seq!["-i"@, input, "-c"@, "copy"@, output]
}

pub fn remux_single_args(input: &str, output: &str) -> (args: Vec<String>)
    ensures
        strings_view(args@) == remux_single_args_of(input@, output@),
{
    let mut args = common_arg_list();
    push_arg(&mut args, "-i");
    push_arg(&mut args, input);
    push_arg(&mut args, "-c");
    push_arg(&mut args, "copy");
    push_arg(&mut args, output);
    proof {
        assert(strings_view(args@) =~= remux_single_args_of(input@, output@));
    }
    args
}

/// The arguments that transcode the audio of a file into MP3 (LAME, VBR quality 2).
pub open spec fn transcode_mp3_args_of(input: Seq<char>, output: Seq<char>) -> Seq<Seq<char>> {
    common_args() + seq!["-i"@, input, "-vn"@, "-codec:a"@, "libmp3lame"@, "-q:a"@, "2"@, output]
}

pub fn transcode_mp3_args(input: &str, output: &str) -> (args: Vec<String>)
    ensures
        strings_view(args@) == transcode_mp3_args_of(input@, output@),
{
    let mut args = common_arg_list();
    push_arg(&mut args, "-i");
    push_arg(&mut args, input);
    push_arg(&mut args, "-vn");
    push_arg(&mut args, "-codec:a");
    push_arg(&mut args, "libmp3lame");
    push_arg(&mut args, "-q:a");
    push_arg(&mut args, "2");
    push_arg(&mut args, output);
    proof {
        assert(strings_view(args@) =~= transcode_mp3_args_of(input@, output@));
    }
    args
}

/// The arguments that copy the audio of a file into an M4A with the index in front.
pub open spec fn remux_audio_m4a_args_of(input: Seq<char>, output: Seq<char>) -> Seq<Seq<char>> {
    common_args() + seq![
        "-i"@,
        input,
        "-vn"@,
        "-c:a"@,
        "copy"@,
        "-movflags"@,
        "+faststart"@,
        output,
    ]
}

pub fn remux_audio_m4a_args(input: &str, output: &str) -> (args: Vec<String>)
    ensures
        strings_view(args@) == remux_audio_m4a_args_of(input@, output@),
{
    let mut args = common_arg_list();
    push_arg(&mut args, "-i");
    push_arg(&mut args, input);
    push_arg(&mut args, "-vn");
    push_arg(&mut args, "-c:a");
    push_arg(&mut args, "copy");
    push_arg(&mut args, "-movflags");
    push_arg(&mut args, "+faststart");
    push_arg(&mut args, output);
    proof {
        assert(strings_view(args@) =~= remux_audio_m4a_args_of(input@, output@));
    }
    args
}

/// The arguments that concatenate the files of a concat list without re-encoding.
pub open spec fn remux_concat_args_of(list: Seq<char>, output: Seq<char>) -> Seq<Seq<char>> {
    common_args() + seq!["-f"@, "concat"@, "-safe"@, "0"@, "-i"@, list, "-c"@, "copy"@, output]
}

pub fn remux_concat_args(list: &str, output: &str) -> (args: Vec<String>)
    ensures
        strings_view(args@) == remux_concat_args_of(list@, output@),
{
    let mut args = common_arg_list();
    push_arg(&mut args, "-f");
    push_arg(&mut args, "concat");
    push_arg(&mut args, "-safe");
    push_arg(&mut args, "0");
    push_arg(&mut args, "-i");
    push_arg(&mut args, list);
    push_arg(&mut args, "-c");
    push_arg(&mut args, "copy");
    push_arg(&mut args, output);
    proof {
        assert(strings_view(args@) =~= remux_concat_args_of(list@, output@));
    }
    args
}

/// The arguments that concatenate the files of a concat list and transcode the audio into MP3.
pub open spec fn transcode_concat_mp3_args_of(list: Seq<char>, output: Seq<char>) -> Seq<Seq<char>> {
    common_args() + seq![
        "-f"@,
        "concat"@,
        "-safe"@,
        "0"@,
        "-i"@,
        list,
        "-vn"@,
        "-codec:a"@,
        "libmp3lame"@,
        "-q:a"@,
        "2"@,
        output,
    ]
}

pub fn transcode_concat_mp3_args(list: &str, output: &str) -> (args: Vec<String>)
    ensures
        strings_view(args@) == transcode_concat_mp3_args_of(list@, output@),
{
    let mut args = common_arg_list();
    push_arg(&mut args, "-f");
    push_arg(&mut args, "concat");
    push_arg(&mut args, "-safe");
    push_arg(&mut args, "0");
    push_arg(&mut args, "-i");
    push_arg(&mut args, list);
    push_arg(&mut args, "-vn");
    push_arg(&mut args, "-codec:a");
    push_arg(&mut args, "libmp3lame");
    push_arg(&mut args, "-q:a");
    push_arg(&mut args, "2");
    push_arg(&mut args, output);
    proof {
        assert(strings_view(args@) =~= transcode_concat_mp3_args_of(list@, output@));
    }
    args
}

/// The jobs that the tool gives `ffmpeg`.
#[derive(Debug, Clone, Copy, PartialEq, Eq, Structural)]
pub enum FfmpegJob {
    MuxMp4,
    RemuxSingle,
    TranscodeMp3,
    RemuxAudioM4a,
    RemuxConcat,
    TranscodeConcatMp3,
}

pub open spec fn failure_context_of(job: FfmpegJob) -> Seq<char> {
    match job {
        FfmpegJob::MuxMp4 => "合并 MP4 失败"@,
        FfmpegJob::RemuxSingle => "重新封装 MP4 失败"@,
        FfmpegJob::TranscodeMp3 => "转码 MP3 失败"@,
        FfmpegJob::RemuxAudioM4a => "重封装音频为 M4A 失败"@,
        FfmpegJob::RemuxConcat => "拼接 MP4 失败"@,
        FfmpegJob::TranscodeConcatMp3 => "转码拼接后的 MP3 失败"@,
    }
}

impl FfmpegJob {
    /// What failed, for the message of a failed run of this job.
    pub fn failure_context(self) -> (context: &'static str)
        ensures
            context@ == failure_context_of(self),
    {
        match self {
            FfmpegJob::MuxMp4 => "合并 MP4 失败",
            FfmpegJob::RemuxSingle => "重新封装 MP4 失败",
            FfmpegJob::TranscodeMp3 => "转码 MP3 失败",
            FfmpegJob::RemuxAudioM4a => "重封装音频为 M4A 失败",
            FfmpegJob::RemuxConcat => "拼接 MP4 失败",
            FfmpegJob::TranscodeConcatMp3 => "转码拼接后的 MP3 失败",
        }
    }
}

/// The message of a failed run: what failed, `: `, and what `ffmpeg` wrote to
/// standard error, trimmed.
pub open spec fn failure_message_of(context: Seq<char>, stderr: Seq<char>) -> Seq<char> {
    context + ": "@ + trim(stderr)
}

pub fn ffmpeg_failure_message(context: &str, stderr: &str) -> (message: String)
    ensures
        message@ == failure_message_of(context@, stderr@),
{
    let mut out: Vec<char> = Vec::new();
    push_str(&mut out, context);
    push_str(&mut out, ": ");
    let err = chars_of(stderr);
    let trimmed = trim_chars(&err, TrimSet::Whitespace);
    crate::text::extend_chars(&mut out, &trimmed);
    string_from_chars(&out)
}

// ---------------------------------------------------------------------------
// Concat lists
// ---------------------------------------------------------------------------

/// A path as the concat demuxer reads it inside single quotes: backslashes become
/// slashes and each quote becomes `'\''`.
pub open spec fn concat_escaped(path: Seq<char>) -> Seq<char>
    decreases path.len(),
{
    if path.len() == 0 {
        Seq::empty()
    } else {
        let c = path.last();
        concat_escaped(path.drop_last()) + if c == '\\' {
            seq!['/']
        } else if c == '\'' {
            seq!['\'', '\\', '\'', '\'']
        } else {
            seq![c]
        }
    }
}

/// The concat list of the paths: one `file '<path>'` line each.
pub open spec fn concat_list_of(paths: Seq<Seq<char>>) -> Seq<char>
    decreases paths.len(),
{
    if paths.len() == 0 {
        Seq::empty()
    } else {
        concat_list_of(paths.drop_last()) + "file '"@ + concat_escaped(paths.last()) + "'\n"@
    }
}

fn push_escaped(out: &mut Vec<char>, path: &str)
    ensures
        final(out)@ == old(out)@ + concat_escaped(path@),
{
    let cs = chars_of(path);
    let mut i: usize = 0;
    while i < cs.len()
        invariant
            i <= cs@.len(),
            cs@ == path@,
            out@ == old(out)@ + concat_escaped(cs@.take(i as int)),
        decreases cs.len() - i,
    {
        let c = cs[i];
        proof {
            assert(cs@.take(i + 1).drop_last() =~= cs@.take(i as int));
        }
        if c == '\\' {
            out.push('/');
        } else if c == '\'' {
            out.push('\'');
            out.push('\\');
            out.push('\'');
            out.push('\'');
        } else {
            out.push(c);
        }
        proof {
            assert(out@ =~= old(out)@ + concat_escaped(cs@.take(i + 1)));
        }
        i = i + 1;
    }
    proof {
        assert(cs@.take(cs@.len() as int) =~= cs@);
    }
}

/// The text of the concat list that `ffmpeg` reads the segments from.
pub fn concat_list_text(paths: &Vec<String>) -> (text: String)
    ensures
        text@ == concat_list_of(strings_view(paths@)),
{
    let mut out: Vec<char> = Vec::new();
    let mut i: usize = 0;
    while i < paths.len()
        invariant
            i <= paths@.len(),
            out@ == concat_list_of(strings_view(paths@).take(i as int)),
        decreases paths.len() - i,
    {
        proof {
            let t = strings_view(paths@).take(i + 1);
            assert(t.drop_last() =~= strings_view(paths@).take(i as int));
            assert(t.last() == paths@[i as int]@);
        }
        push_str(&mut out, "file '");
        push_escaped(&mut out, paths[i].as_str());
        push_str(&mut out, "'\n");
        proof {
            assert(out@ =~= concat_list_of(strings_view(paths@).take(i + 1)));
        }
        i = i + 1;
    }
    proof {
        assert(strings_view(paths@).take(paths@.len() as int) =~= strings_view(paths@));
    }
    string_from_chars(&out)
}

// ---------------------------------------------------------------------------
// Finding ffmpeg
// ---------------------------------------------------------------------------

/// A name with backslashes turned into slashes.
pub open spec fn forward_slashes(s: Seq<char>) -> Seq<char> {
    Seq::new(
        s.len(),
        |i: int|
            if s[i] == '\\' {
                '/'
            } else {
                s[i]
            },
    )
}

/// Whether an entry of the downloaded archive is the `ffmpeg.exe` to extract: its
/// name, with backslashes as slashes, ends in `bin/ffmpeg.exe`.
pub open spec fn is_ffmpeg_entry_name(name: Seq<char>) -> bool {
    let n = forward_slashes(name);
    n.len() >= "bin/ffmpeg.exe"@.len() && occurs_at(
        n,
        "bin/ffmpeg.exe"@,
        n.len() - "bin/ffmpeg.exe"@.len(),
    )
}

/// Whether an entry of the downloaded archive is the `ffmpeg.exe` to extract.
pub fn is_ffmpeg_entry(name: &str) -> (r: bool)
    ensures
        r == is_ffmpeg_entry_name(name@),
{
    let cs = chars_of(name);
    let mut n: Vec<char> = Vec::new();
    let mut i: usize = 0;
    while i < cs.len()
        invariant
            i <= cs@.len(),
            cs@ == name@,
            n@ =~= forward_slashes(cs@).take(i as int),
        decreases cs.len() - i,
    {
        if cs[i] == '\\' {
            n.push('/');
        } else {
            n.push(cs[i]);
        }
        i = i + 1;
    }
    proof {
        assert(forward_slashes(cs@).take(cs@.len() as int) =~= forward_slashes(cs@));
        assert(n@ == forward_slashes(name@));
    }
    let suffix = chars_of("bin/ffmpeg.exe");
    if n.len() < suffix.len() {
        return false;
    }
    chars_occur_at(&n, &suffix, n.len() - suffix.len())
}

/// Where the search for a working `ffmpeg` stands.
#[derive(Debug, Clone, Copy, PartialEq, Eq, Structural)]
pub enum FfmpegStage {
    /// The `ffmpeg` given on the command line was probed.
    ProbedGiven,
    /// The `ffmpeg.exe` in the cache directory was probed.
    ProbedCached,
    /// The `ffmpeg.exe` extracted from a fresh download was probed.
    ProbedDownloaded,
}

/// What to do next in the search for a working `ffmpeg`.
#[derive(Debug, Clone, Copy, PartialEq, Eq, Structural)]
pub enum FfmpegStep {
    /// Use the `ffmpeg` just probed.
    Use,
    /// Create the cache directory and probe the `ffmpeg.exe` in it.
    ProbeCache,
    /// Download the archive, extract `ffmpeg.exe` into the cache and probe it.
    DownloadAndProbe,
    /// Give up: the downloaded `ffmpeg.exe` does not run.
    GiveUp,
}

/// The next step after a probe at `stage` that found a working `ffmpeg` or not:
/// the given one first, then the cached one, then a fresh download.
pub fn next_ffmpeg_step(stage: FfmpegStage, found: bool) -> (step: FfmpegStep)
    ensures
        found ==> step == FfmpegStep::Use,
        !found && stage == FfmpegStage::ProbedGiven ==> step == FfmpegStep::ProbeCache,
        !found && stage == FfmpegStage::ProbedCached ==> step == FfmpegStep::DownloadAndProbe,
        !found && stage == FfmpegStage::ProbedDownloaded ==> step == FfmpegStep::GiveUp,
{
    if found {
        return FfmpegStep::Use;
    }
    match stage {
        FfmpegStage::ProbedGiven => FfmpegStep::ProbeCache,
        FfmpegStage::ProbedCached => FfmpegStep::DownloadAndProbe,
        FfmpegStage::ProbedDownloaded => FfmpegStep::GiveUp,
    }
}

} // verus!
