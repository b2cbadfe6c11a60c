//! The errors of the library and the messages the tool shows for them.
use vstd::prelude::*;

use crate::number::{push_decimal, push_signed_decimal, decimal, signed_decimal};
use crate::text::{chars_of, extend_chars, string_from_chars};

verus! {

/// Everything that can go wrong in the library's decisions.
#[derive(Debug)]
pub enum Error {
    /// The API answered with a non-zero `code`.
    Api { code: i64, message: String },
    /// The API answered `code == 0` without a `data` object.
    MissingData,
    /// An `av` number was found but does not fit in a `u64`.
    InvalidAv,
    /// The input is all ASCII digits but is not a `u64`.
    InvalidNumericAid,
    /// The input holds neither a BV id nor an av number.
    NoVideoId,
    /// The cookie file holds no usable cookie.
    EmptyCookieFile,
    /// The cookie cannot be sent as an HTTP header value.
    InvalidCookieHeader,
    /// The interactive input was empty.
    EmptyInput,
    /// The quality choice is not a number.
    InvalidQualityChoice { choice: String },
    /// The quality choice is outside `1..=count`.
    QualityChoiceOutOfRange { count: usize },
    /// The format choice is neither 1 nor 2.
    InvalidFormatChoice,
    /// The requested page does not exist.
    PageNotFound { page: usize, count: usize },
    /// The video has no pages.
    NoPages,
    /// The DASH answer has no video stream.
    NoVideoStream,
    /// The DASH answer has no audio stream.
    NoAudioStream,
    /// The answer has neither DASH streams nor durl segments.
    NoStreams,
    /// No URL was left to download from.
    NoDownloadUrl,
    /// The downloaded archive holds no `bin/ffmpeg.exe`.
    FfmpegNotInArchive,
    /// After download and extraction `ffmpeg.exe` still does not run.
    FfmpegMissingAfterDownload,
}

/// The message the tool prints for an error.
pub open spec fn error_message(e: Error) -> Seq<char> {
    match e {
        Error::Api { code, message } => "Bilibili API error "@ + signed_decimal(code as int) + ": "@
            + message@,
        Error::MissingData => "B 站接口没有返回数据"@,
        Error::InvalidAv => "av 号无效"@,
        Error::InvalidNumericAid => "数字 aid 无效"@,
        Error::NoVideoId => "输入里没有找到 BV 号或 av 号。"@,
        Error::EmptyCookieFile => "Cookie 文件里没有可用 Cookie。"@,
        Error::InvalidCookieHeader => "Cookie contains invalid characters"@,
        Error::EmptyInput => "未输入内容。"@,
        Error::InvalidQualityChoice { choice } => "清晰度选择无效："@ + choice@,
        Error::QualityChoiceOutOfRange { count } => "清晰度编号必须在 1 到 "@ + decimal(count as nat)
            + " 之间。"@,
        Error::InvalidFormatChoice => "格式编号只能是 1 或 2。"@,
        Error::PageNotFound { page, count } => "第 "@ + decimal(page as nat) + " P 不存在。这个视频共 "@
            + decimal(count as nat) + " P。"@,
        Error::NoPages => "视频没有分页数据"@,
        Error::NoVideoStream => "No video stream was returned."@,
        Error::NoAudioStream => "No audio stream was returned."@,
        Error::NoStreams => "没有返回 DASH 或 durl 视频流。"@,
        Error::NoDownloadUrl => "没有可用下载地址"@,
        Error::FfmpegNotInArchive => "下载的压缩包里没有找到 ffmpeg.exe"@,
        Error::FfmpegMissingAfterDownload => "ffmpeg 已下载但未找到 ffmpeg.exe"@,
    }
}

/// Appends the characters of a string slice.
pub fn push_str(out: &mut Vec<char>, s: &str)
    ensures
        final(out)@ == old(out)@ + s@,
{
    let cs = chars_of(s);
    extend_chars(out, &cs);
}

impl Error {
    /// The message the tool prints for this error.
    pub fn message(&self) -> (m: String)
        ensures
            m@ == error_message(*self),
    {
        let mut out: Vec<char> = Vec::new();
        match self {
            Error::Api { code, message } => {
                push_str(&mut out, "Bilibili API error ");
                push_signed_decimal(&mut out, *code);
                push_str(&mut out, ": ");
                push_str(&mut out, message.as_str());
            },
            Error::MissingData => push_str(&mut out, "B 站接口没有返回数据"),
            Error::InvalidAv => push_str(&mut out, "av 号无效"),
            Error::InvalidNumericAid => push_str(&mut out, "数字 aid 无效"),
            Error::NoVideoId => push_str(&mut out, "输入里没有找到 BV 号或 av 号。"),
            Error::EmptyCookieFile => push_str(&mut out, "Cookie 文件里没有可用 Cookie。"),
            Error::InvalidCookieHeader => push_str(&mut out, "Cookie contains invalid characters"),
            Error::EmptyInput => push_str(&mut out, "未输入内容。"),
            Error::InvalidQualityChoice { choice } => {
                push_str(&mut out, "清晰度选择无效：");
                push_str(&mut out, choice.as_str());
            },
            Error::QualityChoiceOutOfRange { count } => {
                push_str(&mut out, "清晰度编号必须在 1 到 ");
                push_decimal(&mut out, *count as u64);
                push_str(&mut out, " 之间。");
            },
            Error::InvalidFormatChoice => push_str(&mut out, "格式编号只能是 1 或 2。"),
            Error::PageNotFound { page, count } => {
                push_str(&mut out, "第 ");
                push_decimal(&mut out, *page as u64);
                push_str(&mut out, " P 不存在。这个视频共 ");
                push_decimal(&mut out, *count as u64);
                push_str(&mut out, " P。");
            },
            Error::NoPages => push_str(&mut out, "视频没有分页数据"),
            Error::NoVideoStream => push_str(&mut out, "No video stream was returned."),
            Error::NoAudioStream => push_str(&mut out, "No audio stream was returned."),
            Error::NoStreams => push_str(&mut out, "没有返回 DASH 或 durl 视频流。"),
            Error::NoDownloadUrl => push_str(&mut out, "没有可用下载地址"),
            Error::FfmpegNotInArchive => push_str(&mut out, "下载的压缩包里没有找到 ffmpeg.exe"),
            Error::FfmpegMissingAfterDownload => push_str(&mut out, "ffmpeg 已下载但未找到 ffmpeg.exe"),
        }
        proof {
            assert(out@ =~= error_message(*self));
        }
        string_from_chars(&out)
    }
}

} // verus!
