//! The decisions of a download: which pages, which streams, which files.
use vstd::prelude::*;

use crate::cli::OutputFormat;
use crate::error::{push_str, Error};
use crate::models::{strings_view, DashStream};
use crate::number::{decimal, push_decimal};
use crate::text::{
    ascii_lower, ascii_lowercase, chars_equal, chars_of, contains_chars, extend_chars, has_infix,
    string_from_chars,
};
use crate::models::{PageData, ViewData};
use crate::number::lemma_decimal_digits;
use crate::util::{
    is_invalid_filename_char, lemma_output_stem_valid, output_stem, quality_label,
    quality_label_of, truncate_chars, truncated, valid_filename_chars,
};

verus! {

// ---------------------------------------------------------------------------
// Pages
// ---------------------------------------------------------------------------

/// The pages to download, by index: the selected page where one was chosen (page 0
/// counting as page 1), all of them for a multi-page video where none was, else the
/// first page; an error when the page to download does not exist.
pub open spec fn pages_ok(page_count: nat, selected: Option<usize>, r: Result<Vec<usize>, Error>) -> bool {
    if selected is None && page_count > 1 {
        r matches Ok(v) && v@ == Seq::new(page_count, |i: int| i as usize)
    } else {
        let page = match selected {
            Some(p) => p as nat,
            None => 1nat,
        };
        let index: nat = if page == 0 {
            0
        } else {
            (page - 1) as nat
        };
        if index < page_count {
            r matches Ok(v) && v@ == seq![index as usize]
        } else {
            r matches Err(Error::PageNotFound { page: p, count }) && p == page && count == page_count
        }
    }
}

/// Without a chosen page, every page of a multi-page video is downloaded, each once
/// and in order; a chosen page that exists is downloaded alone; a chosen page beyond
/// the last is an error that names it and the number of pages.
pub proof fn lemma_pages_to_download(
    page_count: nat,
    selected: Option<usize>,
    r: Result<Vec<usize>, Error>,
)
    requires
        page_count <= usize::MAX,
        pages_ok(page_count, selected, r),
    ensures
        selected is None && page_count > 1 ==> (r matches Ok(v) && v@.len() == page_count
            && forall|i: int| 0 <= i < page_count ==> #[trigger] v@[i] == i),
        selected is Some && 1 <= selected->0 <= page_count ==> (r matches Ok(v) && v@.len() == 1
            && v@[0] == selected->0 - 1),
        selected is Some && selected->0 > page_count ==> (r matches Err(
            Error::PageNotFound { page, count },
        ) && page == selected->0 && count == page_count),
{
    if selected is None && page_count > 1 {
        let v = r->Ok_0;
        assert forall|i: int| 0 <= i < page_count implies #[trigger] v@[i] == i by {
            assert(v@[i] == i as usize);
        }
    }
}

/// The indices of the pages to download.
pub fn pages_to_download(page_count: usize, selected_page: Option<usize>) -> (r: Result<
    Vec<usize>,
    Error,
>)
    ensures
        pages_ok(page_count as nat, selected_page, r),
        selected_page is None && page_count > 1 ==> (r matches Ok(v) && v@.len() == page_count
            && forall|i: int| 0 <= i < page_count ==> #[trigger] v@[i] == i),
        selected_page is Some && 1 <= selected_page->0 <= page_count ==> (r matches Ok(v)
            && v@.len() == 1 && v@[0] == selected_page->0 - 1),
        selected_page is Some && selected_page->0 > page_count ==> (r matches Err(
            Error::PageNotFound { page, count },
        ) && page == selected_page->0 && count == page_count),
{
    if selected_page.is_none() && page_count > 1 {
        let mut all: Vec<usize> = Vec::new();
        let mut i: usize = 0;
        while i < page_count
            invariant
                i <= page_count,
                all@ =~= Seq::new(i as nat, |k: int| k as usize),
            decreases page_count - i,
        {
            all.push(i);
            i = i + 1;
        }
        return Ok(all);
    }
    let page = match selected_page {
        Some(p) => p,
        None => 1,
    };
    let index = if page == 0 {
        0
    } else {
        page - 1
    };
    if index < page_count {
        let mut one: Vec<usize> = Vec::new();
        one.push(index);
        proof {
            assert(one@ =~= seq![index]);
        }
        Ok(one)
    } else {
        Err(Error::PageNotFound { page, count: page_count })
    }
}

/// The index of the page whose streams are looked at first: the first page; an error
/// for a video without pages.
pub fn first_page_index(page_count: usize) -> (r: Result<usize, Error>)
    ensures
        page_count > 0 ==> r == Ok::<usize, Error>(0),
        page_count == 0 ==> (r matches Err(Error::NoPages)),
{
    if page_count == 0 {
        Err(Error::NoPages)
    } else {
        Ok(0)
    }
}

// ---------------------------------------------------------------------------
// Streams
// ---------------------------------------------------------------------------

/// How much a codec is preferred: AVC over HEVC over AV1 over anything else.
pub open spec fn codec_rank(codecs: Option<String>) -> u8 {
    match codecs {
        None => 0,
        Some(c) => {
            let l = ascii_lower(c@);
            if has_infix(l, "avc"@) {
                3
            } else if has_infix(l, "hev"@) || has_infix(l, "hvc"@) {
                2
            } else if has_infix(l, "av01"@) {
                1
            } else {
                0
            }
        },
    }
}

/// How much the codec of a stream is preferred.
pub fn codec_preference(stream: &DashStream) -> (rank: u8)
    ensures
        rank == codec_rank(stream.codecs),
{
    match &stream.codecs {
        None => 0,
        Some(c) => {
            let cs = chars_of(c.as_str());
            let l = ascii_lowercase(&cs);
            if contains_chars(&l, &chars_of("avc")) {
                3
            } else if contains_chars(&l, &chars_of("hev")) || contains_chars(&l, &chars_of("hvc")) {
                2
            } else if contains_chars(&l, &chars_of("av01")) {
                1
            } else {
                0
            }
        },
    }
}

/// The bandwidth of a stream, zero when unknown.
pub open spec fn bandwidth_of(s: DashStream) -> u64 {
    match s.bandwidth {
        Some(b) => b,
        None => 0,
    }
}

/// Lexicographic order on triples.
pub open spec fn lex_less(a: (int, int, int), b: (int, int, int)) -> bool {
    a.0 < b.0 || (a.0 == b.0 && (a.1 < b.1 || (a.1 == b.1 && a.2 < b.2)))
}

/// What a video stream is ranked by: quality number, codec preference, bandwidth.
pub open spec fn video_key(s: DashStream) -> (int, int, int) {
    (s.id as int, codec_rank(s.codecs) as int, bandwidth_of(s) as int)
}

/// What the fallback ranks by, smallest first: quality number, then the most
/// preferred codec, then the largest bandwidth.
pub open spec fn fallback_key(s: DashStream) -> (int, int, int) {
    (s.id as int, -(codec_rank(s.codecs) as int), -(bandwidth_of(s) as int))
}

/// Whether a stream is no better than the quality asked for.
pub open spec fn within_target(s: DashStream, target_qn: u32) -> bool {
    s.id <= target_qn
}

/// Whether some stream is no better than the quality asked for.
pub open spec fn any_within_target(streams: Seq<DashStream>, target_qn: u32) -> bool {
    exists|j: int| 0 <= j < streams.len() && within_target(#[trigger] streams[j], target_qn)
}

/// The video stream to download is the `i`-th: among the streams no better than
/// the quality asked for, the last of the highest rank (`Iterator::max_by_key`);
/// where there is none, the first of the lowest fallback rank (`Iterator::min_by_key`).
pub open spec fn is_video_choice(streams: Seq<DashStream>, target_qn: u32, i: int) -> bool {
    &&& 0 <= i < streams.len()
    &&& if any_within_target(streams, target_qn) {
        &&& within_target(streams[i], target_qn)
        &&& forall|j: int|
            0 <= j < streams.len() && within_target(#[trigger] streams[j], target_qn) ==> {
                &&& !lex_less(video_key(streams[i]), video_key(streams[j]))
                &&& j > i ==> lex_less(video_key(streams[j]), video_key(streams[i]))
            }
    } else {
        forall|j: int|
            0 <= j < streams.len() ==> {
                &&& !lex_less(fallback_key(#[trigger] streams[j]), fallback_key(streams[i]))
                &&& j < i ==> lex_less(fallback_key(streams[i]), fallback_key(streams[j]))
            }
    }
}

fn video_key_less(a: &DashStream, b: &DashStream) -> (r: bool)
    ensures
        r == lex_less(video_key(*a), video_key(*b)),
{
    let pa = codec_preference(a);
    let pb = codec_preference(b);
    let ba = match a.bandwidth {
        Some(x) => x,
        None => 0,
    };
    let bb = match b.bandwidth {
        Some(x) => x,
        None => 0,
    };
    a.id < b.id || (a.id == b.id && (pa < pb || (pa == pb && ba < bb)))
}

fn fallback_key_less(a: &DashStream, b: &DashStream) -> (r: bool)
    ensures
        r == lex_less(fallback_key(*a), fallback_key(*b)),
{
    let pa = codec_preference(a);
    let pb = codec_preference(b);
    let ba = match a.bandwidth {
        Some(x) => x,
        None => 0,
    };
    let bb = match b.bandwidth {
        Some(x) => x,
        None => 0,
    };
    a.id < b.id || (a.id == b.id && (pa > pb || (pa == pb && ba > bb)))
}

/// The video stream to download: the best stream no better than the quality asked
/// for, else the lowest there is; an error when there is no stream.
pub fn select_video_stream(streams: &[DashStream], target_qn: u32) -> (r: Result<&DashStream, Error>)
    ensures
        streams@.len() == 0 ==> (r matches Err(Error::NoVideoStream)),
        streams@.len() > 0 ==> (r matches Ok(s) && exists|i: int|
            is_video_choice(streams@, target_qn, i) && streams@[i] == *s),
        r is Ok && any_within_target(streams@, target_qn) ==> ({
            let c = r->Ok_0;
            c.id <= target_qn && forall|j: int|
            #![trigger streams@[j]]
            0 <= j < streams@.len() && streams@[j].id <= target_qn ==> {
                &&& streams@[j].id <= c.id
                &&& streams@[j].id == c.id ==> codec_rank(streams@[j].codecs) <= codec_rank(c.codecs)
                &&& streams@[j].id == c.id && codec_rank(streams@[j].codecs) == codec_rank(c.codecs)
                    ==> bandwidth_of(streams@[j]) <= bandwidth_of(*c)
            }
        }),
        r is Ok && !any_within_target(streams@, target_qn) ==> ({
            let c = r->Ok_0;
            forall|j: int|
            #![trigger streams@[j]]
            0 <= j < streams@.len() ==> {
                &&& c.id <= streams@[j].id
                &&& streams@[j].id == c.id ==> codec_rank(streams@[j].codecs) <= codec_rank(c.codecs)
                &&& streams@[j].id == c.id && codec_rank(streams@[j].codecs) == codec_rank(c.codecs)
                    ==> bandwidth_of(streams@[j]) <= bandwidth_of(*c)
            }
        }),
{
    let mut best: Option<usize> = None;
    let mut j: usize = 0;
    while j < streams.len()
        invariant
            j <= streams@.len(),
            best matches Some(b) ==> b < j && within_target(streams@[b as int], target_qn),
            best is None ==> forall|k: int|
                0 <= k < j ==> !within_target(#[trigger] streams@[k], target_qn),
            best matches Some(b) ==> forall|k: int|
                0 <= k < j && within_target(#[trigger] streams@[k], target_qn) ==> {
                    &&& !lex_less(video_key(streams@[b as int]), video_key(streams@[k]))
                    &&& k > b ==> lex_less(video_key(streams@[k]), video_key(streams@[b as int]))
                },
        decreases streams.len() - j,
    {
        if streams[j].id <= target_qn {
            match best {
                None => {
                    best = Some(j);
                },
                Some(b) => {
                    if !video_key_less(&streams[j], &streams[b]) {
                        best = Some(j);
                    }
                },
            }
        }
        j = j + 1;
    }
    if let Some(b) = best {
        proof {
            assert(within_target(streams@[b as int], target_qn));
            assert(any_within_target(streams@, target_qn));
            assert(is_video_choice(streams@, target_qn, b as int));
            lemma_video_choice_order(streams@, target_qn, b as int);
        }
        return Ok(&streams[b]);
    }
    if streams.len() == 0 {
        return Err(Error::NoVideoStream);
    }
    let mut low: usize = 0;
    let mut k: usize = 1;
    while k < streams.len()
        invariant
            1 <= k <= streams@.len(),
            low < k,
            forall|m: int|
                0 <= m < k ==> {
                    &&& !lex_less(fallback_key(#[trigger] streams@[m]), fallback_key(streams@[low as int]))
                    &&& m < low ==> lex_less(fallback_key(streams@[low as int]), fallback_key(streams@[m]))
                },
        decreases streams.len() - k,
    {
        if fallback_key_less(&streams[k], &streams[low]) {
            low = k;
        }
        k = k + 1;
    }
    proof {
        assert(!any_within_target(streams@, target_qn));
        assert(is_video_choice(streams@, target_qn, low as int));
        lemma_video_choice_order(streams@, target_qn, low as int);
    }
    Ok(&streams[low])
}

/// The order of the video choice, in quality number, codec preference and bandwidth:
/// among the streams no better than the quality asked for, none has a higher quality
/// number than the chosen one, none of the same number a more preferred codec, and
/// none of the same number and codec a larger bandwidth; where there is no such
/// stream, the chosen one has the lowest quality number, and among those the most
/// preferred codec and then the largest bandwidth.
pub proof fn lemma_video_choice_order(streams: Seq<DashStream>, target_qn: u32, i: int)
    requires
        is_video_choice(streams, target_qn, i),
    ensures
        any_within_target(streams, target_qn) ==> streams[i].id <= target_qn && forall|j: int|
            #![trigger streams[j]]
            0 <= j < streams.len() && streams[j].id <= target_qn ==> {
                &&& streams[j].id <= streams[i].id
                &&& streams[j].id == streams[i].id ==> codec_rank(streams[j].codecs) <= codec_rank(
                    streams[i].codecs,
                )
                &&& streams[j].id == streams[i].id && codec_rank(streams[j].codecs) == codec_rank(
                    streams[i].codecs,
                ) ==> bandwidth_of(streams[j]) <= bandwidth_of(streams[i])
            },
        !any_within_target(streams, target_qn) ==> forall|j: int|
            #![trigger streams[j]]
            0 <= j < streams.len() ==> {
                &&& streams[i].id <= streams[j].id
                &&& streams[j].id == streams[i].id ==> codec_rank(streams[j].codecs) <= codec_rank(
                    streams[i].codecs,
                )
                &&& streams[j].id == streams[i].id && codec_rank(streams[j].codecs) == codec_rank(
                    streams[i].codecs,
                ) ==> bandwidth_of(streams[j]) <= bandwidth_of(streams[i])
            },
{
    if any_within_target(streams, target_qn) {
        assert forall|j: int|
            #![trigger streams[j]]
            0 <= j < streams.len() && streams[j].id <= target_qn implies {
                &&& streams[j].id <= streams[i].id
                &&& streams[j].id == streams[i].id ==> codec_rank(streams[j].codecs) <= codec_rank(
                    streams[i].codecs,
                )
                &&& streams[j].id == streams[i].id && codec_rank(streams[j].codecs) == codec_rank(
                    streams[i].codecs,
                ) ==> bandwidth_of(streams[j]) <= bandwidth_of(streams[i])
            } by {
            assert(within_target(streams[j], target_qn));
            assert(!lex_less(video_key(streams[i]), video_key(streams[j])));
        }
    } else {
        assert forall|j: int|
            #![trigger streams[j]]
            0 <= j < streams.len() implies {
                &&& streams[i].id <= streams[j].id
                &&& streams[j].id == streams[i].id ==> codec_rank(streams[j].codecs) <= codec_rank(
                    streams[i].codecs,
                )
                &&& streams[j].id == streams[i].id && codec_rank(streams[j].codecs) == codec_rank(
                    streams[i].codecs,
                ) ==> bandwidth_of(streams[j]) <= bandwidth_of(streams[i])
            } by {
            assert(!lex_less(fallback_key(streams[j]), fallback_key(streams[i])));
        }
    }
}

/// The codec preferences: a codec string that names AVC ranks 3, else one that names
/// HEVC (`hev` or `hvc`) ranks 2, else one that names AV1 (`av01`) ranks 1, else 0;
/// letter case does not matter, and a stream without codecs ranks 0.
pub proof fn lemma_codec_ranks(c: String)
    ensures
        codec_rank(None) == 0,
        has_infix(ascii_lower(c@), "avc"@) ==> codec_rank(Some(c)) == 3,
        !has_infix(ascii_lower(c@), "avc"@) && (has_infix(ascii_lower(c@), "hev"@) || has_infix(
            ascii_lower(c@),
            "hvc"@,
        )) ==> codec_rank(Some(c)) == 2,
        !has_infix(ascii_lower(c@), "avc"@) && !has_infix(ascii_lower(c@), "hev"@) && !has_infix(
            ascii_lower(c@),
            "hvc"@,
        ) && has_infix(ascii_lower(c@), "av01"@) ==> codec_rank(Some(c)) == 1,
        !has_infix(ascii_lower(c@), "avc"@) && !has_infix(ascii_lower(c@), "hev"@) && !has_infix(
            ascii_lower(c@),
            "hvc"@,
        ) && !has_infix(ascii_lower(c@), "av01"@) ==> codec_rank(Some(c)) == 0,
{
}

/// The video choice is unique: two streams that both meet the rule are the same.
pub proof fn lemma_video_choice_unique(streams: Seq<DashStream>, target_qn: u32, i: int, j: int)
    requires
        is_video_choice(streams, target_qn, i),
        is_video_choice(streams, target_qn, j),
    ensures
        i == j,
{
    if i != j {
        if any_within_target(streams, target_qn) {
            assert(within_target(streams[j], target_qn));
            assert(within_target(streams[i], target_qn));
        } else {
            let a = fallback_key(streams[i]);
            let b = fallback_key(streams[j]);
            assert(!lex_less(b, a));
            assert(!lex_less(a, b));
        }
    }
}

/// Where some stream is no better than the quality asked for, the chosen one is
/// such a stream and none of those is ranked higher; where none is, no stream has
/// a lower quality number than the chosen one.
pub proof fn lemma_video_choice_falls_back_downward(
    streams: Seq<DashStream>,
    target_qn: u32,
    i: int,
)
    requires
        is_video_choice(streams, target_qn, i),
    ensures
        any_within_target(streams, target_qn) ==> streams[i].id <= target_qn && forall|j: int|
            0 <= j < streams.len() && streams[j].id <= target_qn ==> streams[j].id
                <= streams[i].id,
        !any_within_target(streams, target_qn) ==> forall|j: int|
            0 <= j < streams.len() ==> streams[i].id <= streams[j].id,
{
    if any_within_target(streams, target_qn) {
        assert forall|j: int| 0 <= j < streams.len() && streams[j].id <= target_qn implies streams[j].id
            <= streams[i].id by {
            assert(within_target(streams[j], target_qn));
        }
    } else {
        assert forall|j: int| 0 <= j < streams.len() implies streams[i].id <= streams[j].id by {
            assert(!lex_less(fallback_key(streams[j]), fallback_key(streams[i])));
        }
    }
}

/// The audio stream to download is the `i`-th: the last of the largest bandwidth.
pub open spec fn is_audio_choice(streams: Seq<DashStream>, i: int) -> bool {
    &&& 0 <= i < streams.len()
    &&& forall|j: int|
        0 <= j < streams.len() ==> {
            &&& bandwidth_of(#[trigger] streams[j]) <= bandwidth_of(streams[i])
            &&& j > i ==> bandwidth_of(streams[j]) < bandwidth_of(streams[i])
        }
}

/// The audio stream to download: the one with the largest bandwidth; an error
/// when there is none.
pub fn select_audio_stream(streams: &Option<Vec<DashStream>>) -> (r: Result<&DashStream, Error>)
    ensures
        match streams {
            Some(list) => if list@.len() == 0 {
                r matches Err(Error::NoAudioStream)
            } else {
                r matches Ok(s) && exists|i: int| is_audio_choice(list@, i) && list@[i] == *s
            },
            None => r matches Err(Error::NoAudioStream),
        },
{
    let list = match streams {
        Some(list) => list,
        None => return Err(Error::NoAudioStream),
    };
    if list.len() == 0 {
        return Err(Error::NoAudioStream);
    }
    let mut best: usize = 0;
    let mut best_bw: u64 = match list[0].bandwidth {
        Some(b) => b,
        None => 0,
    };
    let mut k: usize = 1;
    while k < list.len()
        invariant
            1 <= k <= list@.len(),
            best < k,
            best_bw == bandwidth_of(list@[best as int]),
            forall|m: int|
                0 <= m < k ==> {
                    &&& bandwidth_of(#[trigger] list@[m]) <= best_bw
                    &&& m > best ==> bandwidth_of(list@[m]) < best_bw
                },
        decreases list.len() - k,
    {
        let bw = match list[k].bandwidth {
            Some(b) => b,
            None => 0,
        };
        if bw >= best_bw {
            best = k;
            best_bw = bw;
        }
        k = k + 1;
    }
    proof {
        assert(is_audio_choice(list@, best as int));
    }
    Ok(&list[best])
}

/// The lines that report a chosen stream.
pub open spec fn stream_choice_text(label: Seq<char>, stream: DashStream, requested_qn: u32) -> Seq<
    Seq<char>,
> {
    let actual = quality_label_of(stream.id);
    let first = if stream.id != requested_qn && label == "Video"@ {
        label + "：请求 "@ + quality_label_of(requested_qn) + "，实际使用 "@ + actual
    } else {
        label + "："@ + actual
    };
    let size = match (stream.width, stream.height) {
        (Some(w), Some(h)) => seq!["分辨率："@ + decimal(w as nat) + "x"@ + decimal(h as nat)],
        _ => Seq::empty(),
    };
    let codec = match stream.codecs {
        Some(c) => seq!["编码："@ + c@],
        None => Seq::empty(),
    };
    let mime = match stream.spec_mime_type() {
        Some(m) => seq!["类型："@ + m],
        None => Seq::empty(),
    };
    seq![first] + size + codec + mime
}

/// The lines that report a chosen stream: its quality (and the quality asked for
/// where a video stream differs), resolution, codecs and MIME type where known.
pub fn stream_choice_lines(label: &str, stream: &DashStream, requested_qn: u32) -> (lines: Vec<
    String,
>)
    ensures
        strings_view(lines@) == stream_choice_text(label@, *stream, requested_qn),
{
    let actual = quality_label(stream.id);
    let label_chars = chars_of(label);
    let video = chars_of("Video");
    let mut first: Vec<char> = Vec::new();
    push_str(&mut first, label);
    if stream.id != requested_qn && chars_equal(&label_chars, &video) {
        push_str(&mut first, "：请求 ");
        let requested = quality_label(requested_qn);
        push_str(&mut first, requested.as_str());
        push_str(&mut first, "，实际使用 ");
        push_str(&mut first, actual.as_str());
    } else {
        push_str(&mut first, "：");
        push_str(&mut first, actual.as_str());
    }
    let mut lines: Vec<String> = Vec::new();
    lines.push(string_from_chars(&first));
    let ghost after_first = strings_view(lines@);
    if let (Some(w), Some(h)) = (stream.width, stream.height) {
        let mut size: Vec<char> = Vec::new();
        push_str(&mut size, "分辨率：");
        push_decimal(&mut size, w as u64);
        push_str(&mut size, "x");
        push_decimal(&mut size, h as u64);
        lines.push(string_from_chars(&size));
    }
    let ghost after_size = strings_view(lines@);
    if let Some(c) = &stream.codecs {
        let mut codec: Vec<char> = Vec::new();
        push_str(&mut codec, "编码：");
        push_str(&mut codec, c.as_str());
        lines.push(string_from_chars(&codec));
    }
    let ghost after_codec = strings_view(lines@);
    if let Some(m) = stream.mime_type() {
        let mut mime: Vec<char> = Vec::new();
        push_str(&mut mime, "类型：");
        push_str(&mut mime, m);
        lines.push(string_from_chars(&mime));
    }
    proof {
        assert(strings_view(lines@) =~= stream_choice_text(label@, *stream, requested_qn));
    }
    lines
}

// ---------------------------------------------------------------------------
// Files
// ---------------------------------------------------------------------------

/// The directory, inside the output directory, that holds the files of downloads in progress.
pub const TEMP_ROOT: &'static str = ".bili_tmp";

/// The name of the output file: the stem and the format's extension.
pub open spec fn output_file_name_of(stem: Seq<char>, format: OutputFormat) -> Seq<char> {
    stem + "."@ + format.spec_extension()
}

/// The name of the output file for a stem and a format.
pub fn output_file_name(stem: &str, format: OutputFormat) -> (name: String)
    ensures
        name@ == output_file_name_of(stem@, format),
{
    let mut out: Vec<char> = Vec::new();
    push_str(&mut out, stem);
    push_str(&mut out, ".");
    push_str(&mut out, format.extension());
    string_from_chars(&out)
}

/// The name of the temporary directory of a download: the first 40 characters of
/// the stem, `_`, and the time the download started.
pub open spec fn temp_dir_name_of(stem: Seq<char>, timestamp: u64) -> Seq<char> {
    truncated(stem, 40) + "_"@ + decimal(timestamp as nat)
}

/// The name of the temporary directory of a download.
pub fn temp_dir_name(stem: &str, timestamp: u64) -> (name: String)
    ensures
        name@ == temp_dir_name_of(stem@, timestamp),
{
    let short = truncate_chars(stem, 40);
    let mut out: Vec<char> = Vec::new();
    push_str(&mut out, short.as_str());
    push_str(&mut out, "_");
    push_decimal(&mut out, timestamp);
    string_from_chars(&out)
}

/// The files of a download are named without characters that file names may not
/// hold: the output file (stem and extension) and the temporary directory.
pub proof fn lemma_download_names_valid(
    view: &ViewData,
    page: &PageData,
    format: OutputFormat,
    timestamp: u64,
)
    ensures
        valid_filename_chars(output_file_name_of(output_stem(view, page), format)),
        valid_filename_chars(temp_dir_name_of(output_stem(view, page), timestamp)),
{
    let stem = output_stem(view, page);
    lemma_output_stem_valid(view, page);
    reveal_strlit(".");
    reveal_strlit("_");
    reveal_strlit("mp4");
    reveal_strlit("mp3");
    lemma_decimal_digits(timestamp as nat);
    let name = output_file_name_of(stem, format);
    assert forall|i: int| 0 <= i < name.len() implies !is_invalid_filename_char(#[trigger] name[i]) by {
        if i < stem.len() {
            assert(name[i] == stem[i]);
        } else if i == stem.len() {
            assert(name[i] == '.');
        } else {
            assert(name[i] == format.spec_extension()[i - stem.len() - 1]);
        }
    }
    let short = truncated(stem, 40);
    let dir = temp_dir_name_of(stem, timestamp);
    let digits = decimal(timestamp as nat);
    assert forall|i: int| 0 <= i < dir.len() implies !is_invalid_filename_char(#[trigger] dir[i]) by {
        if i < short.len() {
            assert(dir[i] == short[i]);
            assert(short[i] == stem[i]);
        } else if i == short.len() {
            assert(dir[i] == '_');
        } else {
            assert(dir[i] == digits[i - short.len() - 1]);
        }
    }
}

/// A number written with at least three digits, zeros in front (`{:03}`).
pub open spec fn zero_padded3(n: nat) -> Seq<char> {
    let d = decimal(n);
    if d.len() >= 3 {
        d
    } else {
        Seq::new((3 - d.len()) as nat, |i: int| '0') + d
    }
}

/// The name of the file of the `index`-th durl segment (counting from zero):
/// `segment_` and the segment's number from one, padded to three digits, then `.bin`.
pub open spec fn segment_file_name_of(index: nat) -> Seq<char> {
    "segment_"@ + zero_padded3(index + 1) + ".bin"@
}

/// The name of the file of the `index`-th durl segment.
pub fn segment_file_name(index: usize) -> (name: String)
    requires
        index < usize::MAX,
    ensures
        name@ == segment_file_name_of(index as nat),
{
    let digits = crate::number::decimal_chars((index + 1) as u64);
    let mut out: Vec<char> = Vec::new();
    push_str(&mut out, "segment_");
    let ghost before = out@;
    let mut pad: usize = digits.len();
    while pad < 3
        invariant
            digits@ == decimal((index + 1) as nat),
            digits@.len() <= pad <= 3 || (pad == digits@.len() && pad >= 3),
            out@ =~= before + Seq::new((pad - digits@.len()) as nat, |i: int| '0'),
        decreases 3 - pad,
    {
        out.push('0');
        pad = pad + 1;
    }
    extend_chars(&mut out, &digits);
    push_str(&mut out, ".bin");
    proof {
        let d = decimal((index + 1) as nat);
        if d.len() >= 3 {
            assert(Seq::new((pad - digits@.len()) as nat, |i: int| '0') =~= Seq::<char>::empty());
        }
        assert(out@ =~= segment_file_name_of(index as nat));
    }
    string_from_chars(&out)
}

/// What to do with downloaded durl segments.
#[derive(Debug, Clone, Copy, PartialEq, Eq, Structural)]
pub enum DurlPlan {
    /// One segment, re-muxed into MP4.
    RemuxSingle,
    /// One segment, re-muxed into M4A, then transcoded into MP3.
    SingleToMp3,
    /// Several segments, concatenated into MP4.
    ConcatMp4,
    /// Several segments, concatenated and transcoded into MP3.
    ConcatMp3,
}

/// What to do with the downloaded durl segments: an error when there are none.
pub fn durl_plan(format: OutputFormat, segment_count: usize) -> (r: Result<DurlPlan, Error>)
    ensures
        segment_count == 0 ==> (r matches Err(Error::NoStreams)),
        segment_count == 1 && format == OutputFormat::Mp4 ==> r == Ok::<DurlPlan, Error>(
            DurlPlan::RemuxSingle,
        ),
        segment_count == 1 && format == OutputFormat::Mp3 ==> r == Ok::<DurlPlan, Error>(
            DurlPlan::SingleToMp3,
        ),
        segment_count > 1 && format == OutputFormat::Mp4 ==> r == Ok::<DurlPlan, Error>(
            DurlPlan::ConcatMp4,
        ),
        segment_count > 1 && format == OutputFormat::Mp3 ==> r == Ok::<DurlPlan, Error>(
            DurlPlan::ConcatMp3,
        ),
{
    if segment_count == 0 {
        return Err(Error::NoStreams);
    }
    if segment_count == 1 {
        match format {
            OutputFormat::Mp4 => Ok(DurlPlan::RemuxSingle),
            OutputFormat::Mp3 => Ok(DurlPlan::SingleToMp3),
        }
    } else {
        match format {
            OutputFormat::Mp4 => Ok(DurlPlan::ConcatMp4),
            OutputFormat::Mp3 => Ok(DurlPlan::ConcatMp3),
        }
    }
}

// ---------------------------------------------------------------------------
// Trying the URLs of a stream
// ---------------------------------------------------------------------------

/// The next step of downloading a stream from its URLs, tried in order.
#[derive(Debug, Clone, Copy, PartialEq, Eq, Structural)]
pub enum MediaStep {
    /// Download from the URL with this index.
    Try(usize),
    /// The last download succeeded.
    Done,
    /// Every URL failed: report the error of the last attempt.
    FailWithLastError,
    /// There was no URL to try.
    FailNoUrl,
}

/// The next step after `attempts` downloads of a stream with `url_count` URLs,
/// where `last_succeeded` tells how the last attempt went.
pub fn next_media_step(url_count: usize, attempts: usize, last_succeeded: bool) -> (step: MediaStep)
    requires
        attempts <= url_count,
    ensures
        attempts > 0 && last_succeeded ==> step == MediaStep::Done,
        !(attempts > 0 && last_succeeded) && attempts < url_count ==> step == MediaStep::Try(
            attempts,
        ),
        !(attempts > 0 && last_succeeded) && attempts == url_count && url_count > 0 ==> step
            == MediaStep::FailWithLastError,
        url_count == 0 ==> step == MediaStep::FailNoUrl,
{
    if attempts > 0 && last_succeeded {
        MediaStep::Done
    } else if attempts < url_count {
        MediaStep::Try(attempts)
    } else if url_count > 0 {
        MediaStep::FailWithLastError
    } else {
        MediaStep::FailNoUrl
    }
}

} // verus!
