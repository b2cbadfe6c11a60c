//! What the library asks the Bilibili web API and how it reads the answers:
//! video ids, page numbers, collections, request URLs and request headers.
use vstd::prelude::*;

use std::collections::HashSet;

use crate::error::{push_str, Error};
use crate::models::{
    strings_view, UgcSeasonEpisodeData, UgcSeasonSectionData, VideoId, ViewData,
};
use crate::number::{
    all_ascii_digits, decimal, digits_value, lemma_decimal_digits, lemma_parse_all_digits,
    parse_unsigned, parse_unsigned_chars, push_decimal,
};
use crate::text::{chars_blank, chars_of, is_ascii_digit, is_blank, string_from_chars};

verus! {

broadcast use vstd::std_specs::hash::group_hash_axioms;

// ---------------------------------------------------------------------------
// Regular expressions
// ---------------------------------------------------------------------------

/// A BV id: `BV` (in any case) and ten letters or digits, as a whole word.
pub const BV_PATTERN: &'static str = r"(?i)\bBV[0-9A-Za-z]{10}\b";

/// An av number: `av` (in any case) at the start or after a non-word character,
/// then digits up to a word boundary; the digits are the first group.
pub const AV_PATTERN: &'static str = r"(?i)(?:^|[^\w])av(\d+)\b";

/// A page parameter of a link: `?p=` or `&p=` and digits; the digits are the first group.
pub const PAGE_PATTERN: &'static str = r"(?:[?&])p=(\d+)";

/// The text of the leftmost-first match of the regular expression `pattern` in
/// `text`, as `regex::Regex::find` reports it; none when there is no match.
pub uninterp spec fn regex_find_text(pattern: Seq<char>, text: Seq<char>) -> Option<Seq<char>>;

/// The text of the first capture group of the leftmost-first match of `pattern` in
/// `text`, as `regex::Regex::captures` and `Captures::get(1)` report it.
pub uninterp spec fn regex_group_text(pattern: Seq<char>, text: Seq<char>) -> Option<Seq<char>>;

/// Compiles `pattern` with `regex::Regex::new` and runs `regex::Regex::find` on
/// `text`. The result is the text of the match, as named by `regex_find_text`;
/// nothing is claimed of what that text is. A pattern that does not compile
/// gives `None` here (the library's patterns all compile).
#[verifier::external_body]
fn regex_find(pattern: &str, text: &str) -> (found: Option<String>)
    ensures
        found.deep_view() == regex_find_text(pattern@, text@),
{
    match regex::Regex::new(pattern) {
        Ok(re) => match re.find(text) {
            Some(m) => Some(m.as_str().to_owned()),
            None => None,
        },
        Err(_) => None,
    }
}

/// Compiles `pattern` with `regex::Regex::new`, runs `regex::Regex::captures` on
/// `text` and takes group 1. The result is named by `regex_group_text`; nothing
/// is claimed of what that text is. A pattern that does not compile gives `None`.
#[verifier::external_body]
fn regex_first_group(pattern: &str, text: &str) -> (group: Option<String>)
    ensures
        group.deep_view() == regex_group_text(pattern@, text@),
{
    match regex::Regex::new(pattern) {
        Ok(re) => match re.captures(text) {
            Some(caps) => match caps.get(1) {
                Some(m) => Some(m.as_str().to_owned()),
                None => None,
            },
            None => None,
        },
        Err(_) => None,
    }
}

// ---------------------------------------------------------------------------
// Video ids
// ---------------------------------------------------------------------------

/// How the input names a video, given what the BV pattern found in it (`bv`) and
/// the digits that the av pattern found (`av`): a BV id first, then an av number,
/// then an input of ASCII digits only, read as an aid.
pub open spec fn video_id_outcome(
    bv: Option<Seq<char>>,
    av: Option<Seq<char>>,
    input: Seq<char>,
    r: Result<VideoId, Error>,
) -> bool {
    match bv {
        Some(m) => r matches Ok(VideoId::Bvid(s)) && s@ == m,
        None => match av {
            Some(digits) => match parse_unsigned(digits, u64::MAX as nat) {
                Some(n) => r matches Ok(VideoId::Aid(a)) && a == n,
                None => r matches Err(Error::InvalidAv),
            },
            None => if all_ascii_digits(input) {
                match parse_unsigned(input, u64::MAX as nat) {
                    Some(n) => r matches Ok(VideoId::Aid(a)) && a == n,
                    None => r matches Err(Error::InvalidNumericAid),
                }
            } else {
                r matches Err(Error::NoVideoId)
            },
        },
    }
}

/// Every av number and every all-digit input whose value fits in a `u64` names the
/// video with that aid, leading zeros or not.
pub proof fn lemma_digit_ids_accepted(av: Option<Seq<char>>, input: Seq<char>, max: nat)
    requires
        max == u64::MAX,
    ensures
        forall|r: Result<VideoId, Error>|
            #![trigger video_id_outcome(None, av, input, r)]
            av is Some && av->0.len() > 0 && all_ascii_digits(av->0) && digits_value(av->0) <= max
                && video_id_outcome(None, av, input, r) ==> (r matches Ok(VideoId::Aid(a)) && a
                == digits_value(av->0)),
        forall|r: Result<VideoId, Error>|
            #![trigger video_id_outcome(None, None, input, r)]
            input.len() > 0 && all_ascii_digits(input) && digits_value(input) <= max
                && video_id_outcome(None, None, input, r) ==> (r matches Ok(VideoId::Aid(a)) && a
                == digits_value(input)),
{
    if let Some(d) = av {
        if d.len() > 0 && all_ascii_digits(d) && digits_value(d) <= max {
            lemma_parse_all_digits(d, max);
        }
    }
    if input.len() > 0 && all_ascii_digits(input) && digits_value(input) <= max {
        lemma_parse_all_digits(input, max);
    }
}

/// The decimal notation of any `u64`, found as an av number or given as the whole
/// input, names the video with that aid.
pub proof fn lemma_aid_decimal_accepted(n: u64, input: Seq<char>, r: Result<VideoId, Error>)
    ensures
        video_id_outcome(None, Some(decimal(n as nat)), input, r) ==> (r matches Ok(
            VideoId::Aid(a),
        ) && a == n),
        video_id_outcome(None, None, decimal(n as nat), r) ==> (r matches Ok(VideoId::Aid(a)) && a
            == n),
{
    lemma_decimal_digits(n as nat);
    lemma_parse_all_digits(decimal(n as nat), u64::MAX as nat);
}

/// How the input names a video, given what the two patterns found in it.
pub fn video_id_from_matches(bv: Option<String>, av: Option<String>, input: &str) -> (r: Result<
    VideoId,
    Error,
>)
    ensures
        video_id_outcome(bv.deep_view(), av.deep_view(), input@, r),
        bv is None && av is Some && av->0@.len() > 0 && all_ascii_digits(av->0@) && digits_value(
            av->0@,
        ) <= u64::MAX ==> (r matches Ok(VideoId::Aid(a)) && a == digits_value(av->0@)),
        bv is None && av is None && input@.len() > 0 && all_ascii_digits(input@) && digits_value(
            input@,
        ) <= u64::MAX ==> (r matches Ok(VideoId::Aid(a)) && a == digits_value(input@)),
{
    proof {
        lemma_digit_ids_accepted(av.deep_view(), input@, u64::MAX as nat);
    }
    if let Some(found) = bv {
        return Ok(VideoId::Bvid(found));
    }
    if let Some(digits) = av {
        let cs = chars_of(digits.as_str());
        return match parse_unsigned_chars(&cs, u64::MAX) {
            Some(aid) => Ok(VideoId::Aid(aid)),
            None => Err(Error::InvalidAv),
        };
    }
    let cs = chars_of(input);
    let mut i: usize = 0;
    while i < cs.len()
        invariant
            i <= cs@.len(),
            cs@ == input@,
            bv is None,
            av is None,
            forall|k: int| 0 <= k < i ==> crate::text::is_ascii_digit_char(#[trigger] cs@[k]),
        decreases cs.len() - i,
    {
        if !is_ascii_digit(cs[i]) {
            proof {
                assert(!crate::text::is_ascii_digit_char(input@[i as int]));
                assert(!all_ascii_digits(input@));
            }
            return Err(Error::NoVideoId);
        }
        i = i + 1;
    }
    match parse_unsigned_chars(&cs, u64::MAX) {
        Some(aid) => Ok(VideoId::Aid(aid)),
        None => Err(Error::InvalidNumericAid),
    }
}

/// The video that the input names: a link, a BV id, an av number or a numeric aid.
pub fn parse_video_id(input: &str) -> (r: Result<VideoId, Error>)
    ensures
        video_id_outcome(
            regex_find_text(BV_PATTERN@, input@),
            regex_group_text(AV_PATTERN@, input@),
            input@,
            r,
        ),
        ({
            let av = regex_group_text(AV_PATTERN@, input@);
            regex_find_text(BV_PATTERN@, input@) is None && av is Some && av->0.len() > 0
                && all_ascii_digits(av->0) && digits_value(av->0) <= u64::MAX ==> (r matches Ok(
                VideoId::Aid(a),
            ) && a == digits_value(av->0))
        }),
        regex_find_text(BV_PATTERN@, input@) is None && regex_group_text(AV_PATTERN@, input@) is None
            && input@.len() > 0 && all_ascii_digits(input@) && digits_value(input@) <= u64::MAX ==> (
        r matches Ok(VideoId::Aid(a)) && a == digits_value(input@)),
{
    let bv = regex_find(BV_PATTERN, input);
    let av = if bv.is_some() {
        None
    } else {
        regex_first_group(AV_PATTERN, input)
    };
    let r = video_id_from_matches(bv, av, input);
    proof {
        lemma_digit_ids_accepted(regex_group_text(AV_PATTERN@, input@), input@, u64::MAX as nat);
        if regex_find_text(BV_PATTERN@, input@) is None {
            assert(av.deep_view() == regex_group_text(AV_PATTERN@, input@));
        }
    }
    r
}

/// The page that a page parameter's digits name: a positive number that fits in a `usize`.
pub open spec fn page_number(digits: Option<Seq<char>>) -> Option<nat> {
    match digits {
        Some(d) => match parse_unsigned(d, usize::MAX as nat) {
            Some(n) => if n > 0 {
                Some(n)
            } else {
                None
            },
            None => None,
        },
        None => None,
    }
}

/// Every positive page number that fits in a `usize`, written in decimal, names
/// that page; only page 0 names none.
pub proof fn lemma_page_numbers(n: nat)
    requires
        n <= usize::MAX,
    ensures
        n >= 1 ==> page_number(Some(decimal(n))) == Some(n),
        n == 0 ==> page_number(Some(decimal(n))) is None,
{
    lemma_decimal_digits(n);
    lemma_parse_all_digits(decimal(n), usize::MAX as nat);
}

/// The page that a page parameter's digits name.
pub fn page_from_match(digits: Option<String>) -> (page: Option<usize>)
    ensures
        page matches Some(p) ==> page_number(digits.deep_view()) == Some(p as nat),
        page is None ==> page_number(digits.deep_view()) is None,
        digits is Some && digits->0@.len() > 0 && all_ascii_digits(digits->0@) && 1 <= digits_value(
            digits->0@,
        ) <= usize::MAX ==> page == Some(digits_value(digits->0@) as usize),
{
    proof {
        if digits is Some {
            let d = digits->0@;
            if d.len() > 0 && all_ascii_digits(d) && digits_value(d) <= usize::MAX {
                lemma_parse_all_digits(d, usize::MAX as nat);
            }
        }
    }
    match digits {
        Some(d) => {
            let cs = chars_of(d.as_str());
            match parse_unsigned_chars(&cs, usize::MAX as u64) {
                Some(n) => if n > 0 {
                    Some(n as usize)
                } else {
                    None
                },
                None => None,
            }
        },
        None => None,
    }
}

/// The page that a link names with `?p=` or `&p=`, if any.
pub fn extract_page_from_input(input: &str) -> (page: Option<usize>)
    ensures
        page matches Some(p) ==> page_number(regex_group_text(PAGE_PATTERN@, input@)) == Some(
            p as nat,
        ),
        page is None ==> page_number(regex_group_text(PAGE_PATTERN@, input@)) is None,
{
    page_from_match(regex_first_group(PAGE_PATTERN, input))
}

// ---------------------------------------------------------------------------
// Collections
// ---------------------------------------------------------------------------

/// A collection that is downloaded whole.
pub struct CollectionEntries {
    pub title: String,
    pub items: Vec<CollectionEntry>,
}

/// One video of a collection.
pub struct CollectionEntry {
    pub bvid: String,
}

/// All episodes of all sections, in order.
pub open spec fn season_episodes(sections: Seq<UgcSeasonSectionData>) -> Seq<UgcSeasonEpisodeData>
    decreases sections.len(),
{
    if sections.len() == 0 {
        Seq::empty()
    } else {
        season_episodes(sections.drop_last()) + sections.last().episodes@
    }
}

/// The aids of the episodes.
pub open spec fn episode_aids(eps: Seq<UgcSeasonEpisodeData>) -> Seq<u64> {
    eps.map_values(|e: UgcSeasonEpisodeData| e.aid)
}

/// The episodes with the first occurrence of each aid, in order.
pub open spec fn first_by_aid(eps: Seq<UgcSeasonEpisodeData>) -> Seq<UgcSeasonEpisodeData>
    decreases eps.len(),
{
    if eps.len() == 0 {
        Seq::empty()
    } else {
        let kept = first_by_aid(eps.drop_last());
        if episode_aids(eps.drop_last()).contains(eps.last().aid) {
            kept
        } else {
            kept.push(eps.last())
        }
    }
}

/// The BV ids of the episodes.
pub open spec fn episode_bvids(eps: Seq<UgcSeasonEpisodeData>) -> Seq<Seq<char>> {
    eps.map_values(|e: UgcSeasonEpisodeData| e.bvid@)
}

/// The BV ids of the entries.
pub open spec fn entry_bvids(items: Seq<CollectionEntry>) -> Seq<Seq<char>> {
    items.map_values(|e: CollectionEntry| e.bvid@)
}

/// The collection to download for a video: none for a multi-page video, for a video
/// outside any collection, or for a collection of fewer than two distinct videos;
/// else its title (the video's title where the collection's is blank) and the BV
/// ids of its episodes, one per aid, in order.
pub open spec fn collection_of(view: &ViewData) -> Option<(Seq<char>, Seq<Seq<char>>)> {
    if view.pages@.len() > 1 {
        None
    } else {
        match view.ugc_season {
            None => None,
            Some(season) => {
                let items = episode_bvids(first_by_aid(season_episodes(season.sections@)));
                if items.len() <= 1 {
                    None
                } else {
                    let title = if is_blank(season.title@) {
                        view.title@
                    } else {
                        season.title@
                    };
                    Some((title, items))
                }
            },
        }
    }
}

proof fn lemma_season_episodes_step(sections: Seq<UgcSeasonSectionData>, i: int)
    requires
        0 <= i < sections.len(),
    ensures
        season_episodes(sections.take(i + 1)) == season_episodes(sections.take(i))
            + sections[i].episodes@,
{
    let t = sections.take(i + 1);
    assert(t.drop_last() =~= sections.take(i));
}

/// Whether `a` is the aid of one of the episodes.
pub open spec fn has_aid(eps: Seq<UgcSeasonEpisodeData>, a: u64) -> bool {
    episode_aids(eps).contains(a)
}

/// The collection to download for a video, if it belongs to one.
pub fn collect_collection_entries(view: &ViewData) -> (r: Option<CollectionEntries>)
    ensures
        r is None <==> collection_of(view) is None,
        r matches Some(c) ==> collection_of(view) == Some((c.title@, entry_bvids(c.items@))),
{
    if view.pages.len() > 1 {
        return None;
    }
    let season = match &view.ugc_season {
        Some(s) => s,
        None => return None,
    };
    let ghost sections = season.sections@;
    let mut seen: HashSet<u64> = HashSet::new();
    let mut items: Vec<CollectionEntry> = Vec::new();
    let mut i: usize = 0;
    while i < season.sections.len()
        invariant
            i <= sections.len(),
            sections == season.sections@,
            forall|a: u64| seen@.contains(a) <==> has_aid(season_episodes(sections.take(i as int)), a),
            entry_bvids(items@) == episode_bvids(
                first_by_aid(season_episodes(sections.take(i as int))),
            ),
        decreases season.sections.len() - i,
    {
        let episodes = &season.sections[i].episodes;
        let ghost before = season_episodes(sections.take(i as int));
        let mut j: usize = 0;
        while j < episodes.len()
            invariant
                i < sections.len(),
                sections == season.sections@,
                episodes@ == sections[i as int].episodes@,
                before == season_episodes(sections.take(i as int)),
                j <= episodes@.len(),
                forall|a: u64|
                    seen@.contains(a) <==> has_aid(before + episodes@.take(j as int), a),
                entry_bvids(items@) == episode_bvids(
                    first_by_aid(before + episodes@.take(j as int)),
                ),
            decreases episodes.len() - j,
        {
            let episode = &episodes[j];
            let ghost prefix = before + episodes@.take(j as int);
            let ghost next = before + episodes@.take(j + 1);
            proof {
                assert(next.drop_last() =~= prefix);
                assert(next.last() == *episode);
                assert(episode_aids(next) =~= episode_aids(prefix).push(episode.aid));
            }
            let fresh = seen.insert(episode.aid);
            if fresh {
                let bvid = episode.bvid.clone();
                let ghost prev = items@;
                items.push(CollectionEntry { bvid });
                proof {
                    assert(entry_bvids(items@) =~= entry_bvids(prev).push(episode.bvid@));
                    assert(episode_bvids(first_by_aid(next)) =~= episode_bvids(
                        first_by_aid(prefix),
                    ).push(episode.bvid@));
                }
            }
            proof {
                assert forall|a: u64| seen@.contains(a) <==> has_aid(next, a) by {
                    if a == episode.aid {
                        assert(episode_aids(next)[next.len() - 1] == a);
                    } else if has_aid(next, a) {
                        let k = choose|k: int| 0 <= k < episode_aids(next).len() && episode_aids(next)[k] == a;
                        assert(episode_aids(prefix)[k] == a);
                    } else if has_aid(prefix, a) {
                        let k = choose|k: int| 0 <= k < episode_aids(prefix).len() && episode_aids(prefix)[k] == a;
                        assert(episode_aids(next)[k] == a);
                    }
                }
            }
            j = j + 1;
        }
        proof {
            assert(episodes@.take(episodes@.len() as int) =~= episodes@);
            lemma_season_episodes_step(sections, i as int);
        }
        i = i + 1;
    }
    proof {
        assert(sections.take(sections.len() as int) =~= sections);
    }
    if items.len() <= 1 {
        return None;
    }
    let title_chars = chars_of(season.title.as_str());
    let title = if chars_blank(&title_chars) {
        view.title.clone()
    } else {
        season.title.clone()
    };
    Some(CollectionEntries { title, items })
}

proof fn lemma_has_aid_push(s: Seq<UgcSeasonEpisodeData>, e: UgcSeasonEpisodeData, a: u64)
    ensures
        has_aid(s.push(e), a) <==> has_aid(s, a) || e.aid == a,
{
    assert(episode_aids(s.push(e)) =~= episode_aids(s).push(e.aid));
    if has_aid(s, a) {
        let k = choose|k: int| 0 <= k < episode_aids(s).len() && episode_aids(s)[k] == a;
        assert(episode_aids(s.push(e))[k] == a);
    }
    if e.aid == a {
        assert(episode_aids(s.push(e))[s.len() as int] == a);
    }
    if has_aid(s.push(e), a) && e.aid != a {
        let k = choose|k: int|
            0 <= k < episode_aids(s.push(e)).len() && episode_aids(s.push(e))[k] == a;
        assert(episode_aids(s)[k] == a);
    }
}

/// Each aid of the episodes is downloaded once: the kept episodes have distinct aids,
/// every aid of the episodes is among them, and they are episodes of the input.
pub proof fn lemma_collection_one_per_aid(eps: Seq<UgcSeasonEpisodeData>)
    ensures
        episode_aids(first_by_aid(eps)).no_duplicates(),
        forall|a: u64| has_aid(eps, a) <==> has_aid(first_by_aid(eps), a),
        forall|k: int|
            0 <= k < first_by_aid(eps).len() ==> eps.contains(#[trigger] first_by_aid(eps)[k]),
    decreases eps.len(),
{
    if eps.len() > 0 {
        let pre = eps.drop_last();
        let e = eps.last();
        lemma_collection_one_per_aid(pre);
        let kept = first_by_aid(pre);
        assert(eps =~= pre.push(e));
        assert forall|a: u64| has_aid(eps, a) <==> has_aid(first_by_aid(eps), a) by {
            lemma_has_aid_push(pre, e, a);
            lemma_has_aid_push(kept, e, a);
            assert(has_aid(pre, a) <==> has_aid(kept, a));
            if has_aid(pre, e.aid) {
                assert(first_by_aid(eps) == kept);
            } else {
                assert(first_by_aid(eps) == kept.push(e));
            }
        }
        if !has_aid(pre, e.aid) {
            let out = kept.push(e);
            assert(episode_aids(out) =~= episode_aids(kept).push(e.aid));
            assert forall|x: int, y: int|
                0 <= x < episode_aids(out).len() && 0 <= y < episode_aids(out).len() && x != y
                implies episode_aids(out)[x] != episode_aids(out)[y] by {
                if x == kept.len() {
                    assert(!has_aid(kept, e.aid));
                    assert(episode_aids(kept)[y] == episode_aids(out)[y]);
                } else if y == kept.len() {
                    assert(!has_aid(kept, e.aid));
                    assert(episode_aids(kept)[x] == episode_aids(out)[x]);
                } else {
                    assert(episode_aids(kept)[x] == episode_aids(out)[x]);
                    assert(episode_aids(kept)[y] == episode_aids(out)[y]);
                }
            }
            assert forall|k: int| 0 <= k < out.len() implies eps.contains(#[trigger] out[k]) by {
                if k < kept.len() {
                    assert(pre.contains(kept[k]));
                    let m = choose|m: int| 0 <= m < pre.len() && pre[m] == kept[k];
                    assert(eps[m] == pre[m]);
                } else {
                    assert(eps[eps.len() - 1] == e);
                }
            }
        } else {
            assert forall|k: int| 0 <= k < kept.len() implies eps.contains(#[trigger] kept[k]) by {
                assert(pre.contains(kept[k]));
                let m = choose|m: int| 0 <= m < pre.len() && pre[m] == kept[k];
                assert(eps[m] == pre[m]);
            }
        }
    }
}

// ---------------------------------------------------------------------------
// Requests
// ---------------------------------------------------------------------------

/// The referer sent with requests that belong to no particular video.
pub const ROOT_REFERER: &'static str = "https://www.bilibili.com/";

/// The user agent sent with every request.
pub const USER_AGENT_VALUE: &'static str = "Mozilla/5.0 (Windows NT 10.0; Win64; x64) AppleWebKit/537.36 (KHTML, like Gecko) Chrome/124.0.0.0 Safari/537.36";

/// The URL of the `view` endpoint for a video.
pub open spec fn view_url_of(id: VideoId) -> Seq<char> {
    match id {
        VideoId::Bvid(bvid) => "https://api.bilibili.com/x/web-interface/view?bvid="@ + bvid@,
        VideoId::Aid(aid) => "https://api.bilibili.com/x/web-interface/view?aid="@ + decimal(
            aid as nat,
        ),
    }
}

/// The URL that asks for the details of a video.
pub fn view_url(id: &VideoId) -> (url: String)
    ensures
        url@ == view_url_of(*id),
{
    let mut out: Vec<char> = Vec::new();
    match id {
        VideoId::Bvid(bvid) => {
            push_str(&mut out, "https://api.bilibili.com/x/web-interface/view?bvid=");
            push_str(&mut out, bvid.as_str());
        },
        VideoId::Aid(aid) => {
            push_str(&mut out, "https://api.bilibili.com/x/web-interface/view?aid=");
            push_decimal(&mut out, *aid);
        },
    }
    string_from_chars(&out)
}

/// The URL of the `playurl` endpoint for a page of a video at a quality.
pub open spec fn play_url_of(bvid: Seq<char>, cid: u64, qn: u32) -> Seq<char> {
    "https://api.bilibili.com/x/player/playurl?bvid="@ + bvid + "&cid="@ + decimal(cid as nat)
        + "&qn="@ + decimal(qn as nat) + "&fnver=0&fnval=4048&fourk=1"@
}

/// The URL that asks for the streams of a page of a video.
pub fn play_url(bvid: &str, cid: u64, qn: u32) -> (url: String)
    ensures
        url@ == play_url_of(bvid@, cid, qn),
{
    let mut out: Vec<char> = Vec::new();
    push_str(&mut out, "https://api.bilibili.com/x/player/playurl?bvid=");
    push_str(&mut out, bvid);
    push_str(&mut out, "&cid=");
    push_decimal(&mut out, cid);
    push_str(&mut out, "&qn=");
    push_decimal(&mut out, qn as u64);
    push_str(&mut out, "&fnver=0&fnval=4048&fourk=1");
    string_from_chars(&out)
}

/// The page of a video, sent as referer with the requests that belong to it.
pub open spec fn video_referer_of(bvid: Seq<char>) -> Seq<char> {
    "https://www.bilibili.com/video/"@ + bvid + "/"@
}

/// The page of a video, sent as referer.
pub fn video_referer(bvid: &str) -> (url: String)
    ensures
        url@ == video_referer_of(bvid@),
{
    let mut out: Vec<char> = Vec::new();
    push_str(&mut out, "https://www.bilibili.com/video/");
    push_str(&mut out, bvid);
    push_str(&mut out, "/");
    string_from_chars(&out)
}

/// Whether HTTP accepts the character in a header value: a tab, or any character
/// from the space on except DEL.
pub open spec fn header_value_char(c: char) -> bool {
    c == '\t' || ((c as u32) >= 32 && (c as u32) != 127)
}

/// `reqwest::header::HeaderValue::from_str` succeeds, its source shows, exactly when
/// every byte is a tab or at least 32 and not 127. The bytes of a character beyond
/// ASCII are all at least 128, so this is a condition on each character.
#[verifier::external_body]
fn header_value_accepts(value: &str) -> (ok: bool)
    ensures
        ok == (forall|i: int| 0 <= i < value@.len() ==> header_value_char(#[trigger] value@[i])),
{
    reqwest::header::HeaderValue::from_str(value).is_ok()
}

/// The default headers of every request, as (name, value) pairs.
pub open spec fn default_headers_of(cookie: Option<Seq<char>>) -> Seq<(Seq<char>, Seq<char>)> {
    let base = seq![
        ("user-agent"@, USER_AGENT_VALUE@),
        ("accept"@, "*/*"@),
        ("accept-language"@, "zh-CN,zh;q=0.9,en;q=0.8"@),
    ];
    match cookie {
        Some(c) => base.push(("cookie"@, c)),
        None => base,
    }
}

/// The views of header pairs.
pub open spec fn header_pairs_view(v: Seq<(String, String)>) -> Seq<(Seq<char>, Seq<char>)> {
    v.map_values(|p: (String, String)| (p.0@, p.1@))
}

/// The default headers of every request; an error for a cookie that HTTP does not
/// accept as a header value.
pub fn default_headers(cookie: Option<&str>) -> (r: Result<Vec<(String, String)>, Error>)
    ensures
        cookie matches Some(c) && !(forall|i: int|
            0 <= i < c@.len() ==> header_value_char(#[trigger] c@[i])) ==> (r matches Err(
            Error::InvalidCookieHeader,
        )),
        r matches Ok(headers) ==> header_pairs_view(headers@) == default_headers_of(
            match cookie {
                Some(c) => Some(c@),
                None => None,
            },
        ),
        (cookie is None || forall|i: int|
            0 <= i < cookie->0@.len() ==> header_value_char(#[trigger] cookie->0@[i])) ==> r is Ok,
{
    let mut headers: Vec<(String, String)> = Vec::new();
    headers.push(("user-agent".to_owned(), USER_AGENT_VALUE.to_owned()));
    headers.push(("accept".to_owned(), "*/*".to_owned()));
    headers.push(("accept-language".to_owned(), "zh-CN,zh;q=0.9,en;q=0.8".to_owned()));
    if let Some(c) = cookie {
        if !header_value_accepts(c) {
            return Err(Error::InvalidCookieHeader);
        }
        headers.push(("cookie".to_owned(), c.to_owned()));
    }
    proof {
        let expected = default_headers_of(
            match cookie {
                Some(c) => Some(c@),
                None => None,
            },
        );
        assert(header_pairs_view(headers@) =~= expected);
    }
    Ok(headers)
}

} // verus!
