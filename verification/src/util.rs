//! File names, quality labels and the clock.
use vstd::prelude::*;

use crate::error::push_str;
use crate::models::{strings_view, PageData, ViewData};
use crate::number::{decimal, lemma_decimal_digits, lemma_decimal_injective, push_decimal};
use crate::text::{
    chars_equal, chars_of, extend_chars, in_trim_set, is_control, is_control_char, join_chars, join_with,
    lemma_trim_end_take, lemma_trim_start_skip, pieces_view, slice_chars, string_from_chars, trim_chars,
    trim_end_set, trim_set, trim_start_set, TrimSet,
};

verus! {

// ---------------------------------------------------------------------------
// File names
// ---------------------------------------------------------------------------

/// The characters that a file name may not hold: `< > : " / \ | ? *` and the control characters.
pub open spec fn is_invalid_filename_char(c: char) -> bool {
    ||| c == '<'
    ||| c == '>'
    ||| c == ':'
    ||| c == '"'
    ||| c == '/'
    ||| c == '\\'
    ||| c == '|'
    ||| c == '?'
    ||| c == '*'
    ||| is_control_char(c)
}

/// Every invalid character replaced by `_`.
pub open spec fn replace_invalid(s: Seq<char>) -> Seq<char> {
    Seq::new(
        s.len(),
        |i: int|
            if is_invalid_filename_char(s[i]) {
                '_'
            } else {
                s[i]
            },
    )
}

/// The file name that `sanitize_filename` makes of `name`.
pub open spec fn sanitized(name: Seq<char>) -> Seq<char> {
    trim_set(replace_invalid(name), TrimSet::SpaceOrDot)
}

/// Whether no character of `s` is invalid in a file name.
pub open spec fn valid_filename_chars(s: Seq<char>) -> bool {
    forall|i: int| 0 <= i < s.len() ==> !is_invalid_filename_char(#[trigger] s[i])
}

/// Whether `s` neither begins nor ends with a space or a full stop.
pub open spec fn no_outer_space_or_dot(s: Seq<char>) -> bool {
    s.len() > 0 ==> !in_trim_set(TrimSet::SpaceOrDot, s[0]) && !in_trim_set(
        TrimSet::SpaceOrDot,
        s.last(),
    )
}

fn is_invalid_filename(c: char) -> (r: bool)
    ensures
        r == is_invalid_filename_char(c),
{
    c == '<' || c == '>' || c == ':' || c == '"' || c == '/' || c == '\\' || c == '|' || c == '?'
        || c == '*' || is_control(c)
}

/// Returns where the trimmed sequence starts in `s`.
proof fn lemma_trim_start_at(s: Seq<char>, set: TrimSet) -> (k: int)
    ensures
        0 <= k <= s.len(),
        trim_start_set(s, set) == s.skip(k),
        k < s.len() ==> !in_trim_set(set, s[k]),
    decreases s.len(),
{
    if s.len() > 0 && in_trim_set(set, s[0]) {
        let k1 = lemma_trim_start_at(s.drop_first(), set);
        assert(s.drop_first().skip(k1) =~= s.skip(k1 + 1));
        k1 + 1
    } else {
        assert(s.skip(0) =~= s);
        0
    }
}

/// Returns where the trimmed sequence ends in `s`.
proof fn lemma_trim_end_at(s: Seq<char>, set: TrimSet) -> (k: int)
    ensures
        0 <= k <= s.len(),
        trim_end_set(s, set) == s.take(k),
        k > 0 ==> !in_trim_set(set, s[k - 1]),
    decreases s.len(),
{
    if s.len() > 0 && in_trim_set(set, s.last()) {
        let k1 = lemma_trim_end_at(s.drop_last(), set);
        assert(s.drop_last().take(k1) =~= s.take(k1));
        k1
    } else {
        assert(s.take(s.len() as int) =~= s);
        s.len() as int
    }
}

/// What trimming leaves is a piece of the input that neither begins nor ends with a
/// character of the set, and trimming it again changes nothing.
pub proof fn lemma_trim_set_result(s: Seq<char>, set: TrimSet)
    ensures
        trim_set(s, set).len() > 0 ==> !in_trim_set(set, trim_set(s, set)[0]) && !in_trim_set(
            set,
            trim_set(s, set).last(),
        ),
        forall|i: int|
            0 <= i < trim_set(s, set).len() ==> exists|j: int|
                0 <= j < s.len() && s[j] == #[trigger] trim_set(s, set)[i],
        trim_set(trim_set(s, set), set) == trim_set(s, set),
{
    let a = lemma_trim_start_at(s, set);
    let u = s.skip(a);
    let b = lemma_trim_end_at(u, set);
    let t = u.take(b);
    assert(trim_set(s, set) == t);
    if t.len() > 0 {
        assert(t[0] == s[a]);
    }
    assert forall|i: int| 0 <= i < t.len() implies exists|j: int|
        0 <= j < s.len() && s[j] == #[trigger] t[i] by {
        assert(s[a + i] == t[i]);
    }
    if t.len() > 0 {
        lemma_trim_start_skip(t, set, 0);
        assert(t.skip(0) =~= t);
        lemma_trim_end_take(t, set, t.len() as int);
        assert(t.take(t.len() as int) =~= t);
    } else {
        assert(trim_start_set(t, set) == t);
        assert(trim_end_set(t, set) == t);
    }
}

/// The characters a file name may not hold are exactly `< > : " / \ | ? *` and the
/// control characters U+0000..U+001F and U+007F..U+009F.
pub proof fn lemma_invalid_filename_chars(c: char)
    ensures
        is_invalid_filename_char(c) <==> (c == '<' || c == '>' || c == ':' || c == '"' || c == '/'
            || c == '\\' || c == '|' || c == '?' || c == '*' || (c as u32) <= 0x1f || (0x7f <= (
        c as u32) && (c as u32) <= 0x9f)),
{
}

/// A name without `< > : " / \ | ? *`, without control characters and without a
/// space or full stop at either end is left exactly as it is.
pub proof fn lemma_sanitize_keeps_clean_names(name: Seq<char>)
    requires
        forall|i: int|
            0 <= i < name.len() ==> !(#[trigger] name[i] == '<' || name[i] == '>' || name[i] == ':'
                || name[i] == '"' || name[i] == '/' || name[i] == '\\' || name[i] == '|' || name[i]
                == '?' || name[i] == '*' || (name[i] as u32) <= 0x1f || (0x7f <= (name[i] as u32)
                && (name[i] as u32) <= 0x9f)),
        name.len() > 0 ==> name[0] != ' ' && name[0] != '.' && name.last() != ' ' && name.last()
            != '.',
    ensures
        sanitized(name) == name,
{
    let r = replace_invalid(name);
    assert forall|i: int| 0 <= i < name.len() implies r[i] == name[i] by {
        lemma_invalid_filename_chars(name[i]);
    }
    assert(r =~= name);
    if name.len() > 0 {
        lemma_trim_start_skip(name, TrimSet::SpaceOrDot, 0);
        assert(name.skip(0) =~= name);
        lemma_trim_end_take(name, TrimSet::SpaceOrDot, name.len() as int);
        assert(name.take(name.len() as int) =~= name);
    }
}

/// The file name with invalid characters replaced and outer spaces and full stops removed.
pub fn sanitize_filename(name: &str) -> (out: String)
    ensures
        out@ == sanitized(name@),
        valid_filename_chars(out@),
        no_outer_space_or_dot(out@),
        (forall|i: int|
            0 <= i < name@.len() ==> !(#[trigger] name@[i] == '<' || name@[i] == '>' || name@[i]
                == ':' || name@[i] == '"' || name@[i] == '/' || name@[i] == '\\' || name@[i] == '|'
                || name@[i] == '?' || name@[i] == '*' || (name@[i] as u32) <= 0x1f || (0x7f <= (
            name@[i] as u32) && (name@[i] as u32) <= 0x9f))) && (name@.len() > 0 ==> name@[0] != ' '
            && name@[0] != '.' && name@.last() != ' ' && name@.last() != '.') ==> out@ == name@,
{
    proof {
        if (forall|i: int|
            0 <= i < name@.len() ==> !(#[trigger] name@[i] == '<' || name@[i] == '>' || name@[i]
                == ':' || name@[i] == '"' || name@[i] == '/' || name@[i] == '\\' || name@[i] == '|'
                || name@[i] == '?' || name@[i] == '*' || (name@[i] as u32) <= 0x1f || (0x7f <= (
            name@[i] as u32) && (name@[i] as u32) <= 0x9f))) && (name@.len() > 0 ==> name@[0] != ' '
            && name@[0] != '.' && name@.last() != ' ' && name@.last() != '.') {
            lemma_sanitize_keeps_clean_names(name@);
        }
    }
    let cs = chars_of(name);
    let mut replaced: Vec<char> = Vec::new();
    let mut i: usize = 0;
    while i < cs.len()
        invariant
            i <= cs@.len(),
            cs@ == name@,
            replaced@ =~= replace_invalid(cs@).take(i as int),
        decreases cs.len() - i,
    {
        let c = cs[i];
        if is_invalid_filename(c) {
            replaced.push('_');
        } else {
            replaced.push(c);
        }
        i = i + 1;
    }
    let trimmed = trim_chars(&replaced, TrimSet::SpaceOrDot);
    proof {
        let r = replace_invalid(name@);
        assert(replaced@ =~= r);
        lemma_trim_set_result(r, TrimSet::SpaceOrDot);
        assert forall|k: int| 0 <= k < trimmed@.len() implies !is_invalid_filename_char(
            #[trigger] trimmed@[k],
        ) by {
            let j = choose|j: int| 0 <= j < r.len() && r[j] == trimmed@[k];
            assert(r[j] == trimmed@[k]);
        }
    }
    string_from_chars(&trimmed)
}

/// A sanitized file name is left as it is by a second sanitizing.
pub proof fn lemma_sanitize_idempotent(name: Seq<char>)
    ensures
        sanitized(sanitized(name)) == sanitized(name),
{
    let r = replace_invalid(name);
    let t = sanitized(name);
    lemma_trim_set_result(r, TrimSet::SpaceOrDot);
    assert forall|k: int| 0 <= k < t.len() implies !is_invalid_filename_char(#[trigger] t[k]) by {
        let j = choose|j: int| 0 <= j < r.len() && r[j] == t[k];
    }
    assert(replace_invalid(t) =~= t);
}

/// The first `max_chars` characters of `s`, or all of them.
pub open spec fn truncated(s: Seq<char>, max_chars: nat) -> Seq<char> {
    if s.len() <= max_chars {
        s
    } else {
        s.take(max_chars as int)
    }
}

/// The first `max_chars` characters of `text`.
pub fn truncate_chars(text: &str, max_chars: usize) -> (out: String)
    ensures
        out@ == truncated(text@, max_chars as nat),
{
    let cs = chars_of(text);
    let end = if cs.len() <= max_chars {
        cs.len()
    } else {
        max_chars
    };
    let part = slice_chars(&cs, 0, end);
    proof {
        if cs@.len() <= max_chars {
            assert(cs@.subrange(0, end as int) =~= cs@);
        } else {
            assert(cs@.subrange(0, end as int) =~= cs@.take(max_chars as int));
        }
    }
    string_from_chars(&part)
}

/// The name that a page of a video is saved under, before the extension.
pub open spec fn output_stem(view: &ViewData, page: &PageData) -> Seq<char> {
    let raw = if view.pages@.len() > 1 {
        view.title@ + " - P"@ + decimal(page.page as nat) + " "@ + page.part@
    } else {
        view.title@
    };
    let safe = sanitized(raw);
    if safe.len() == 0 {
        "BV"@ + decimal(view.aid as nat)
    } else {
        truncated(safe, 120)
    }
}

proof fn lemma_bv_fallback_valid(aid: nat)
    ensures
        valid_filename_chars("BV"@ + decimal(aid)),
        ("BV"@ + decimal(aid)).len() > 0,
{
    reveal_strlit("BV");
    lemma_decimal_digits(aid);
    let s = "BV"@ + decimal(aid);
    assert forall|i: int| 0 <= i < s.len() implies !is_invalid_filename_char(#[trigger] s[i]) by {
        if i >= 2 {
            assert(s[i] == decimal(aid)[i - 2]);
        }
    }
}

/// The stem of a download holds no character that file names may not hold.
pub proof fn lemma_output_stem_valid(view: &ViewData, page: &PageData)
    ensures
        valid_filename_chars(output_stem(view, page)),
        output_stem(view, page).len() > 0,
{
    let raw = if view.pages@.len() > 1 {
        view.title@ + " - P"@ + decimal(page.page as nat) + " "@ + page.part@
    } else {
        view.title@
    };
    let safe = sanitized(raw);
    let r = replace_invalid(raw);
    lemma_trim_set_result(r, TrimSet::SpaceOrDot);
    assert forall|k: int| 0 <= k < safe.len() implies !is_invalid_filename_char(#[trigger] safe[k]) by {
        let j = choose|j: int| 0 <= j < r.len() && r[j] == safe[k];
    }
    if safe.len() == 0 {
        lemma_bv_fallback_valid(view.aid as nat);
    } else {
        let t = truncated(safe, 120);
        assert forall|k: int| 0 <= k < t.len() implies !is_invalid_filename_char(#[trigger] t[k]) by {
            assert(t[k] == safe[k]);
        }
    }
}

/// A single-page video whose title is a clean file name of at most 120 characters
/// is saved under its title, unchanged.
pub proof fn lemma_single_page_stem_is_title(view: &ViewData, page: &PageData)
    ensures
        view.pages@.len() <= 1 && 0 < view.title@.len() <= 120 && (forall|i: int|
            0 <= i < view.title@.len() ==> !(#[trigger] view.title@[i] == '<' || view.title@[i] == '>'
                || view.title@[i] == ':' || view.title@[i] == '"' || view.title@[i] == '/'
                || view.title@[i] == '\\' || view.title@[i] == '|' || view.title@[i] == '?'
                || view.title@[i] == '*' || (view.title@[i] as u32) <= 0x1f || (0x7f <= (
            view.title@[i] as u32) && (view.title@[i] as u32) <= 0x9f))) && (view.title@[0] != ' ' && view.title@[0] != '.' && view.title@.last() != ' '
            && view.title@.last() != '.') ==> output_stem(view, page) == view.title@,
{
    if view.pages@.len() <= 1 && 0 < view.title@.len() <= 120 && (forall|i: int|
            0 <= i < view.title@.len() ==> !(#[trigger] view.title@[i] == '<' || view.title@[i] == '>'
                || view.title@[i] == ':' || view.title@[i] == '"' || view.title@[i] == '/'
                || view.title@[i] == '\\' || view.title@[i] == '|' || view.title@[i] == '?'
                || view.title@[i] == '*' || (view.title@[i] as u32) <= 0x1f || (0x7f <= (
            view.title@[i] as u32) && (view.title@[i] as u32) <= 0x9f))) && (view.title@[0] != ' ' && view.title@[0] != '.' && view.title@.last() != ' '
            && view.title@.last() != '.') {
        lemma_sanitize_keeps_clean_names(view.title@);
    }
}

/// The name that a page of a video is saved under, before the extension: the title
/// (with page number and part name for a multi-page video), sanitized and cut to
/// 120 characters, or `BV` and the aid where nothing is left.
pub fn make_output_stem(view: &ViewData, page: &PageData) -> (stem: String)
    ensures
        stem@ == output_stem(view, page),
        stem@.len() > 0,
        valid_filename_chars(stem@),
        view.pages@.len() <= 1 && 0 < view.title@.len() <= 120 && (forall|i: int|
            0 <= i < view.title@.len() ==> !(#[trigger] view.title@[i] == '<' || view.title@[i] == '>'
                || view.title@[i] == ':' || view.title@[i] == '"' || view.title@[i] == '/'
                || view.title@[i] == '\\' || view.title@[i] == '|' || view.title@[i] == '?'
                || view.title@[i] == '*' || (view.title@[i] as u32) <= 0x1f || (0x7f <= (
            view.title@[i] as u32) && (view.title@[i] as u32) <= 0x9f))) && (view.title@[0] != ' ' && view.title@[0] != '.' && view.title@.last() != ' '
            && view.title@.last() != '.') ==> stem@ == view.title@,
{
    proof {
        lemma_single_page_stem_is_title(view, page);
    }
    let mut raw: Vec<char> = Vec::new();
    push_str(&mut raw, view.title.as_str());
    if view.pages.len() > 1 {
        push_str(&mut raw, " - P");
        push_decimal(&mut raw, page.page as u64);
        push_str(&mut raw, " ");
        push_str(&mut raw, page.part.as_str());
    }
    let raw_string = string_from_chars(&raw);
    let safe = sanitize_filename(raw_string.as_str());
    proof {
        if view.pages@.len() > 1 {
            assert(raw@ =~= view.title@ + " - P"@ + decimal(page.page as nat) + " "@ + page.part@);
        } else {
            assert(raw@ =~= view.title@);
        }
    }
    let safe_chars = chars_of(safe.as_str());
    if safe_chars.len() == 0 {
        let mut out: Vec<char> = Vec::new();
        push_str(&mut out, "BV");
        push_decimal(&mut out, view.aid);
        proof {
            lemma_bv_fallback_valid(view.aid as nat);
        }
        string_from_chars(&out)
    } else {
        let out = truncate_chars(safe.as_str(), 120);
        proof {
            assert forall|i: int| 0 <= i < out@.len() implies !is_invalid_filename_char(
                #[trigger] out@[i],
            ) by {
                assert(out@[i] == safe@[i]);
            }
        }
        out
    }
}

// ---------------------------------------------------------------------------
// Numbered file names for files that already exist
// ---------------------------------------------------------------------------

proof fn lemma_last_dot_bounds(s: Seq<char>)
    ensures
        last_dot(s) matches Some(d) ==> 0 <= d < s.len() && s[d] == '.',
    decreases s.len(),
{
    if s.len() > 0 && s.last() != '.' {
        lemma_last_dot_bounds(s.drop_last());
    }
}

/// The position of the last `.` in `s`, if any.
pub open spec fn last_dot(s: Seq<char>) -> Option<int>
    decreases s.len(),
{
    if s.len() == 0 {
        None
    } else if s.last() == '.' {
        Some(s.len() - 1)
    } else {
        last_dot(s.drop_last())
    }
}

/// `Path::file_stem` and `Path::extension` of a file name: split at the last `.`,
/// except for `..` and names whose only `.` is the first character.
pub open spec fn split_stem_extension(name: Seq<char>) -> (Seq<char>, Option<Seq<char>>) {
    if name == ".."@ {
        (name, None)
    } else {
        match last_dot(name) {
            None => (name, None),
            Some(d) => if d == 0 {
                (name, None)
            } else {
                (name.take(d), Some(name.skip(d + 1)))
            },
        }
    }
}

/// The file name that the `index`-th attempt gives for a file that exists:
/// `stem (index).extension`, or `stem (index)` without an extension.
pub open spec fn numbered_name(file_name: Option<Seq<char>>, index: nat) -> Seq<char> {
    let (stem, ext) = match file_name {
        Some(name) => split_stem_extension(name),
        None => ("download"@, None),
    };
    let ext_text = match ext {
        Some(e) => e,
        None => Seq::empty(),
    };
    if ext_text.len() == 0 {
        stem + " ("@ + decimal(index) + ")"@
    } else {
        stem + " ("@ + decimal(index) + ")."@ + ext_text
    }
}

fn last_dot_index(s: &[char]) -> (r: Option<usize>)
    ensures
        r matches Some(d) ==> last_dot(s@) == Some(d as int),
        r is None ==> last_dot(s@) is None,
{
    let mut i: usize = s.len();
    proof {
        assert(s@.take(s@.len() as int) =~= s@);
    }
    while i > 0
        invariant
            i <= s@.len(),
            last_dot(s@) == last_dot(s@.take(i as int)),
        decreases i,
    {
        proof {
            assert(s@.take(i as int).drop_last() =~= s@.take(i - 1));
            assert(s@.take(i as int).last() == s@[i - 1]);
        }
        if s[i - 1] == '.' {
            return Some(i - 1);
        }
        i = i - 1;
    }
    None
}

/// The stem and the extension of a file name, as `Path::file_stem` and `Path::extension` give them.
pub fn split_file_name(name: &[char]) -> (r: (Vec<char>, Option<Vec<char>>))
    ensures
        r.0@ == split_stem_extension(name@).0,
        r.1 matches Some(e) ==> split_stem_extension(name@).1 == Some(e@),
        r.1 is None ==> split_stem_extension(name@).1 is None,
{
    let dots = chars_of("..");
    if chars_equal(name, &dots) {
        return (slice_chars(name, 0, name.len()), None);
    }
    proof {
        assert(name@.subrange(0, name@.len() as int) =~= name@);
    }
    match last_dot_index(name) {
        None => (slice_chars(name, 0, name.len()), None),
        Some(d) => {
            proof {
                lemma_last_dot_bounds(name@);
            }
            if d == 0 {
                (slice_chars(name, 0, name.len()), None)
            } else {
                assert(d < name.len());
                proof {
                    assert(name@.subrange(0, d as int) =~= name@.take(d as int));
                    assert(name@.subrange(d + 1, name@.len() as int) =~= name@.skip(d + 1));
                }
                (slice_chars(name, 0, d), Some(slice_chars(name, d + 1, name.len())))
            }
        },
    }
}

/// The name to try for the `index`-th time when the file `file_name` already exists.
pub fn numbered_file_name(file_name: Option<&str>, index: u64) -> (out: String)
    ensures
        out@ == numbered_name(
            match file_name {
                Some(n) => Some(n@),
                None => None,
            },
            index as nat,
        ),
{
    let (stem, ext) = match file_name {
        Some(name) => {
            let cs = chars_of(name);
            split_file_name(&cs)
        },
        None => (chars_of("download"), None),
    };
    let ext_text: Vec<char> = match ext {
        Some(e) => e,
        None => Vec::new(),
    };
    let mut out: Vec<char> = Vec::new();
    extend_chars(&mut out, &stem);
    push_str(&mut out, " (");
    push_decimal(&mut out, index);
    if ext_text.len() == 0 {
        push_str(&mut out, ")");
    } else {
        push_str(&mut out, ").");
        extend_chars(&mut out, &ext_text);
    }
    proof {
        let fname = match file_name {
            Some(n) => Some(n@),
            None => None,
        };
        assert(out@ =~= numbered_name(fname, index as nat));
    }
    string_from_chars(&out)
}

/// Different attempts give different names, so no attempt repeats an earlier one.
pub proof fn lemma_numbered_names_distinct(file_name: Option<Seq<char>>, i: nat, j: nat)
    requires
        i != j,
    ensures
        numbered_name(file_name, i) != numbered_name(file_name, j),
{
    let (stem, ext) = match file_name {
        Some(name) => split_stem_extension(name),
        None => ("download"@, None),
    };
    let ext_text = match ext {
        Some(e) => e,
        None => Seq::<char>::empty(),
    };
    let di = decimal(i);
    let dj = decimal(j);
    lemma_decimal_digits(i);
    lemma_decimal_digits(j);
    lemma_decimal_injective(i, j);
    let p = stem + " ("@;
    let close = if ext_text.len() == 0 { ")"@ } else { ")."@ + ext_text };
    reveal_strlit(")");
    reveal_strlit(").");
    assert(close.len() >= 1 && close[0] == ')');
    let a = p + di + close;
    let b = p + dj + close;
    if ext_text.len() == 0 {
        assert(numbered_name(file_name, i) =~= a);
        assert(numbered_name(file_name, j) =~= b);
    } else {
        assert(numbered_name(file_name, i) =~= a);
        assert(numbered_name(file_name, j) =~= b);
    }
    if a == b {
        if di.len() < dj.len() {
            assert(a[(p.len() + di.len()) as int] == ')');
            assert(b[(p.len() + di.len()) as int] == dj[di.len() as int]);
        } else if dj.len() < di.len() {
            assert(b[(p.len() + dj.len()) as int] == ')');
            assert(a[(p.len() + dj.len()) as int] == di[dj.len() as int]);
        } else {
            assert(di =~= a.subrange(p.len() as int, (p.len() + di.len()) as int));
            assert(dj =~= b.subrange(p.len() as int, (p.len() + dj.len()) as int));
        }
    }
}

// ---------------------------------------------------------------------------
// Quality labels
// ---------------------------------------------------------------------------

/// The name of a quality number (`qn`) of the Bilibili API.
pub open spec fn quality_label_of(qn: u32) -> Seq<char> {
    if qn == 120 {
        "4K"@
    } else if qn == 116 {
        "1080P60"@
    } else if qn == 112 {
        "1080P+"@
    } else if qn == 80 {
        "1080P"@
    } else if qn == 74 {
        "720P60"@
    } else if qn == 64 {
        "720P"@
    } else if qn == 32 {
        "480P"@
    } else if qn == 16 {
        "360P"@
    } else {
        "QN"@ + decimal(qn as nat)
    }
}

/// The name of a quality number.
pub fn quality_label(qn: u32) -> (label: String)
    ensures
        label@ == quality_label_of(qn),
{
    match qn {
        120 => "4K".to_owned(),
        116 => "1080P60".to_owned(),
        112 => "1080P+".to_owned(),
        80 => "1080P".to_owned(),
        74 => "720P60".to_owned(),
        64 => "720P".to_owned(),
        32 => "480P".to_owned(),
        16 => "360P".to_owned(),
        other => {
            let mut out: Vec<char> = Vec::new();
            push_str(&mut out, "QN");
            push_decimal(&mut out, other as u64);
            string_from_chars(&out)
        },
    }
}

/// The label shown for the `i`-th quality: the API's description where there is one,
/// else the name of the quality number.
pub open spec fn option_label(qualities: Seq<u32>, descriptions: Seq<String>, i: int) -> Seq<
    char,
> {
    if i < descriptions.len() {
        descriptions[i]@
    } else {
        quality_label_of(qualities[i])
    }
}

/// The labels of all qualities, in order.
pub open spec fn option_labels(qualities: Seq<u32>, descriptions: Seq<String>) -> Seq<Seq<char>> {
    Seq::new(qualities.len(), |i: int| option_label(qualities, descriptions, i))
}

/// The labels shown for the qualities that the API offers.
pub fn quality_option_labels(qualities: &[u32], descriptions: &[String]) -> (labels: Vec<String>)
    ensures
        strings_view(labels@) == option_labels(qualities@, descriptions@),
{
    let mut labels: Vec<String> = Vec::new();
    let mut i: usize = 0;
    while i < qualities.len()
        invariant
            i <= qualities@.len(),
            strings_view(labels@) =~= option_labels(qualities@, descriptions@).take(i as int),
        decreases qualities.len() - i,
    {
        let label = if i < descriptions.len() {
            let d = descriptions[i].clone();
            proof {
                assert(d@ == descriptions@[i as int]@);
            }
            d
        } else {
            quality_label(qualities[i])
        };
        let ghost prev = labels@;
        labels.push(label);
        proof {
            assert(strings_view(labels@) =~= strings_view(prev).push(
                option_label(qualities@, descriptions@, i as int),
            ));
        }
        i = i + 1;
    }
    labels
}

/// The qualities that the API offers, as one line: their labels joined with `, `.
pub fn format_accept_quality(qualities: &[u32], descriptions: &[String]) -> (line: String)
    ensures
        line@ == join_with(option_labels(qualities@, descriptions@), ", "@),
{
    let labels = quality_option_labels(qualities, descriptions);
    let mut pieces: Vec<Vec<char>> = Vec::new();
    let mut i: usize = 0;
    while i < labels.len()
        invariant
            i <= labels@.len(),
            pieces_view(pieces@) =~= strings_view(labels@).take(i as int),
        decreases labels.len() - i,
    {
        let piece = chars_of(labels[i].as_str());
        let ghost prev = pieces@;
        pieces.push(piece);
        proof {
            assert(pieces_view(pieces@) =~= pieces_view(prev).push(labels@[i as int]@));
        }
        i = i + 1;
    }
    proof {
        assert(strings_view(labels@).take(labels@.len() as int) =~= strings_view(labels@));
    }
    let sep = chars_of(", ");
    let joined = join_chars(&pieces, &sep);
    string_from_chars(&joined)
}

// ---------------------------------------------------------------------------
// Clock
// ---------------------------------------------------------------------------

#[verifier::external_type_specification]
#[verifier::external_body]
pub struct ExSystemTime(std::time::SystemTime);

/// `SystemTime::now`: the current time of the system clock.
#[verifier::external_body]
fn system_time_now() -> std::time::SystemTime {
    std::time::SystemTime::now()
}

/// `SystemTime::duration_since(UNIX_EPOCH)` in whole seconds; `None` for a time
/// before the epoch.
#[verifier::external_body]
fn whole_seconds_since_epoch(t: &std::time::SystemTime) -> Option<u64> {
    match t.duration_since(std::time::UNIX_EPOCH) {
        Ok(elapsed) => Some(elapsed.as_secs()),
        Err(_) => None,
    }
}

/// The timestamp for the whole seconds that the clock is past the Unix epoch, or 0
/// when the clock is before it (`None`).
pub fn timestamp_from_seconds(secs: Option<u64>) -> (r: u64)
    ensures
        r == match secs {
            Some(s) => s,
            None => 0,
        },
{
    match secs {
        Some(s) => s,
        None => 0,
    }
}

/// The current time in whole seconds since the Unix epoch; 0 when the clock is before it.
pub fn unix_timestamp() -> u64 {
    let now = system_time_now();
    timestamp_from_seconds(whole_seconds_since_epoch(&now))
}

} // verus!
