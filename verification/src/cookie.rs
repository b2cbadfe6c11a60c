//! Cookies: a `Cookie:` header typed by the user, or a `cookies.txt` file in the
//! Netscape format or holding a header.
use vstd::prelude::*;

use crate::cli::Args;
use crate::error::{push_str, Error};
use crate::text::{
    chars_of, extend_chars, join_chars, join_with, lines_chars, lines_of, pieces_view, split_chars,
    split_on, string_from_chars, strip_prefixes, strip_prefixes_chars, trim, trim_chars,
    trim_end_chars, trim_end_set, TrimSet,
};

verus! {

/// A cookie header as typed: trimmed, without leading `Cookie:` prefixes and
/// without trailing semicolons.
pub open spec fn cleaned_cookie(cookie: Seq<char>) -> Seq<char> {
    trim_end_set(trim(strip_prefixes(trim(cookie), "Cookie:"@)), TrimSet::Semicolon)
}

/// A cookie header as typed, cleaned for sending.
pub fn clean_cookie_header(cookie: &str) -> (out: String)
    ensures
        out@ == cleaned_cookie(cookie@),
{
    let cs = chars_of(cookie);
    let t1 = trim_chars(&cs, TrimSet::Whitespace);
    let prefix = chars_of("Cookie:");
    proof {
        reveal_strlit("Cookie:");
    }
    let t2 = strip_prefixes_chars(&t1, &prefix);
    let t3 = trim_chars(&t2, TrimSet::Whitespace);
    let t4 = trim_end_chars(&t3, TrimSet::Semicolon);
    string_from_chars(&t4)
}

/// The lines of a cookie file that carry content: trimmed, neither empty nor comments.
pub open spec fn content_lines(lines: Seq<Seq<char>>) -> Seq<Seq<char>>
    decreases lines.len(),
{
    if lines.len() == 0 {
        Seq::empty()
    } else {
        let kept = content_lines(lines.drop_last());
        let t = trim(lines.last());
        if t.len() > 0 && t[0] != '#' {
            kept.push(t)
        } else {
            kept
        }
    }
}

/// The `name=value` pair of a Netscape cookie line: its sixth and seventh
/// tab-separated fields, trimmed; none for a line of fewer than seven fields.
pub open spec fn netscape_pair(line: Seq<char>) -> Option<Seq<char>> {
    let fields = split_on(line, '\t');
    if fields.len() >= 7 {
        Some(trim(fields[5]) + "="@ + trim(fields[6]))
    } else {
        None
    }
}

/// The `name=value` pairs of all Netscape cookie lines, in order.
pub open spec fn netscape_pairs(lines: Seq<Seq<char>>) -> Seq<Seq<char>>
    decreases lines.len(),
{
    if lines.len() == 0 {
        Seq::empty()
    } else {
        let pairs = netscape_pairs(lines.drop_last());
        match netscape_pair(lines.last()) {
            Some(p) => pairs.push(p),
            None => pairs,
        }
    }
}

/// The cookie header that a cookie file gives: the Netscape pairs joined with `; `
/// where there are any, else all content lines joined with `; ` and cleaned as a
/// typed header.
pub open spec fn cookie_file_header(text: Seq<char>) -> Seq<char> {
    let lines = content_lines(lines_of(text));
    let pairs = netscape_pairs(lines);
    if pairs.len() > 0 {
        join_with(pairs, "; "@)
    } else {
        cleaned_cookie(join_with(lines, "; "@))
    }
}

/// The cookie header that the text of a cookie file gives.
pub fn parse_cookie_file(text: &str) -> (out: String)
    ensures
        out@ == cookie_file_header(text@),
{
    let cs = chars_of(text);
    let lines = lines_chars(&cs);
    let ghost all = lines_of(text@);
    let mut kept: Vec<Vec<char>> = Vec::new();
    let mut i: usize = 0;
    while i < lines.len()
        invariant
            i <= lines@.len(),
            pieces_view(lines@) == all,
            pieces_view(kept@) == content_lines(all.take(i as int)),
        decreases lines.len() - i,
    {
        let t = trim_chars(&lines[i], TrimSet::Whitespace);
        proof {
            let pre = all.take(i + 1);
            assert(pre.drop_last() =~= all.take(i as int));
            assert(pre.last() == lines@[i as int]@);
        }
        if t.len() > 0 && t[0] != '#' {
            let ghost prev = kept@;
            kept.push(t);
            proof {
                assert(pieces_view(kept@) =~= pieces_view(prev).push(t@));
            }
        }
        i = i + 1;
    }
    proof {
        assert(all.take(lines@.len() as int) =~= all);
    }
    let ghost content = content_lines(all);
    let mut pairs: Vec<Vec<char>> = Vec::new();
    let mut j: usize = 0;
    while j < kept.len()
        invariant
            j <= kept@.len(),
            pieces_view(kept@) == content,
            pieces_view(pairs@) == netscape_pairs(content.take(j as int)),
        decreases kept.len() - j,
    {
        let fields = split_chars(&kept[j], '\t');
        proof {
            let pre = content.take(j + 1);
            assert(pre.drop_last() =~= content.take(j as int));
            assert(pre.last() == kept@[j as int]@);
        }
        if fields.len() >= 7 {
            let name = trim_chars(&fields[5], TrimSet::Whitespace);
            let value = trim_chars(&fields[6], TrimSet::Whitespace);
            let mut pair: Vec<char> = Vec::new();
            extend_chars(&mut pair, &name);
            push_str(&mut pair, "=");
            extend_chars(&mut pair, &value);
            proof {
                assert(fields@[5]@ == split_on(kept@[j as int]@, '\t')[5]);
                assert(fields@[6]@ == split_on(kept@[j as int]@, '\t')[6]);
                assert(pair@ =~= trim(fields@[5]@) + "="@ + trim(fields@[6]@));
            }
            let ghost prev = pairs@;
            pairs.push(pair);
            proof {
                assert(pieces_view(pairs@) =~= pieces_view(prev).push(pair@));
            }
        }
        j = j + 1;
    }
    proof {
        assert(content.take(kept@.len() as int) =~= content);
    }
    let sep = chars_of("; ");
    if pairs.len() > 0 {
        let joined = join_chars(&pairs, &sep);
        string_from_chars(&joined)
    } else {
        let joined = join_chars(&kept, &sep);
        let joined_string = string_from_chars(&joined);
        clean_cookie_header(joined_string.as_str())
    }
}

/// The cookie to send: the one given on the command line (cleaned), else the one
/// of the cookie file (an error when it holds none), else none. The caller reads
/// the cookie file and hands over its text, which is looked at only when no cookie
/// was given.
pub fn load_cookie(args: &Args, cookie_file_text: Option<&str>) -> (r: Result<
    Option<String>,
    Error,
>)
    ensures
        args.cookie matches Some(c) ==> (r matches Ok(Some(out)) && out@ == cleaned_cookie(c@)),
        args.cookie is None && (args.cookie_file is None || cookie_file_text is None) ==> (r matches Ok(
            None,
        )),
        args.cookie is None && args.cookie_file is Some && cookie_file_text is Some ==> {
            let header = cookie_file_header(cookie_file_text->0@);
            &&& header.len() == 0 ==> (r matches Err(Error::EmptyCookieFile))
            &&& header.len() > 0 ==> (r matches Ok(Some(out)) && out@ == header)
        },
{
    if let Some(c) = &args.cookie {
        return Ok(Some(clean_cookie_header(c.as_str())));
    }
    if args.cookie_file.is_some() {
        if let Some(text) = cookie_file_text {
            let header = parse_cookie_file(text);
            if header.as_str().is_empty() {
                return Err(Error::EmptyCookieFile);
            }
            return Ok(Some(header));
        }
    }
    Ok(None)
}

} // verus!
