//! Character-level text operations, each with a specification over `Seq<char>`.
//!
//! The executable functions work on character slices and vectors; a string
//! is turned into its characters with `chars_of` and back with
//! `string_from_chars`.
use vstd::prelude::*;

verus! {

/// Appends one character to a string (`String::push`).
#[verifier::external_body]
pub(crate) fn push_char(s: &mut String, c: char)
    ensures
        final(s)@ == old(s)@.push(c),
{
    s.push(c);
}

/// The characters of a string slice, in order.
pub fn chars_of(s: &str) -> (v: Vec<char>)
    ensures
        v@ == s@,
{
    let mut v: Vec<char> = Vec::new();
    for c in it: s.chars()
        invariant
            v@ == it.seq().take(it.index() as int),
            it.seq() == s@,
    {
        v.push(c);
    }
    v
}

/// Builds a string from a sequence of characters.
pub fn string_from_chars(cs: &[char]) -> (s: String)
    ensures
        s@ == cs@,
{
    let mut s = String::new();
    let mut i: usize = 0;
    while i < cs.len()
        invariant
            i <= cs.len(),
            s@ == cs@.take(i as int),
        decreases cs.len() - i,
    {
        push_char(&mut s, cs[i]);
        proof {
            assert(cs@.take(i as int).push(cs@[i as int]) =~= cs@.take(i + 1));
        }
        i = i + 1;
    }
    proof {
        assert(cs@.take(cs@.len() as int) =~= cs@);
    }
    s
}

/// Appends the characters of `tail` to `out`.
pub fn extend_chars(out: &mut Vec<char>, tail: &[char])
    ensures
        final(out)@ == old(out)@ + tail@,
{
    let mut i: usize = 0;
    while i < tail.len()
        invariant
            i <= tail.len(),
            out@ == old(out)@ + tail@.take(i as int),
        decreases tail.len() - i,
    {
        out.push(tail[i]);
        proof {
            assert(old(out)@ + tail@.take(i + 1) =~= (old(out)@ + tail@.take(i as int)).push(
                tail@[i as int],
            ));
        }
        i = i + 1;
    }
    proof {
        assert(tail@.take(tail@.len() as int) =~= tail@);
    }
}

/// A copy of the characters `s[from..to]`.
pub fn slice_chars(s: &[char], from: usize, to: usize) -> (out: Vec<char>)
    requires
        from <= to <= s@.len(),
    ensures
        out@ == s@.subrange(from as int, to as int),
{
    let mut out: Vec<char> = Vec::new();
    let mut i: usize = from;
    while i < to
        invariant
            from <= i <= to <= s@.len(),
            out@ == s@.subrange(from as int, i as int),
        decreases to - i,
    {
        out.push(s[i]);
        proof {
            assert(s@.subrange(from as int, i + 1) =~= s@.subrange(from as int, i as int).push(
                s@[i as int],
            ));
        }
        i = i + 1;
    }
    out
}

/// Whether two character sequences are equal.
pub fn chars_equal(a: &[char], b: &[char]) -> (r: bool)
    ensures
        r == (a@ == b@),
{
    if a.len() != b.len() {
        return false;
    }
    let mut i: usize = 0;
    while i < a.len()
        invariant
            a@.len() == b@.len(),
            i <= a@.len(),
            forall|k: int| 0 <= k < i ==> a@[k] == b@[k],
        decreases a.len() - i,
    {
        if a[i] != b[i] {
            return false;
        }
        i = i + 1;
    }
    proof {
        assert(a@ =~= b@);
    }
    true
}

// ---------------------------------------------------------------------------
// Character classes
// ---------------------------------------------------------------------------

/// `char::is_whitespace`: the characters with the Unicode `White_Space` property.
pub open spec fn is_whitespace_char(c: char) -> bool {
    let u = c as u32;
    ||| 0x09 <= u <= 0x0d
    ||| u == 0x20
    ||| u == 0x85
    ||| u == 0xa0
    ||| u == 0x1680
    ||| 0x2000 <= u <= 0x200a
    ||| u == 0x2028
    ||| u == 0x2029
    ||| u == 0x202f
    ||| u == 0x205f
    ||| u == 0x3000
}

/// `char::is_control`: the characters of the Unicode general category `Cc`.
pub open spec fn is_control_char(c: char) -> bool {
    let u = c as u32;
    u <= 0x1f || (0x7f <= u <= 0x9f)
}

/// `char::is_ascii_digit`.
pub open spec fn is_ascii_digit_char(c: char) -> bool {
    '0' <= c <= '9'
}

/// `char::to_ascii_lowercase`.
pub open spec fn ascii_lower_char(c: char) -> char {
    if 'A' <= c <= 'Z' {
        ((c as u32) + 32) as char
    } else {
        c
    }
}

/// `str::to_ascii_lowercase`.
pub open spec fn ascii_lower(s: Seq<char>) -> Seq<char> {
    Seq::new(s.len(), |i: int| ascii_lower_char(s[i]))
}

pub fn is_whitespace(c: char) -> (r: bool)
    ensures
        r == is_whitespace_char(c),
{
    let u = c as u32;
    (0x09 <= u && u <= 0x0d) || u == 0x20 || u == 0x85 || u == 0xa0 || u == 0x1680 || (0x2000
        <= u && u <= 0x200a) || u == 0x2028 || u == 0x2029 || u == 0x202f || u == 0x205f || u
        == 0x3000
}

pub fn is_control(c: char) -> (r: bool)
    ensures
        r == is_control_char(c),
{
    let u = c as u32;
    u <= 0x1f || (0x7f <= u && u <= 0x9f)
}

pub fn is_ascii_digit(c: char) -> (r: bool)
    ensures
        r == is_ascii_digit_char(c),
{
    '0' <= c && c <= '9'
}

pub fn ascii_lowercase(s: &[char]) -> (out: Vec<char>)
    ensures
        out@ == ascii_lower(s@),
{
    let mut out: Vec<char> = Vec::new();
    let mut i: usize = 0;
    while i < s.len()
        invariant
            i <= s@.len(),
            out@ =~= ascii_lower(s@).take(i as int),
        decreases s.len() - i,
    {
        let c = s[i];
        let lower = if 'A' <= c && c <= 'Z' {
            let u = (c as u32) + 32;
            proof {
                assert(0x61 <= u <= 0x7a);
            }
            char_from_ascii(u)
        } else {
            c
        };
        out.push(lower);
        i = i + 1;
    }
    out
}

/// The character with an ASCII code point.
pub fn char_from_ascii(u: u32) -> (c: char)
    requires
        u < 0x80,
    ensures
        c as u32 == u,
        c == u as char,
{
    let b: u8 = u as u8;
    b as char
}

// ---------------------------------------------------------------------------
// Trimming
// ---------------------------------------------------------------------------

/// The sets of characters that the trimming operations remove.
#[derive(Clone, Copy, PartialEq, Eq, Structural)]
pub enum TrimSet {
    /// Unicode whitespace (`str::trim`).
    Whitespace,
    /// A space or a full stop.
    SpaceOrDot,
    /// A semicolon.
    Semicolon,
}

pub open spec fn in_trim_set(set: TrimSet, c: char) -> bool {
    match set {
        TrimSet::Whitespace => is_whitespace_char(c),
        TrimSet::SpaceOrDot => c == ' ' || c == '.',
        TrimSet::Semicolon => c == ';',
    }
}

pub fn is_in_trim_set(set: TrimSet, c: char) -> (r: bool)
    ensures
        r == in_trim_set(set, c),
{
    match set {
        TrimSet::Whitespace => is_whitespace(c),
        TrimSet::SpaceOrDot => c == ' ' || c == '.',
        TrimSet::Semicolon => c == ';',
    }
}

/// The sequence without its leading characters of `set` (`trim_start_matches`).
pub open spec fn trim_start_set(s: Seq<char>, set: TrimSet) -> Seq<char>
    decreases s.len(),
{
    if s.len() > 0 && in_trim_set(set, s[0]) {
        trim_start_set(s.drop_first(), set)
    } else {
        s
    }
}

/// The sequence without its trailing characters of `set` (`trim_end_matches`).
pub open spec fn trim_end_set(s: Seq<char>, set: TrimSet) -> Seq<char>
    decreases s.len(),
{
    if s.len() > 0 && in_trim_set(set, s.last()) {
        trim_end_set(s.drop_last(), set)
    } else {
        s
    }
}

/// The sequence without leading and trailing characters of `set` (`trim_matches`).
pub open spec fn trim_set(s: Seq<char>, set: TrimSet) -> Seq<char> {
    trim_end_set(trim_start_set(s, set), set)
}

/// `str::trim`.
pub open spec fn trim(s: Seq<char>) -> Seq<char> {
    trim_set(s, TrimSet::Whitespace)
}

pub proof fn lemma_trim_start_skip(s: Seq<char>, set: TrimSet, k: int)
    requires
        0 <= k <= s.len(),
        forall|i: int| 0 <= i < k ==> in_trim_set(set, #[trigger] s[i]),
        k == s.len() || !in_trim_set(set, s[k]),
    ensures
        trim_start_set(s, set) == s.skip(k),
    decreases k,
{
    if k == 0 {
        assert(s.skip(0) =~= s);
    } else {
        let t = s.drop_first();
        assert forall|i: int| 0 <= i < k - 1 implies in_trim_set(set, #[trigger] t[i]) by {
            assert(t[i] == s[i + 1]);
        }
        lemma_trim_start_skip(t, set, k - 1);
        assert(t.skip(k - 1) =~= s.skip(k));
    }
}

pub proof fn lemma_trim_end_take(s: Seq<char>, set: TrimSet, k: int)
    requires
        0 <= k <= s.len(),
        forall|i: int| k <= i < s.len() ==> in_trim_set(set, #[trigger] s[i]),
        k == 0 || !in_trim_set(set, s[k - 1]),
    ensures
        trim_end_set(s, set) == s.take(k),
    decreases s.len() - k,
{
    if k == s.len() {
        assert(s.take(k) =~= s);
    } else {
        let t = s.drop_last();
        lemma_trim_end_take(t, set, k);
        assert(t.take(k) =~= s.take(k));
    }
}

/// The characters of `s` without the leading characters of `set`.
pub fn trim_start_chars(s: &[char], set: TrimSet) -> (out: Vec<char>)
    ensures
        out@ == trim_start_set(s@, set),
{
    let mut a: usize = 0;
    while a < s.len() && is_in_trim_set(set, s[a])
        invariant
            a <= s@.len(),
            forall|i: int| 0 <= i < a ==> in_trim_set(set, #[trigger] s@[i]),
        decreases s.len() - a,
    {
        a = a + 1;
    }
    proof {
        lemma_trim_start_skip(s@, set, a as int);
        assert(s@.subrange(a as int, s@.len() as int) =~= s@.skip(a as int));
    }
    slice_chars(s, a, s.len())
}

/// The characters of `s` without the trailing characters of `set`.
pub fn trim_end_chars(s: &[char], set: TrimSet) -> (out: Vec<char>)
    ensures
        out@ == trim_end_set(s@, set),
{
    let mut b: usize = s.len();
    while b > 0 && is_in_trim_set(set, s[b - 1])
        invariant
            b <= s@.len(),
            forall|i: int| b <= i < s@.len() ==> in_trim_set(set, #[trigger] s@[i]),
        decreases b,
    {
        b = b - 1;
    }
    proof {
        lemma_trim_end_take(s@, set, b as int);
        assert(s@.subrange(0, b as int) =~= s@.take(b as int));
    }
    slice_chars(s, 0, b)
}

/// The characters of `s` without leading and trailing characters of `set`.
pub fn trim_chars(s: &[char], set: TrimSet) -> (out: Vec<char>)
    ensures
        out@ == trim_set(s@, set),
{
    let start = trim_start_chars(s, set);
    trim_end_chars(&start, set)
}

/// Whether every character of `s` is whitespace, which is when `trim` leaves nothing.
pub open spec fn is_blank(s: Seq<char>) -> bool {
    forall|i: int| 0 <= i < s.len() ==> is_whitespace_char(#[trigger] s[i])
}

pub proof fn lemma_blank_iff_trim_empty(s: Seq<char>)
    ensures
        is_blank(s) <==> trim(s).len() == 0,
    decreases s.len(),
{
    if s.len() > 0 {
        if is_whitespace_char(s[0]) {
            let t = s.drop_first();
            lemma_blank_iff_trim_empty(t);
            assert(trim_start_set(s, TrimSet::Whitespace) == trim_start_set(t, TrimSet::Whitespace));
            if is_blank(t) {
                assert forall|i: int| 0 <= i < s.len() implies is_whitespace_char(#[trigger] s[i]) by {
                    if i > 0 {
                        assert(s[i] == t[i - 1]);
                    }
                }
            } else {
                let j = choose|j: int| 0 <= j < t.len() && !is_whitespace_char(#[trigger] t[j]);
                assert(s[j + 1] == t[j]);
            }
        } else {
            assert(trim_start_set(s, TrimSet::Whitespace) == s);
            lemma_trim_end_nonempty(s, TrimSet::Whitespace);
        }
    }
}

/// Trimming the end never removes a first character that is outside the set.
proof fn lemma_trim_end_nonempty(s: Seq<char>, set: TrimSet)
    requires
        s.len() > 0,
        !in_trim_set(set, s[0]),
    ensures
        trim_end_set(s, set).len() > 0,
    decreases s.len(),
{
    if in_trim_set(set, s.last()) {
        assert(s.len() > 1);
        lemma_trim_end_nonempty(s.drop_last(), set);
    }
}

/// Whether every character of `s` is whitespace.
pub fn chars_blank(s: &[char]) -> (r: bool)
    ensures
        r == is_blank(s@),
{
    let mut i: usize = 0;
    while i < s.len()
        invariant
            i <= s@.len(),
            forall|k: int| 0 <= k < i ==> is_whitespace_char(#[trigger] s@[k]),
        decreases s.len() - i,
    {
        if !is_whitespace(s[i]) {
            return false;
        }
        i = i + 1;
    }
    true
}

/// `str::trim_start_matches` with a string pattern: all leading copies of `pat` removed.
pub open spec fn strip_prefixes(s: Seq<char>, pat: Seq<char>) -> Seq<char>
    recommends
        pat.len() > 0,
    decreases s.len(),
{
    if pat.len() > 0 && pat.len() <= s.len() && s.take(pat.len() as int) == pat {
        strip_prefixes(s.skip(pat.len() as int), pat)
    } else {
        s
    }
}

/// Whether `pat` occurs in `s` at position `at`.
pub open spec fn occurs_at(s: Seq<char>, pat: Seq<char>, at: int) -> bool {
    0 <= at && at + pat.len() <= s.len() && s.subrange(at, at + pat.len()) == pat
}

pub fn chars_occur_at(s: &[char], pat: &[char], at: usize) -> (r: bool)
    ensures
        r == occurs_at(s@, pat@, at as int),
{
    if pat.len() > s.len() || at > s.len() - pat.len() {
        return false;
    }
    let mut i: usize = 0;
    while i < pat.len()
        invariant
            at + pat@.len() <= s@.len(),
            i <= pat@.len(),
            forall|k: int| 0 <= k < i ==> s@[at + k] == pat@[k],
        decreases pat.len() - i,
    {
        assert(at + i < s.len());
        if s[at + i] != pat[i] {
            proof {
                assert(s@.subrange(at as int, at + pat@.len())[i as int] != pat@[i as int]);
            }
            return false;
        }
        i = i + 1;
    }
    proof {
        assert(s@.subrange(at as int, at + pat@.len()) =~= pat@);
    }
    true
}

/// The characters of `s` without all leading copies of `pat`.
pub fn strip_prefixes_chars(s: &[char], pat: &[char]) -> (out: Vec<char>)
    requires
        pat@.len() > 0,
    ensures
        out@ == strip_prefixes(s@, pat@),
{
    let mut a: usize = 0;
    proof {
        assert(s@.skip(0) =~= s@);
    }
    while chars_occur_at(s, pat, a)
        invariant
            pat@.len() > 0,
            a <= s@.len(),
            strip_prefixes(s@.skip(a as int), pat@) == strip_prefixes(s@, pat@),
        decreases s.len() - a,
    {
        proof {
            let t = s@.skip(a as int);
            assert(t.take(pat@.len() as int) =~= s@.subrange(a as int, a + pat@.len()));
            assert(t.skip(pat@.len() as int) =~= s@.skip(a + pat@.len()));
        }
        a = a + pat.len();
    }
    proof {
        let t = s@.skip(a as int);
        if pat@.len() <= t.len() {
            assert(t.take(pat@.len() as int) =~= s@.subrange(a as int, a + pat@.len()));
        }
        assert(s@.subrange(a as int, s@.len() as int) =~= t);
    }
    slice_chars(s, a, s.len())
}

// ---------------------------------------------------------------------------
// Searching
// ---------------------------------------------------------------------------

/// Whether `pat` occurs somewhere in `s` (`str::contains`).
pub open spec fn has_infix(s: Seq<char>, pat: Seq<char>) -> bool {
    exists|at: int| occurs_at(s, pat, at)
}

pub fn contains_chars(s: &[char], pat: &[char]) -> (r: bool)
    ensures
        r == has_infix(s@, pat@),
{
    if pat.len() > s.len() {
        return false;
    }
    let limit = s.len() - pat.len();
    let mut at: usize = 0;
    loop
        invariant
            pat@.len() <= s@.len(),
            limit == s@.len() - pat@.len(),
            at <= limit,
            forall|k: int| 0 <= k < at ==> !occurs_at(s@, pat@, k),
        decreases limit - at,
    {
        if chars_occur_at(s, pat, at) {
            return true;
        }
        if at == limit {
            return false;
        }
        at = at + 1;
    }
}

// ---------------------------------------------------------------------------
// Splitting and joining
// ---------------------------------------------------------------------------

/// `str::split` on a character: the pieces between the separators (at least one).
pub open spec fn split_on(s: Seq<char>, sep: char) -> Seq<Seq<char>>
    decreases s.len(),
{
    if s.len() == 0 {
        seq![Seq::<char>::empty()]
    } else {
        let p = split_on(s.drop_last(), sep);
        if s.last() == sep {
            p.push(Seq::<char>::empty())
        } else {
            p.update(p.len() - 1, p.last().push(s.last()))
        }
    }
}

pub proof fn lemma_split_on_nonempty(s: Seq<char>, sep: char)
    ensures
        split_on(s, sep).len() >= 1,
    decreases s.len(),
{
    if s.len() > 0 {
        lemma_split_on_nonempty(s.drop_last(), sep);
    }
}

/// The views of a vector of character vectors.
pub open spec fn pieces_view(v: Seq<Vec<char>>) -> Seq<Seq<char>> {
    v.map_values(|p: Vec<char>| p@)
}

/// The pieces of `s` between occurrences of `sep`.
pub fn split_chars(s: &[char], sep: char) -> (out: Vec<Vec<char>>)
    ensures
        pieces_view(out@) == split_on(s@, sep),
{
    let mut done: Vec<Vec<char>> = Vec::new();
    let mut current: Vec<char> = Vec::new();
    let mut i: usize = 0;
    proof {
        assert(s@.take(0) =~= Seq::<char>::empty());
        assert(pieces_view(done@).push(current@) =~= split_on(Seq::<char>::empty(), sep));
    }
    while i < s.len()
        invariant
            i <= s@.len(),
            pieces_view(done@).push(current@) == split_on(s@.take(i as int), sep),
        decreases s.len() - i,
    {
        let c = s[i];
        proof {
            let t = s@.take(i + 1);
            assert(t.drop_last() =~= s@.take(i as int));
            assert(t.last() == c);
            lemma_split_on_nonempty(s@.take(i as int), sep);
        }
        if c == sep {
            let ghost prev = done@;
            let finished = current;
            done.push(finished);
            current = Vec::new();
            proof {
                assert(pieces_view(done@) =~= pieces_view(prev).push(finished@));
            }
        } else {
            current.push(c);
        }
        proof {
            let t = s@.take(i + 1);
            assert(pieces_view(done@).push(current@) =~= split_on(t, sep));
        }
        i = i + 1;
    }
    proof {
        assert(s@.take(s@.len() as int) =~= s@);
    }
    done.push(current);
    proof {
        assert(pieces_view(done@) =~= split_on(s@, sep));
    }
    done
}

/// Joins the pieces with `sep` between each two (`[T]::join`).
pub open spec fn join_with(list: Seq<Seq<char>>, sep: Seq<char>) -> Seq<char>
    decreases list.len(),
{
    if list.len() == 0 {
        Seq::<char>::empty()
    } else if list.len() == 1 {
        list[0]
    } else {
        join_with(list.drop_last(), sep) + sep + list.last()
    }
}

/// The pieces joined with `sep` between each two.
pub fn join_chars(list: &Vec<Vec<char>>, sep: &[char]) -> (out: Vec<char>)
    ensures
        out@ == join_with(pieces_view(list@), sep@),
{
    let mut out: Vec<char> = Vec::new();
    let mut i: usize = 0;
    while i < list.len()
        invariant
            i <= list@.len(),
            out@ == join_with(pieces_view(list@).take(i as int), sep@),
        decreases list.len() - i,
    {
        proof {
            let t = pieces_view(list@).take(i + 1);
            assert(t.drop_last() =~= pieces_view(list@).take(i as int));
            assert(t.last() == list@[i as int]@);
        }
        if i > 0 {
            extend_chars(&mut out, sep);
        } else {
            proof {
                assert(Seq::<char>::empty() + list@[0]@ =~= list@[0]@);
            }
        }
        extend_chars(&mut out, &list[i]);
        i = i + 1;
    }
    proof {
        assert(pieces_view(list@).take(list@.len() as int) =~= pieces_view(list@));
    }
    out
}

} // verus!

verus! {

// ---------------------------------------------------------------------------
// Lines
// ---------------------------------------------------------------------------

/// The line without one trailing carriage return.
pub open spec fn strip_cr(line: Seq<char>) -> Seq<char> {
    if line.len() > 0 && line.last() == '\r' {
        line.drop_last()
    } else {
        line
    }
}

/// `str::lines`: the pieces between `\n`, each without the `\r` of a `\r\n` ending;
/// a final line ending adds no empty line.
pub open spec fn lines_of(s: Seq<char>) -> Seq<Seq<char>> {
    let pieces = split_on(s, '\n');
    let n = pieces.len();
    let count: nat = if pieces.last().len() == 0 {
        (n - 1) as nat
    } else {
        n
    };
    Seq::new(
        count,
        |i: int|
            if i < n - 1 {
                strip_cr(pieces[i])
            } else {
                pieces[i]
            },
    )
}

fn strip_cr_chars(line: &Vec<char>) -> (out: Vec<char>)
    ensures
        out@ == strip_cr(line@),
{
    if line.len() > 0 && line[line.len() - 1] == '\r' {
        slice_chars(line, 0, line.len() - 1)
    } else {
        proof {
            assert(line@.subrange(0, line@.len() as int) =~= line@);
        }
        slice_chars(line, 0, line.len())
    }
}

/// The lines of `s`, as `str::lines` gives them.
pub fn lines_chars(s: &[char]) -> (out: Vec<Vec<char>>)
    ensures
        pieces_view(out@) == lines_of(s@),
{
    let pieces = split_chars(s, '\n');
    proof {
        lemma_split_on_nonempty(s@, '\n');
    }
    let n = pieces.len();
    let count = if pieces[n - 1].len() == 0 {
        n - 1
    } else {
        n
    };
    let mut out: Vec<Vec<char>> = Vec::new();
    let mut i: usize = 0;
    while i < count
        invariant
            n == pieces@.len(),
            n >= 1,
            count <= n,
            i <= count,
            pieces_view(pieces@) == split_on(s@, '\n'),
            count == lines_of(s@).len(),
            pieces_view(out@) =~= lines_of(s@).take(i as int),
        decreases count - i,
    {
        let line = if i < n - 1 {
            strip_cr_chars(&pieces[i])
        } else {
            slice_chars(&pieces[i], 0, pieces[i].len())
        };
        proof {
            assert(pieces@[i as int]@ == split_on(s@, '\n')[i as int]);
            assert(pieces@[i as int]@.subrange(0, pieces@[i as int]@.len() as int)
                =~= pieces@[i as int]@);
        }
        let ghost prev = out@;
        out.push(line);
        proof {
            assert(pieces_view(out@) =~= pieces_view(prev).push(line@));
        }
        i = i + 1;
    }
    out
}

} // verus!
