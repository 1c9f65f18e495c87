//! Text handling shared by the line-oriented formats: splitting content into
//! lines, UTF-8 decoding, whitespace trimming and field splitting.

use vstd::prelude::*;
use vstd::string::StrSliceExecFns;
use vstd::utf8::*;

verus! {

/// Calls `std::str::from_utf8`. Its documentation: the bytes are returned as
/// a string slice when they are valid UTF-8, and an error is returned
/// otherwise. The contract states that over vstd's model of UTF-8.
#[verifier::external_body]
pub(crate) fn utf8_str(bytes: &[u8]) -> (res: Option<&str>)
    ensures
        res is Some <==> valid_utf8(bytes@),
        res matches Some(s) ==> s@ == decode_utf8(bytes@),
{
    std::str::from_utf8(bytes).ok()
}

/// The characters of a string slice.
pub(crate) fn str_chars(s: &str) -> (res: Vec<char>)
    ensures
        res@ == s@,
{
    let n = s.unicode_len();
    let mut v: Vec<char> = Vec::new();
    let mut i: usize = 0;
    while i < n
        invariant
            n == s@.len(),
            i <= n,
            v@ == s@.subrange(0, i as int),
        decreases n - i,
    {
        let c = s.get_char(i);
        v.push(c);
        i = i + 1;
        assert(v@ =~= s@.subrange(0, i as int));
    }
    assert(v@ =~= s@);
    v
}

/// An owned copy of the characters `from..to` of a string slice.
pub(crate) fn substring(s: &str, from: usize, to: usize) -> (res: String)
    requires
        from <= to <= s@.len(),
    ensures
        res@ == s@.subrange(from as int, to as int),
{
    s.substring_char(from, to).to_owned()
}

/// Whether two string slices hold the same characters.
pub(crate) fn same_text(a: &str, b: &str) -> (res: bool)
    ensures
        res == (a@ == b@),
{
    let n = a.unicode_len();
    let m = b.unicode_len();
    if n != m {
        return false;
    }
    let mut i: usize = 0;
    while i < n
        invariant
            n == a@.len(),
            n == b@.len(),
            i <= n,
            a@.subrange(0, i as int) == b@.subrange(0, i as int),
        decreases n - i,
    {
        if a.get_char(i) != b.get_char(i) {
            return false;
        }
        i = i + 1;
        assert(a@.subrange(0, i as int) =~= a@.subrange(0, i - 1).push(a@[i - 1]));
        assert(b@.subrange(0, i as int) =~= b@.subrange(0, i - 1).push(b@[i - 1]));
    }
    assert(a@ =~= a@.subrange(0, n as int));
    assert(b@ =~= b@.subrange(0, n as int));
    true
}

/// The Unicode `White_Space` characters, which `char::is_whitespace` and
/// `str::trim` go by.
pub open spec fn is_white_space(c: char) -> bool {
    ||| ('\u{9}' <= c && c <= '\u{d}')
    ||| c == ' '
    ||| c == '\u{85}'
    ||| c == '\u{a0}'
    ||| c == '\u{1680}'
    ||| ('\u{2000}' <= c && c <= '\u{200a}')
    ||| c == '\u{2028}'
    ||| c == '\u{2029}'
    ||| c == '\u{202f}'
    ||| c == '\u{205f}'
    ||| c == '\u{3000}'
}

pub(crate) fn white_space(c: char) -> (res: bool)
    ensures
        res == is_white_space(c),
{
    ('\u{9}' <= c && c <= '\u{d}') || c == ' ' || c == '\u{85}' || c == '\u{a0}' || c
        == '\u{1680}' || ('\u{2000}' <= c && c <= '\u{200a}') || c == '\u{2028}' || c
        == '\u{2029}' || c == '\u{202f}' || c == '\u{205f}' || c == '\u{3000}'
}

/// A text without its leading white space.
pub open spec fn trim_start(s: Seq<char>) -> Seq<char>
    decreases s.len(),
{
    if s.len() > 0 && is_white_space(s[0]) {
        trim_start(s.drop_first())
    } else {
        s
    }
}

/// A text without its trailing white space.
pub open spec fn trim_end(s: Seq<char>) -> Seq<char>
    decreases s.len(),
{
    if s.len() > 0 && is_white_space(s.last()) {
        trim_end(s.drop_last())
    } else {
        s
    }
}

/// A text without its leading and trailing white space.
pub open spec fn trim(s: Seq<char>) -> Seq<char> {
    trim_end(trim_start(s))
}

/// The bounds of the trimmed part of `cs`.
pub(crate) fn trim_bounds(cs: &Vec<char>) -> (res: (usize, usize))
    ensures
        res.0 <= res.1 <= cs@.len(),
        cs@.subrange(res.0 as int, res.1 as int) == trim(cs@),
{
    let n = cs.len();
    let mut i: usize = 0;
    assert(cs@.skip(0) =~= cs@);
    while i < n && white_space(cs[i])
        invariant
            n == cs@.len(),
            i <= n,
            trim_start(cs@) == trim_start(cs@.skip(i as int)),
        decreases n - i,
    {
        assert(cs@.skip(i as int).drop_first() =~= cs@.skip(i + 1));
        i = i + 1;
    }
    assert(trim_start(cs@) == cs@.skip(i as int));
    let mut j: usize = n;
    assert(cs@.skip(i as int) =~= cs@.subrange(i as int, n as int));
    while j > i && white_space(cs[j - 1])
        invariant
            n == cs@.len(),
            i <= j <= n,
            trim(cs@) == trim_end(cs@.subrange(i as int, j as int)),
        decreases j,
    {
        assert(cs@.subrange(i as int, j as int).drop_last() =~= cs@.subrange(i as int, j - 1));
        j = j - 1;
    }
    (i, j)
}

/// The first position at or after `i` where `x` occurs in `s`, or `s.len()`.
pub open spec fn first_index_of<T>(s: Seq<T>, x: T, i: int) -> int
    decreases s.len() - i,
{
    if i < 0 {
        first_index_of(s, x, 0)
    } else if i >= s.len() || s[i] == x {
        i
    } else {
        first_index_of(s, x, i + 1)
    }
}

pub proof fn lemma_first_index_of<T>(s: Seq<T>, x: T, i: int, k: int)
    requires
        0 <= i <= k <= s.len(),
        forall|m: int| i <= m < k ==> s[m] != x,
        k == s.len() || s[k] == x,
    ensures
        first_index_of(s, x, i) == k,
    decreases k - i,
{
    if i < k {
        lemma_first_index_of(s, x, i + 1, k);
    }
}

pub proof fn lemma_first_index_of_bounds<T>(s: Seq<T>, x: T, i: int)
    requires
        0 <= i <= s.len(),
    ensures
        i <= first_index_of(s, x, i) <= s.len(),
        first_index_of(s, x, i) < s.len() ==> s[first_index_of(s, x, i)] == x,
        forall|m: int| i <= m < first_index_of(s, x, i) ==> s[m] != x,
    decreases s.len() - i,
{
    if i < s.len() && s[i] != x {
        lemma_first_index_of_bounds(s, x, i + 1);
    }
}

/// The pieces of a text between the separators `sep`, as `str::split` gives
/// them: one more piece than there are separators.
pub open spec fn split_on(s: Seq<char>, sep: char) -> Seq<Seq<char>>
    decreases s.len(),
{
    let k = first_index_of(s, sep, 0);
    if k >= s.len() {
        seq![s]
    } else {
        proof {
            lemma_first_index_of_bounds(s, sep, 0);
        }
        seq![s.take(k)] + split_on(s.skip(k + 1), sep)
    }
}

/// The owned pieces of `s[lo..hi]` between the separators `sep`.
pub(crate) fn split_pieces(s: &str, cs: &Vec<char>, lo: usize, hi: usize, sep: char) -> (res:
    Vec<String>)
    requires
        cs@ == s@,
        lo <= hi <= cs@.len(),
    ensures
        res@.map_values(|p: String| p@) == split_on(cs@.subrange(lo as int, hi as int), sep),
{
    let mut pieces: Vec<String> = Vec::new();
    let mut start: usize = lo;
    let mut j: usize = lo;
    while j < hi
        invariant
            cs@ == s@,
            lo <= start <= j <= hi <= cs@.len(),
            forall|m: int| start <= m < j ==> cs@[m] != sep,
            split_on(cs@.subrange(lo as int, hi as int), sep) == pieces@.map_values(
                |p: String| p@,
            ) + split_on(cs@.subrange(start as int, hi as int), sep),
        decreases hi - j,
    {
        if cs[j] == sep {
            let ghost rest = cs@.subrange(start as int, hi as int);
            proof {
                lemma_first_index_of(rest, sep, 0, j - start);
                assert(rest.take(j - start) =~= cs@.subrange(start as int, j as int));
                assert(rest.skip(j - start + 1) =~= cs@.subrange(j + 1, hi as int));
            }
            let piece = substring(s, start, j);
            let ghost before = pieces@.map_values(|p: String| p@);
            pieces.push(piece);
            assert(pieces@.map_values(|p: String| p@) =~= before.push(piece@));
            start = j + 1;
        }
        j = j + 1;
    }
    let ghost rest = cs@.subrange(start as int, hi as int);
    proof {
        lemma_first_index_of(rest, sep, 0, rest.len() as int);
    }
    let piece = substring(s, start, hi);
    let ghost before = pieces@.map_values(|p: String| p@);
    pieces.push(piece);
    assert(pieces@.map_values(|p: String| p@) =~= before.push(piece@));
    pieces
}

/// The first position at or after `i` where `": "` starts in `s`, or `s.len()`.
pub open spec fn find_key_separator(s: Seq<char>, i: int) -> int
    decreases s.len() - i,
{
    if i < 0 {
        find_key_separator(s, 0)
    } else if i + 1 >= s.len() {
        s.len() as int
    } else if s[i] == ':' && s[i + 1] == ' ' {
        i
    } else {
        find_key_separator(s, i + 1)
    }
}

/// The text before and after the first `": "`, as `str::split_once` gives them.
pub open spec fn split_key_value(s: Seq<char>) -> Option<(Seq<char>, Seq<char>)> {
    let k = find_key_separator(s, 0);
    if k < s.len() {
        Some((s.take(k), s.skip(k + 2)))
    } else {
        None
    }
}

/// The key and the value of a `key: value` line, between `lo` and `hi`.
pub(crate) fn split_key_value_pieces(s: &str, cs: &Vec<char>, lo: usize, hi: usize) -> (res:
    Option<(String, String)>)
    requires
        cs@ == s@,
        lo <= hi <= cs@.len(),
    ensures
        match split_key_value(cs@.subrange(lo as int, hi as int)) {
            Some((k, v)) => res matches Some((rk, rv)) && rk@ == k && rv@ == v,
            None => res is None,
        },
{
    let ghost t = cs@.subrange(lo as int, hi as int);
    let mut j: usize = lo;
    while j < hi && hi - j > 1
        invariant
            cs@ == s@,
            lo <= hi <= cs@.len(),
            t == cs@.subrange(lo as int, hi as int),
            lo <= j <= hi,
            find_key_separator(t, 0) == find_key_separator(t, j - lo),
        decreases hi - j,
    {
        if cs[j] == ':' && cs[j + 1] == ' ' {
            let key = substring(s, lo, j);
            let value = substring(s, j + 2, hi);
            assert(t.take(j - lo) =~= key@);
            assert(t.skip(j - lo + 2) =~= value@);
            return Some((key, value));
        }
        j = j + 1;
    }
    None
}

/// A line without the carriage return that ends it, if any.
pub open spec fn strip_cr(b: Seq<u8>) -> Seq<u8> {
    if b.len() > 0 && b.last() == 13u8 {
        b.drop_last()
    } else {
        b
    }
}

/// The lines of some content as `BufRead::lines` yields them: split at each
/// `\n`, without the `\n` and a `\r` before it, no line after a final `\n`;
/// lines that are not valid UTF-8 are left out.
pub open spec fn text_lines(b: Seq<u8>) -> Seq<Seq<char>>
    decreases b.len(),
{
    if b.len() == 0 {
        seq![]
    } else {
        let e = first_index_of(b, 10u8, 0);
        if e < b.len() {
            proof {
                lemma_first_index_of_bounds(b, 10u8, 0);
            }
            let raw = strip_cr(b.take(e));
            let rest = text_lines(b.skip(e + 1));
            if valid_utf8(raw) {
                seq![decode_utf8(raw)] + rest
            } else {
                rest
            }
        } else {
            if valid_utf8(b) {
                seq![decode_utf8(b)]
            } else {
                seq![]
            }
        }
    }
}

/// The decoded lines of some content.
pub fn split_lines(content: &[u8]) -> (lines: Vec<String>)
    ensures
        lines@.map_values(|s: String| s@) == text_lines(content@),
{
    let n = content.len();
    let mut lines: Vec<String> = Vec::new();
    let mut pos: usize = 0;
    assert(content@.skip(0) =~= content@);
    while pos < n
        invariant
            n == content@.len(),
            pos <= n,
            text_lines(content@) == lines@.map_values(|s: String| s@) + text_lines(
                content@.skip(pos as int),
            ),
        decreases n - pos,
    {
        let ghost b = content@.skip(pos as int);
        let mut j: usize = pos;
        while j < n && content[j] != 10u8
            invariant
                n == content@.len(),
                pos <= j <= n,
                forall|m: int| pos <= m < j ==> content@[m] != 10u8,
            decreases n - j,
        {
            j = j + 1;
        }
        proof {
            lemma_first_index_of(b, 10u8, 0, j - pos);
        }
        let mut end: usize = j;
        if j < n && j > pos && content[j - 1] == 13u8 {
            end = j - 1;
        }
        let raw = vstd::slice::slice_subrange(content, pos, end);
        proof {
            if j < n {
                assert(raw@ =~= strip_cr(b.take(j - pos)));
                assert(b.skip(j - pos + 1) =~= content@.skip(j + 1));
            } else {
                assert(raw@ =~= b);
            }
        }
        let ghost before = lines@.map_values(|s: String| s@);
        match utf8_str(raw) {
            Some(s) => {
                lines.push(s.to_owned());
                assert(lines@.map_values(|s: String| s@) =~= before.push(decode_utf8(raw@)));
            },
            None => {},
        }
        if j < n {
            pos = j + 1;
        } else {
            pos = n;
            assert(content@.skip(n as int) =~= Seq::<u8>::empty());
        }
    }
    assert(content@.skip(n as int) =~= Seq::<u8>::empty());
    lines
}

} // verus!
