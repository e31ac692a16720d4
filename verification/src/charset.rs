//! Charset inference from a MIME content-type header.
//!
//! A content-type such as `text/html; Charset="UTF-8"` carries the resource's
//! text encoding as a `charset` parameter. The cache resolves a resource's
//! encoding from this parameter when no explicit encoding was stored: the
//! parameter key is matched case-insensitively, surrounding quotes are
//! stripped from the value, and the value is lowercased.

use vstd::prelude::*;

verus! {

use crate::text::{find_idx, split_parts, lemma_find_idx_at, find_from, push_char};

/// Whitespace recognised when trimming parts of a content-type header.
pub open spec fn is_space(c: char) -> bool {
    c == ' ' || c == '\t' || c == '\n' || c == '\r'
}

/// Quote characters stripped from a charset parameter value.
pub open spec fn is_quote(c: char) -> bool {
    c == '"' || c == '\''
}

/// ASCII lowercase of one character; other characters are unchanged.
pub open spec fn lower_char(c: char) -> char {
    if 'A' <= c && c <= 'Z' {
        ((c as u32) + 32) as char
    } else {
        c
    }
}

/// ASCII lowercase of a character sequence.
pub open spec fn lower_seq(s: Seq<char>) -> Seq<char> {
    s.map_values(|c: char| lower_char(c))
}

/// The sequence with leading whitespace removed.
pub open spec fn trim_start_spec(s: Seq<char>) -> Seq<char>
    decreases s.len(),
{
    if s.len() > 0 && is_space(s[0]) {
        trim_start_spec(s.drop_first())
    } else {
        s
    }
}

/// The sequence with trailing whitespace removed.
pub open spec fn trim_end_spec(s: Seq<char>) -> Seq<char>
    decreases s.len(),
{
    if s.len() > 0 && is_space(s.last()) {
        trim_end_spec(s.drop_last())
    } else {
        s
    }
}

/// The sequence with surrounding whitespace removed.
pub open spec fn trim_spec(s: Seq<char>) -> Seq<char> {
    trim_end_spec(trim_start_spec(s))
}

/// The sequence with leading quote characters removed.
pub open spec fn strip_quotes_start(s: Seq<char>) -> Seq<char>
    decreases s.len(),
{
    if s.len() > 0 && is_quote(s[0]) {
        strip_quotes_start(s.drop_first())
    } else {
        s
    }
}

/// The sequence with trailing quote characters removed.
pub open spec fn strip_quotes_end(s: Seq<char>) -> Seq<char>
    decreases s.len(),
{
    if s.len() > 0 && is_quote(s.last()) {
        strip_quotes_end(s.drop_last())
    } else {
        s
    }
}

/// The sequence with surrounding quote characters removed.
pub open spec fn strip_quotes_spec(s: Seq<char>) -> Seq<char> {
    strip_quotes_end(strip_quotes_start(s))
}

/// The characters of the parameter key `charset`.
pub open spec fn charset_chars() -> Seq<char> {
    seq!['c', 'h', 'a', 'r', 's', 'e', 't']
}

/// Whether a parameter key, after trimming, matches `charset`
/// case-insensitively.
pub open spec fn is_charset_key(k: Seq<char>) -> bool {
    lower_seq(trim_spec(k)) == charset_chars()
}

/// The charset named by a single `key=value` part of a content-type, if any.
pub open spec fn part_charset(p: Seq<char>) -> Option<Seq<char>> {
    let t = trim_spec(p);
    let e = find_idx(t, '=');
    if e == t.len() {
        None
    } else if is_charset_key(t.subrange(0, e)) {
        Some(lower_seq(strip_quotes_spec(t.subrange(e + 1, t.len() as int))))
    } else {
        None
    }
}

/// The charset named by the first part of the list that carries one.
pub open spec fn charset_of_parts(parts: Seq<Seq<char>>) -> Option<Seq<char>>
    decreases parts.len(),
{
    if parts.len() == 0 {
        None
    } else {
        match part_charset(parts[0]) {
            Some(v) => Some(v),
            None => charset_of_parts(parts.drop_first()),
        }
    }
}

/// The charset carried by a content-type header: the value of its first
/// `charset` parameter, quotes stripped and lowercased, if any.
pub open spec fn parse_charset_spec(ct: Seq<char>) -> Option<Seq<char>> {
    charset_of_parts(split_parts(ct, ';'))
}

fn is_space_exec(c: char) -> (r: bool)
    ensures
        r == is_space(c),
{
    c == ' ' || c == '\t' || c == '\n' || c == '\r'
}

fn is_quote_exec(c: char) -> (r: bool)
    ensures
        r == is_quote(c),
{
    c == '"' || c == '\''
}

fn lower_char_exec(c: char) -> (r: char)
    ensures
        r == lower_char(c),
{
    if 'A' <= c && c <= 'Z' {
        match c {
            'A' => 'a',
            'B' => 'b',
            'C' => 'c',
            'D' => 'd',
            'E' => 'e',
            'F' => 'f',
            'G' => 'g',
            'H' => 'h',
            'I' => 'i',
            'J' => 'j',
            'K' => 'k',
            'L' => 'l',
            'M' => 'm',
            'N' => 'n',
            'O' => 'o',
            'P' => 'p',
            'Q' => 'q',
            'R' => 'r',
            'S' => 's',
            'T' => 't',
            'U' => 'u',
            'V' => 'v',
            'W' => 'w',
            'X' => 'x',
            'Y' => 'y',
            _ => 'z',
        }
    } else {
        c
    }
}

/// Builds the ASCII-lowercased copy of a string.
pub fn lower_string(s: &str) -> (r: String)
    ensures
        r@ == lower_seq(s@),
{
    let n = s.unicode_len();
    let mut out = String::new();
    let mut i: usize = 0;
    while i < n
        invariant
            i <= n,
            n == s@.len(),
            out@ == lower_seq(s@.subrange(0, i as int)),
        decreases n - i,
    {
        let c = lower_char_exec(s.get_char(i));
        push_char(&mut out, c);
        proof {
            assert(s@.subrange(0, i + 1).drop_last() == s@.subrange(0, i as int));
            assert(out@ =~= lower_seq(s@.subrange(0, i + 1)));
        }
        i = i + 1;
    }
    proof {
        assert(s@.subrange(0, n as int) == s@);
    }
    out
}

proof fn lemma_trim_start_at(s: Seq<char>, i: int)
    requires
        0 <= i <= s.len(),
        forall|k: int| 0 <= k < i ==> is_space(s[k]),
        i == s.len() || !is_space(s[i]),
    ensures
        trim_start_spec(s) == s.subrange(i, s.len() as int),
    decreases i,
{
    if i == 0 {
        assert(s.subrange(0, s.len() as int) == s);
    } else {
        assert(is_space(s[0]));
        lemma_trim_start_at(s.drop_first(), i - 1);
        assert(s.drop_first().subrange(i - 1, s.drop_first().len() as int) == s.subrange(
            i,
            s.len() as int,
        ));
    }
}

proof fn lemma_trim_end_at(s: Seq<char>, h: int)
    requires
        0 <= h <= s.len(),
        forall|k: int| h <= k < s.len() ==> is_space(s[k]),
        h == 0 || !is_space(s[h - 1]),
    ensures
        trim_end_spec(s) == s.subrange(0, h),
    decreases s.len() - h,
{
    if h == s.len() {
        assert(s.subrange(0, s.len() as int) == s);
    } else {
        assert(is_space(s.last()));
        lemma_trim_end_at(s.drop_last(), h);
        assert(s.drop_last().subrange(0, h) == s.subrange(0, h));
    }
}

proof fn lemma_strip_start_at(s: Seq<char>, i: int)
    requires
        0 <= i <= s.len(),
        forall|k: int| 0 <= k < i ==> is_quote(s[k]),
        i == s.len() || !is_quote(s[i]),
    ensures
        strip_quotes_start(s) == s.subrange(i, s.len() as int),
    decreases i,
{
    if i == 0 {
        assert(s.subrange(0, s.len() as int) == s);
    } else {
        assert(is_quote(s[0]));
        lemma_strip_start_at(s.drop_first(), i - 1);
        assert(s.drop_first().subrange(i - 1, s.drop_first().len() as int) == s.subrange(
            i,
            s.len() as int,
        ));
    }
}

proof fn lemma_strip_end_at(s: Seq<char>, h: int)
    requires
        0 <= h <= s.len(),
        forall|k: int| h <= k < s.len() ==> is_quote(s[k]),
        h == 0 || !is_quote(s[h - 1]),
    ensures
        strip_quotes_end(s) == s.subrange(0, h),
    decreases s.len() - h,
{
    if h == s.len() {
        assert(s.subrange(0, s.len() as int) == s);
    } else {
        assert(is_quote(s.last()));
        lemma_strip_end_at(s.drop_last(), h);
        assert(s.drop_last().subrange(0, h) == s.subrange(0, h));
    }
}

/// The slice with surrounding whitespace removed.
fn trim(s: &str) -> (r: &str)
    ensures
        r@ == trim_spec(s@),
{
    let n = s.unicode_len();
    let mut lo: usize = 0;
    while lo < n && is_space_exec(s.get_char(lo))
        invariant
            lo <= n,
            n == s@.len(),
            forall|k: int| 0 <= k < lo ==> is_space(s@[k]),
        decreases n - lo,
    {
        lo = lo + 1;
    }
    proof {
        lemma_trim_start_at(s@, lo as int);
    }
    if lo == n {
        let r = s.substring_char(n, n);
        proof {
            assert(trim_start_spec(s@) == s@.subrange(n as int, n as int));
            assert(trim_start_spec(s@).len() == 0);
            assert(trim_end_spec(trim_start_spec(s@)) == trim_start_spec(s@));
        }
        return r;
    }
    let mut hi: usize = n;
    while hi > lo && is_space_exec(s.get_char(hi - 1))
        invariant
            lo <= hi <= n,
            n == s@.len(),
            forall|k: int| hi <= k < n ==> is_space(s@[k]),
        decreases hi,
    {
        hi = hi - 1;
    }
    let r = s.substring_char(lo, hi);
    proof {
        let t = s@.subrange(lo as int, n as int);
        assert(trim_start_spec(s@) == t);
        // The backward scan cannot pass the non-space character at `lo`.
        if hi == lo {
            assert(!is_space(s@[lo as int]));
            assert(is_space(s@[lo as int])) by {
                assert(hi < n ==> is_space(s@[hi as int]));
            }
        }
        assert(hi > lo);
        assert(!is_space(t[hi - lo - 1]));
        assert(forall|k: int| hi - lo <= k < t.len() ==> is_space(t[k]));
        lemma_trim_end_at(t, hi - lo);
        assert(t.subrange(0, hi - lo) == s@.subrange(lo as int, hi as int));
    }
    r
}

/// The slice with surrounding quote characters removed.
fn strip_quotes(s: &str) -> (r: &str)
    ensures
        r@ == strip_quotes_spec(s@),
{
    let n = s.unicode_len();
    let mut lo: usize = 0;
    while lo < n && is_quote_exec(s.get_char(lo))
        invariant
            lo <= n,
            n == s@.len(),
            forall|k: int| 0 <= k < lo ==> is_quote(s@[k]),
        decreases n - lo,
    {
        lo = lo + 1;
    }
    proof {
        lemma_strip_start_at(s@, lo as int);
    }
    if lo == n {
        let r = s.substring_char(n, n);
        proof {
            assert(strip_quotes_start(s@).len() == 0);
            assert(strip_quotes_end(strip_quotes_start(s@)) == strip_quotes_start(s@));
        }
        return r;
    }
    let mut hi: usize = n;
    while hi > lo && is_quote_exec(s.get_char(hi - 1))
        invariant
            lo <= hi <= n,
            n == s@.len(),
            forall|k: int| hi <= k < n ==> is_quote(s@[k]),
        decreases hi,
    {
        hi = hi - 1;
    }
    let r = s.substring_char(lo, hi);
    proof {
        let t = s@.subrange(lo as int, n as int);
        // The backward scan cannot pass the non-quote character at `lo`.
        if hi == lo {
            assert(!is_quote(s@[lo as int]));
            assert(is_quote(s@[lo as int])) by {
                assert(hi < n ==> is_quote(s@[hi as int]));
            }
        }
        assert(hi > lo);
        assert(!is_quote(t[hi - lo - 1]));
        assert(forall|k: int| hi - lo <= k < t.len() ==> is_quote(t[k]));
        lemma_strip_end_at(t, hi - lo);
        assert(t.subrange(0, hi - lo) == s@.subrange(lo as int, hi as int));
    }
    r
}

/// Whether the key of a `key=value` parameter is `charset`, matched
/// case-insensitively after trimming.
fn is_charset_key_exec(k: &str) -> (r: bool)
    ensures
        r == is_charset_key(k@),
{
    let t = trim(k);
    let n = t.unicode_len();
    if n != 7 {
        proof {
            assert(lower_seq(t@).len() == t@.len());
        }
        return false;
    }
    let ok = lower_char_exec(t.get_char(0)) == 'c' && lower_char_exec(t.get_char(1)) == 'h'
        && lower_char_exec(t.get_char(2)) == 'a' && lower_char_exec(t.get_char(3)) == 'r'
        && lower_char_exec(t.get_char(4)) == 's' && lower_char_exec(t.get_char(5)) == 'e'
        && lower_char_exec(t.get_char(6)) == 't';
    proof {
        assert(lower_seq(t@).len() == 7);
        if ok {
            assert(lower_seq(t@) =~= charset_chars());
        } else {
            assert(lower_seq(t@) != charset_chars()) by {
                if lower_seq(t@) == charset_chars() {
                    assert(lower_seq(t@)[0] == 'c' && lower_seq(t@)[1] == 'h' && lower_seq(t@)[2]
                        == 'a' && lower_seq(t@)[3] == 'r' && lower_seq(t@)[4] == 's' && lower_seq(
                        t@,
                    )[5] == 'e' && lower_seq(t@)[6] == 't');
                }
            }
        }
    }
    ok
}

/// The charset named by one `key=value` part, if its key is `charset`.
fn part_charset_exec(p: &str) -> (r: Option<String>)
    ensures
        r.deep_view() == part_charset(p@),
{
    let t = trim(p);
    let tn = t.unicode_len();
    let e = find_from(t, 0, '=');
    proof {
        lemma_find_idx_at(t@, '=', e as int);
    }
    if e == tn {
        return None;
    }
    let key = t.substring_char(0, e);
    if !is_charset_key_exec(key) {
        return None;
    }
    let val = t.substring_char(e + 1, tn);
    let stripped = strip_quotes(val);
    let out = lower_string(stripped);
    Some(out)
}

/// The charset parameter of a content-type header, quotes stripped and
/// lowercased: `text/html; Charset="UTF-8"` yields `utf-8`. `None` when no
/// part of the header carries a `charset` key.
pub fn parse_charset(content_type: &str) -> (r: Option<String>)
    ensures
        r.deep_view() == parse_charset_spec(content_type@),
{
    let n = content_type.unicode_len();
    let mut i: usize = 0;
    proof {
        assert(content_type@.subrange(0, n as int) == content_type@);
    }
    loop
        invariant
            i <= n,
            n == content_type@.len(),
            parse_charset_spec(content_type@) == charset_of_parts(
                split_parts(content_type@.subrange(i as int, n as int), ';'),
            ),
        decreases n - i,
    {
        let j = find_from(content_type, i, ';');
        let part = content_type.substring_char(i, j);
        let ghost rem = content_type@.subrange(i as int, n as int);
        proof {
            lemma_find_idx_at(rem, ';', j - i);
            assert(rem.subrange(0, j - i) == part@);
        }
        let found = part_charset_exec(part);
        match found {
            Some(v) => {
                proof {
                    if j < n {
                        assert(split_parts(rem, ';') == seq![rem.subrange(0, j - i)] + split_parts(
                            rem.subrange(j - i + 1, rem.len() as int),
                            ';',
                        ));
                    } else {
                        assert(split_parts(rem, ';') == seq![rem]);
                        assert(rem.subrange(0, j - i) == rem);
                    }
                    assert(split_parts(rem, ';')[0] == part@);
                }
                return Some(v);
            },
            None => {},
        }
        if j == n {
            proof {
                assert(split_parts(rem, ';') == seq![rem]);
                assert(rem.subrange(0, j - i) == rem);
                assert(split_parts(rem, ';')[0] == part@);
                assert(charset_of_parts(split_parts(rem, ';')) == charset_of_parts(
                    split_parts(rem, ';').drop_first(),
                ));
                assert(split_parts(rem, ';').drop_first().len() == 0);
            }
            return None;
        }
        proof {
            let tail = rem.subrange(j - i + 1, rem.len() as int);
            assert(split_parts(rem, ';') == seq![rem.subrange(0, j - i)] + split_parts(tail, ';'));
            assert(split_parts(rem, ';')[0] == part@);
            assert(split_parts(rem, ';').drop_first() =~= split_parts(tail, ';'));
            assert(tail =~= content_type@.subrange(j + 1, n as int));
        }
        i = j + 1;
    }
}

} // verus!
