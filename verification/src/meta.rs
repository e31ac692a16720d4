//! Resource metadata and its serialized text blob.
//!
//! Metadata is a small string-to-string mapping carried with each cached
//! resource. It is persisted as one text blob in the shape of a JSON object
//! with string values: `{"key":"value",...}`, quotes and backslashes in keys
//! and values escaped with a backslash. The decoder accepts exactly that
//! shape and inverts the encoder; a malformed blob decodes to `None`, which
//! reading paths treat as an empty mapping.
//!
//! Values are modelled as strings by decision: the cache itself only ever
//! reads string-valued keys (the reserved `encoding` entry, the name, the
//! description), so richer structured values belong to the boundary that
//! produces them, and a caller carrying them converts at that boundary. A
//! blob whose values are not strings is therefore treated like any other
//! malformed blob — absent on the strict reading path, empty on the
//! permissive one.

use vstd::prelude::*;

verus! {

use crate::text::push_char;

/// One metadata entry: a key and its string value.
pub struct MetaEntry {
    pub key: String,
    pub value: String,
}

impl View for MetaEntry {
    type V = (Seq<char>, Seq<char>);

    open spec fn view(&self) -> (Seq<char>, Seq<char>) {
        (self.key@, self.value@)
    }
}

impl DeepView for MetaEntry {
    type V = (Seq<char>, Seq<char>);

    open spec fn deep_view(&self) -> (Seq<char>, Seq<char>) {
        self@
    }
}

/// Characters that the blob escapes inside strings.
pub open spec fn is_escaped_char(c: char) -> bool {
    c == '"' || c == '\\'
}

/// The escape of one character.
pub open spec fn esc_char(c: char) -> Seq<char> {
    if is_escaped_char(c) {
        seq!['\\', c]
    } else {
        seq![c]
    }
}

/// The escape of a string's characters.
pub open spec fn esc_seq(s: Seq<char>) -> Seq<char>
    decreases s.len(),
{
    if s.len() == 0 {
        Seq::empty()
    } else {
        esc_char(s[0]) + esc_seq(s.drop_first())
    }
}

/// A quoted, escaped string.
pub open spec fn enc_string(s: Seq<char>) -> Seq<char> {
    seq!['"'] + esc_seq(s) + seq!['"']
}

/// One encoded `"key":"value"` entry.
pub open spec fn enc_entry(e: (Seq<char>, Seq<char>)) -> Seq<char> {
    enc_string(e.0) + seq![':'] + enc_string(e.1)
}

/// Encoded entries joined with commas.
pub open spec fn enc_entries(es: Seq<(Seq<char>, Seq<char>)>) -> Seq<char>
    decreases es.len(),
{
    if es.len() == 0 {
        Seq::empty()
    } else if es.len() == 1 {
        enc_entry(es[0])
    } else {
        enc_entry(es[0]) + seq![','] + enc_entries(es.drop_first())
    }
}

/// The whole blob: entries wrapped in braces.
pub open spec fn enc_meta(es: Seq<(Seq<char>, Seq<char>)>) -> Seq<char> {
    seq!['{'] + enc_entries(es) + seq!['}']
}

/// Parses the body of a quoted string starting at `i` (after the opening
/// quote): characters up to an unescaped closing quote, unescaping
/// backslash pairs. Yields the content and the position after the closing
/// quote.
pub open spec fn parse_str_body(s: Seq<char>, i: int) -> Option<(Seq<char>, int)>
    decreases s.len() - i,
{
    if i < 0 || i >= s.len() {
        None
    } else if s[i] == '"' {
        Some((Seq::empty(), i + 1))
    } else if s[i] == '\\' {
        if i + 1 < s.len() && is_escaped_char(s[i + 1]) {
            match parse_str_body(s, i + 2) {
                Some((c, j)) => Some((seq![s[i + 1]] + c, j)),
                None => None,
            }
        } else {
            None
        }
    } else {
        match parse_str_body(s, i + 1) {
            Some((c, j)) => Some((seq![s[i]] + c, j)),
            None => None,
        }
    }
}

/// Parses one `"key":"value"` entry starting at `i`. Yields the entry and
/// the position after it.
pub open spec fn parse_entry_spec(s: Seq<char>, i: int) -> Option<((Seq<char>, Seq<char>), int)> {
    if 0 <= i < s.len() && s[i] == '"' {
        match parse_str_body(s, i + 1) {
            Some((k, j)) => if j + 1 < s.len() && s[j] == ':' && s[j + 1] == '"' {
                match parse_str_body(s, j + 2) {
                    Some((v, m)) => Some(((k, v), m)),
                    None => None,
                }
            } else {
                None
            },
            None => None,
        }
    } else {
        None
    }
}

/// Parses a non-empty, comma-separated entry list starting at `i`. Yields
/// the entries and the position of the closing brace that follows them.
pub open spec fn parse_entries_from(s: Seq<char>, i: int) -> Option<(
    Seq<(Seq<char>, Seq<char>)>,
    int,
)>
    decreases s.len() - i,
{
    match parse_entry_spec(s, i) {
        Some((e, j)) => if j >= s.len() {
            None
        } else if s[j] == '}' {
            Some((seq![e], j))
        } else if s[j] == ',' && i < j + 1 <= s.len() {
            match parse_entries_from(s, j + 1) {
                Some((rest, m)) => Some((seq![e] + rest, m)),
                None => None,
            }
        } else {
            None
        },
        None => None,
    }
}

/// The decoded form of a metadata blob: the entries of a well-formed
/// `{"k":"v",...}` object, or nothing for any other text.
pub open spec fn parse_meta_spec(s: Seq<char>) -> Option<Seq<(Seq<char>, Seq<char>)>> {
    if s.len() >= 2 && s[0] == '{' {
        if s.len() == 2 && s[1] == '}' {
            Some(Seq::empty())
        } else {
            match parse_entries_from(s, 1) {
                Some((es, j)) => if j == s.len() - 1 {
                    Some(es)
                } else {
                    None
                },
                None => None,
            }
        }
    } else {
        None
    }
}

/// The value of the first entry with the given key, if any.
pub open spec fn lookup_spec(es: Seq<(Seq<char>, Seq<char>)>, key: Seq<char>) -> Option<Seq<char>>
    decreases es.len(),
{
    if es.len() == 0 {
        None
    } else if es[0].0 == key {
        Some(es[0].1)
    } else {
        lookup_spec(es.drop_first(), key)
    }
}

/// The entries with the first occurrence of `key` replaced by `value`, or
/// with `(key, value)` appended when the key is absent.
pub open spec fn upsert_spec(
    es: Seq<(Seq<char>, Seq<char>)>,
    key: Seq<char>,
    value: Seq<char>,
) -> Seq<(Seq<char>, Seq<char>)>
    decreases es.len(),
{
    if es.len() == 0 {
        seq![(key, value)]
    } else if es[0].0 == key {
        seq![(key, value)] + es.drop_first()
    } else {
        seq![es[0]] + upsert_spec(es.drop_first(), key, value)
    }
}

/// After an upsert, the key maps to the new value.
pub proof fn lemma_lookup_after_upsert(
    es: Seq<(Seq<char>, Seq<char>)>,
    key: Seq<char>,
    value: Seq<char>,
)
    ensures
        lookup_spec(upsert_spec(es, key, value), key) == Some(value),
    decreases es.len(),
{
    if es.len() == 0 {
        assert(upsert_spec(es, key, value)[0] == (key, value));
    } else if es[0].0 == key {
        assert(upsert_spec(es, key, value)[0] == (key, value));
    } else {
        lemma_lookup_after_upsert(es.drop_first(), key, value);
        let u = upsert_spec(es, key, value);
        assert(u[0] == es[0]);
        assert(u.drop_first() =~= upsert_spec(es.drop_first(), key, value));
    }
}

/// An upsert leaves every other key's first value unchanged.
pub proof fn lemma_lookup_other_after_upsert(
    es: Seq<(Seq<char>, Seq<char>)>,
    key: Seq<char>,
    value: Seq<char>,
    other: Seq<char>,
)
    requires
        other != key,
    ensures
        lookup_spec(upsert_spec(es, key, value), other) == lookup_spec(es, other),
    decreases es.len(),
{
    if es.len() == 0 {
        let u = upsert_spec(es, key, value);
        assert(u[0] == (key, value));
        assert(u.drop_first() =~= Seq::<(Seq<char>, Seq<char>)>::empty());
        assert(lookup_spec(u, other) == lookup_spec(u.drop_first(), other));
        assert(lookup_spec(u.drop_first(), other) is None);
        assert(lookup_spec(es, other) is None);
    } else if es[0].0 == key {
        let u = upsert_spec(es, key, value);
        assert(u[0] == (key, value));
        assert(u.drop_first() =~= es.drop_first());
    } else {
        lemma_lookup_other_after_upsert(es.drop_first(), key, value, other);
        let u = upsert_spec(es, key, value);
        assert(u[0] == es[0]);
        assert(u.drop_first() =~= upsert_spec(es.drop_first(), key, value));
    }
}

/// Escaping grows at the tail character by character.
proof fn lemma_esc_push(s: Seq<char>, c: char)
    ensures
        esc_seq(s.push(c)) == esc_seq(s) + esc_char(c),
    decreases s.len(),
{
    if s.len() == 0 {
        assert(s.push(c)[0] == c);
        assert(s.push(c).drop_first() =~= Seq::<char>::empty());
        assert(esc_seq(s.push(c)) == esc_char(c) + esc_seq(Seq::<char>::empty()));
        assert(esc_char(c) + Seq::<char>::empty() =~= esc_char(c));
        assert(esc_seq(s) + esc_char(c) =~= esc_char(c));
    } else {
        let p = s.push(c);
        assert(p[0] == s[0]);
        assert(p.drop_first() =~= s.drop_first().push(c));
        lemma_esc_push(s.drop_first(), c);
        assert(esc_char(s[0]) + (esc_seq(s.drop_first()) + esc_char(c)) =~= (esc_char(s[0])
            + esc_seq(s.drop_first())) + esc_char(c));
    }
}

/// Encoded entry lists grow at the tail entry by entry.
proof fn lemma_enc_entries_push(es: Seq<(Seq<char>, Seq<char>)>, e: (Seq<char>, Seq<char>))
    ensures
        es.len() == 0 ==> enc_entries(es.push(e)) == enc_entry(e),
        es.len() > 0 ==> enc_entries(es.push(e)) == enc_entries(es) + seq![','] + enc_entry(e),
    decreases es.len(),
{
    if es.len() == 0 {
        assert(es.push(e)[0] == e);
        assert(enc_entries(es.push(e)) == enc_entry(e));
    } else if es.len() == 1 {
        let p = es.push(e);
        assert(p.drop_first() =~= seq![e]);
        assert(enc_entries(seq![e]) == enc_entry(e));
        assert(p[0] == es[0]);
        assert(enc_entries(p) == enc_entry(es[0]) + seq![','] + enc_entry(e));
    } else {
        let p = es.push(e);
        assert(p[0] == es[0]);
        assert(p.drop_first() =~= es.drop_first().push(e));
        lemma_enc_entries_push(es.drop_first(), e);
        assert(enc_entry(es[0]) + seq![','] + (enc_entries(es.drop_first()) + seq![',']
            + enc_entry(e)) =~= (enc_entry(es[0]) + seq![','] + enc_entries(es.drop_first()))
            + seq![','] + enc_entry(e));
    }
}

/// Appends the escaped characters of `s` to `out`.
fn append_escaped(out: &mut String, s: &str)
    ensures
        final(out)@ == old(out)@ + esc_seq(s@),
{
    let n = s.unicode_len();
    let mut i: usize = 0;
    proof {
        assert(s@.subrange(0, 0) =~= Seq::<char>::empty());
        assert(old(out)@ + esc_seq(s@.subrange(0, 0)) =~= old(out)@);
    }
    while i < n
        invariant
            i <= n,
            n == s@.len(),
            out@ == old(out)@ + esc_seq(s@.subrange(0, i as int)),
        decreases n - i,
    {
        let c = s.get_char(i);
        if c == '"' || c == '\\' {
            push_char(out, '\\');
            push_char(out, c);
        } else {
            push_char(out, c);
        }
        proof {
            lemma_esc_push(s@.subrange(0, i as int), c);
            assert(s@.subrange(0, i + 1) =~= s@.subrange(0, i as int).push(c));
            assert(out@ =~= old(out)@ + esc_seq(s@.subrange(0, i + 1)));
        }
        i = i + 1;
    }
    proof {
        assert(s@.subrange(0, n as int) == s@);
    }
}

/// Appends one quoted, escaped string to `out`.
fn append_enc_string(out: &mut String, s: &str)
    ensures
        final(out)@ == old(out)@ + enc_string(s@),
{
    push_char(out, '"');
    append_escaped(out, s);
    push_char(out, '"');
    proof {
        assert(out@ =~= old(out)@ + enc_string(s@));
    }
}

/// Serializes metadata entries to their text blob.
pub fn encode_metadata(entries: &Vec<MetaEntry>) -> (r: String)
    ensures
        r@ == enc_meta(entries.deep_view()),
{
    let ghost all = entries.deep_view();
    let mut out = String::new();
    push_char(&mut out, '{');
    proof {
        assert(all.subrange(0, 0) =~= Seq::<(Seq<char>, Seq<char>)>::empty());
        assert(out@ =~= seq!['{'] + enc_entries(all.subrange(0, 0)));
    }
    let mut k: usize = 0;
    while k < entries.len()
        invariant
            k <= entries.len(),
            entries.deep_view() == all,
            out@ == seq!['{'] + enc_entries(all.subrange(0, k as int)),
        decreases entries.len() - k,
    {
        let ghost pre = all.subrange(0, k as int);
        if k > 0 {
            push_char(&mut out, ',');
        }
        let e = &entries[k];
        append_enc_string(&mut out, e.key.as_str());
        push_char(&mut out, ':');
        append_enc_string(&mut out, e.value.as_str());
        proof {
            assert(e.deep_view() == all[k as int]);
            lemma_enc_entries_push(pre, all[k as int]);
            assert(all.subrange(0, k + 1) =~= pre.push(all[k as int]));
            assert(out@ =~= seq!['{'] + enc_entries(all.subrange(0, k + 1)));
        }
        k = k + 1;
    }
    push_char(&mut out, '}');
    proof {
        assert(all.subrange(0, all.len() as int) == all);
        assert(out@ =~= enc_meta(all));
    }
    out
}

/// A successful string-body parse always advances past its start and stays
/// within the text.
proof fn lemma_parse_str_bounds(s: Seq<char>, i: int)
    ensures
        parse_str_body(s, i) matches Some(r) ==> i < r.1 <= s.len(),
    decreases s.len() - i,
{
    if i < 0 || i >= s.len() {
    } else if s[i] == '"' {
    } else if s[i] == '\\' {
        if i + 1 < s.len() && is_escaped_char(s[i + 1]) {
            lemma_parse_str_bounds(s, i + 2);
        }
    } else {
        lemma_parse_str_bounds(s, i + 1);
    }
}

/// Parses a quoted string's body starting at `i` (after the opening
/// quote), mirroring `parse_str_body`.
fn parse_string_at(s: &str, i: usize) -> (r: Option<(String, usize)>)
    requires
        i <= s@.len(),
    ensures
        match r {
            Some((c, j)) => parse_str_body(s@, i as int) == Some((c@, j as int)) && i < j
                <= s@.len(),
            None => parse_str_body(s@, i as int) is None,
        },
{
    let n = s.unicode_len();
    let mut out = String::new();
    let mut p = i;
    proof {
        lemma_parse_str_bounds(s@, i as int);
        let r0 = parse_str_body(s@, i as int);
        match r0 {
            Some((c, j)) => {
                assert(out@ + c =~= c);
            },
            None => {},
        }
    }
    loop
        invariant
            i <= p <= n,
            n == s@.len(),
            (match parse_str_body(s@, p as int) {
                Some((c, j)) => parse_str_body(s@, i as int) == Some((out@ + c, j)) && p < j <= n,
                None => parse_str_body(s@, i as int) is None,
            }),
        decreases n - p,
    {
        if p >= n {
            proof {
                assert(parse_str_body(s@, p as int) is None);
            }
            return None;
        }
        let c = s.get_char(p);
        if c == '"' {
            proof {
                assert(parse_str_body(s@, p as int) == Some((Seq::<char>::empty(), p + 1)));
                assert(out@ + Seq::<char>::empty() =~= out@);
            }
            return Some((out, p + 1));
        } else if c == '\\' {
            if p + 1 < n {
                let d = s.get_char(p + 1);
                if d == '"' || d == '\\' {
                    let ghost preout = out@;
                    push_char(&mut out, d);
                    proof {
                        lemma_parse_str_bounds(s@, p + 2);
                        let r1 = parse_str_body(s@, p + 2);
                        match r1 {
                            Some((cc, j)) => {
                                assert(parse_str_body(s@, p as int) == Some((seq![d] + cc, j)));
                                assert(out@ + cc =~= preout + (seq![d] + cc));
                            },
                            None => {
                                assert(parse_str_body(s@, p as int) is None);
                            },
                        }
                    }
                    p = p + 2;
                } else {
                    proof {
                        assert(parse_str_body(s@, p as int) is None);
                    }
                    return None;
                }
            } else {
                proof {
                    assert(parse_str_body(s@, p as int) is None);
                }
                return None;
            }
        } else {
            let ghost preout = out@;
            push_char(&mut out, c);
            proof {
                lemma_parse_str_bounds(s@, p + 1);
                let r1 = parse_str_body(s@, p + 1);
                match r1 {
                    Some((cc, j)) => {
                        assert(parse_str_body(s@, p as int) == Some((seq![c] + cc, j)));
                        assert(out@ + cc =~= preout + (seq![c] + cc));
                    },
                    None => {
                        assert(parse_str_body(s@, p as int) is None);
                    },
                }
            }
            p = p + 1;
        }
    }
}

/// Parses one `"key":"value"` entry starting at `i`, mirroring
/// `parse_entry_spec`.
fn parse_entry_at(s: &str, i: usize) -> (r: Option<(MetaEntry, usize)>)
    requires
        i <= s@.len(),
    ensures
        match r {
            Some((e, j)) => parse_entry_spec(s@, i as int) == Some((e@, j as int)) && i < j
                <= s@.len(),
            None => parse_entry_spec(s@, i as int) is None,
        },
{
    let n = s.unicode_len();
    if i >= n || s.get_char(i) != '"' {
        return None;
    }
    let kj = match parse_string_at(s, i + 1) {
        Some(kj) => kj,
        None => {
            return None;
        },
    };
    let (key, j) = kj;
    if j >= n {
        return None;
    }
    if j + 1 >= n {
        return None;
    }
    if s.get_char(j) != ':' || s.get_char(j + 1) != '"' {
        return None;
    }
    let vm = match parse_string_at(s, j + 2) {
        Some(vm) => vm,
        None => {
            return None;
        },
    };
    let (value, m) = vm;
    Some((MetaEntry { key, value }, m))
}

/// Decodes a metadata blob, accepting exactly the encoder's output shape.
/// Any other text decodes to `None`.
pub fn decode_metadata(s: &str) -> (r: Option<Vec<MetaEntry>>)
    ensures
        r.deep_view() == parse_meta_spec(s@),
{
    let n = s.unicode_len();
    if n < 2 || s.get_char(0) != '{' {
        return None;
    }
    if n == 2 {
        if s.get_char(1) == '}' {
            let empty: Vec<MetaEntry> = Vec::new();
            proof {
                assert(empty.deep_view() =~= Seq::<(Seq<char>, Seq<char>)>::empty());
            }
            return Some(empty);
        } else {
            return None;
        }
    }
    let mut acc: Vec<MetaEntry> = Vec::new();
    let mut p: usize = 1;
    proof {
        let r0 = parse_entries_from(s@, 1);
        match r0 {
            Some((es, j)) => {
                assert(acc.deep_view() + es =~= es);
            },
            None => {},
        }
    }
    loop
        invariant
            1 <= p <= n,
            n == s@.len(),
            n > 2,
            s@[0] == '{',
            (match parse_entries_from(s@, p as int) {
                Some((es, j)) => parse_entries_from(s@, 1) == Some((acc.deep_view() + es, j)),
                None => parse_entries_from(s@, 1) is None,
            }),
        decreases n - p,
    {
        let ej = match parse_entry_at(s, p) {
            Some(ej) => ej,
            None => {
                proof {
                    assert(parse_entries_from(s@, p as int) is None);
                }
                return None;
            },
        };
        let (e, j) = ej;
        let ghost pre = acc.deep_view();
        acc.push(e);
        proof {
            assert(acc.deep_view() =~= pre.push(e@));
        }
        if j >= n {
            proof {
                assert(parse_entries_from(s@, p as int) is None);
            }
            return None;
        }
        let c = s.get_char(j);
        if c == '}' {
            proof {
                assert(parse_entries_from(s@, p as int) == Some((seq![e@], j as int)));
                assert(pre.push(e@) =~= pre + seq![e@]);
            }
            if j == n - 1 {
                proof {
                    assert(parse_meta_spec(s@) == Some(acc.deep_view()));
                }
                return Some(acc);
            } else {
                proof {
                    assert(parse_meta_spec(s@) is None);
                }
                return None;
            }
        } else if c == ',' {
            proof {
                match parse_entries_from(s@, j + 1) {
                    Some((rest, m)) => {
                        assert(parse_entries_from(s@, p as int) == Some((seq![e@] + rest, m)));
                        assert(pre.push(e@) + rest =~= pre + (seq![e@] + rest));
                    },
                    None => {
                        assert(parse_entries_from(s@, p as int) is None);
                    },
                }
            }
            p = j + 1;
        } else {
            proof {
                assert(parse_entries_from(s@, p as int) is None);
            }
            return None;
        }
    }
}

/// The value of the first entry with the given key, if any.
pub fn metadata_get(entries: &Vec<MetaEntry>, key: &str) -> (r: Option<String>)
    ensures
        r.deep_view() == lookup_spec(entries.deep_view(), key@),
{
    let ghost all = entries.deep_view();
    let mut k: usize = 0;
    proof {
        assert(all.subrange(0, all.len() as int) == all);
    }
    while k < entries.len()
        invariant
            k <= entries.len(),
            entries.deep_view() == all,
            lookup_spec(all, key@) == lookup_spec(all.subrange(k as int, all.len() as int), key@),
        decreases entries.len() - k,
    {
        let ghost rem = all.subrange(k as int, all.len() as int);
        let e = &entries[k];
        proof {
            assert(rem[0] == all[k as int]);
            assert(rem.drop_first() =~= all.subrange(k + 1, all.len() as int));
        }
        if str_eq(e.key.as_str(), key) {
            let v = clone_string(&e.value);
            return Some(v);
        }
        k = k + 1;
    }
    proof {
        assert(all.subrange(all.len() as int, all.len() as int) =~= Seq::<(
            Seq<char>,
            Seq<char>,
        )>::empty());
    }
    None
}

/// The entries with the first occurrence of `key` replaced by `value`, or
/// `(key, value)` appended when the key is absent.
pub fn metadata_upsert(entries: &Vec<MetaEntry>, key: &str, value: &str) -> (r: Vec<MetaEntry>)
    ensures
        r.deep_view() == upsert_spec(entries.deep_view(), key@, value@),
{
    let ghost all = entries.deep_view();
    let mut out: Vec<MetaEntry> = Vec::new();
    let mut replaced = false;
    let mut k: usize = 0;
    proof {
        assert(out.deep_view() =~= Seq::<(Seq<char>, Seq<char>)>::empty());
    }
    while k < entries.len()
        invariant
            k <= entries.len(),
            entries.deep_view() == all,
            replaced ==> upsert_spec(all, key@, value@) == out.deep_view() + all.subrange(
                k as int,
                all.len() as int,
            ),
            !replaced ==> out.deep_view() == all.subrange(0, k as int) && (forall|t: int|
                0 <= t < k ==> all[t].0 != key@),
        decreases entries.len() - k,
    {
        let ghost pre = out.deep_view();
        let e = &entries[k];
        if !replaced && str_eq(e.key.as_str(), key) {
            out.push(MetaEntry { key: key.to_owned(), value: value.to_owned() });
            replaced = true;
            proof {
                assert(out.deep_view() =~= pre.push((key@, value@)));
                lemma_upsert_found(all, key@, value@, k as int);
                assert(out.deep_view() + all.subrange(k + 1, all.len() as int) =~= all.subrange(
                    0,
                    k as int,
                ) + seq![(key@, value@)] + all.subrange(k + 1, all.len() as int));
            }
        } else {
            out.push(MetaEntry { key: clone_string(&e.key), value: clone_string(&e.value) });
            proof {
                assert(e.deep_view() == all[k as int]);
                assert(out.deep_view() =~= pre.push(all[k as int]));
                if replaced {
                    assert(pre.push(all[k as int]) + all.subrange(k + 1, all.len() as int) =~= pre
                        + all.subrange(k as int, all.len() as int));
                } else {
                    assert(out.deep_view() =~= all.subrange(0, k + 1));
                }
            }
        }
        k = k + 1;
    }
    if !replaced {
        out.push(MetaEntry { key: key.to_owned(), value: value.to_owned() });
        proof {
            assert(all.subrange(0, all.len() as int) == all);
            lemma_upsert_absent(all, key@, value@);
            assert(out.deep_view() =~= all.push((key@, value@)));
        }
    } else {
        proof {
            assert(all.subrange(all.len() as int, all.len() as int) =~= Seq::<(
                Seq<char>,
                Seq<char>,
            )>::empty());
            assert(out.deep_view() + all.subrange(all.len() as int, all.len() as int)
                =~= out.deep_view());
        }
    }
    out
}

/// When the first occurrence of `key` is at `idx`, the upsert splices the
/// new pair in at that position.
proof fn lemma_upsert_found(
    es: Seq<(Seq<char>, Seq<char>)>,
    key: Seq<char>,
    value: Seq<char>,
    idx: int,
)
    requires
        0 <= idx < es.len(),
        es[idx].0 == key,
        forall|t: int| 0 <= t < idx ==> es[t].0 != key,
    ensures
        upsert_spec(es, key, value) == es.subrange(0, idx) + seq![(key, value)] + es.subrange(
            idx + 1,
            es.len() as int,
        ),
    decreases idx,
{
    if idx == 0 {
        assert(upsert_spec(es, key, value) == seq![(key, value)] + es.drop_first());
        assert(es.subrange(0, 0) =~= Seq::<(Seq<char>, Seq<char>)>::empty());
        assert(es.drop_first() =~= es.subrange(1, es.len() as int));
        assert(es.subrange(0, 0) + seq![(key, value)] + es.subrange(1, es.len() as int) =~= seq![
            (key, value),
        ] + es.drop_first());
    } else {
        assert(es[0].0 != key);
        lemma_upsert_found(es.drop_first(), key, value, idx - 1);
        let d = es.drop_first();
        assert(d.subrange(0, idx - 1) =~= es.subrange(1, idx));
        assert(d.subrange(idx, d.len() as int) =~= es.subrange(idx + 1, es.len() as int));
        assert(seq![es[0]] + (es.subrange(1, idx) + seq![(key, value)] + es.subrange(
            idx + 1,
            es.len() as int,
        )) =~= es.subrange(0, idx) + seq![(key, value)] + es.subrange(idx + 1, es.len() as int));
    }
}

/// When the key is absent, the upsert appends the new pair.
proof fn lemma_upsert_absent(es: Seq<(Seq<char>, Seq<char>)>, key: Seq<char>, value: Seq<char>)
    requires
        forall|t: int| 0 <= t < es.len() ==> es[t].0 != key,
    ensures
        upsert_spec(es, key, value) == es.push((key, value)),
    decreases es.len(),
{
    if es.len() == 0 {
        assert(upsert_spec(es, key, value) =~= es.push((key, value)));
    } else {
        assert(es[0].0 != key);
        lemma_upsert_absent(es.drop_first(), key, value);
        assert(seq![es[0]] + es.drop_first().push((key, value)) =~= es.push((key, value)));
    }
}

/// Relies on `String::clone`: yields an equal string.
pub fn clone_string(s: &String) -> (r: String)
    ensures
        r@ == s@,
{
    s.clone()
}

/// Whether two string slices are equal, compared character by character.
pub fn str_eq(a: &str, b: &str) -> (r: bool)
    ensures
        r == (a@ == b@),
{
    let na = a.unicode_len();
    let nb = b.unicode_len();
    if na != nb {
        return false;
    }
    let mut i: usize = 0;
    while i < na
        invariant
            i <= na,
            na == a@.len(),
            na == b@.len(),
            forall|k: int| 0 <= k < i ==> a@[k] == b@[k],
        decreases na - i,
    {
        if a.get_char(i) != b.get_char(i) {
            return false;
        }
        i = i + 1;
    }
    proof {
        assert(a@ =~= b@);
    }
    true
}

/// The encoder's output always decodes back to the same entries.
pub proof fn lemma_metadata_round_trip(es: Seq<(Seq<char>, Seq<char>)>)
    ensures
        parse_meta_spec(enc_meta(es)) == Some(es),
{
    let s = enc_meta(es);
    let n = enc_entries(es).len() as int;
    assert(s.len() == n + 2);
    assert(s.subrange(0, s.len() as int) == s);
    lemma_subrange_split3(s, 0, seq!['{'], enc_entries(es), seq!['}']);
    lemma_subrange_char(s, 0, 1, 0);
    assert(s[0] == '{');
    lemma_subrange_char(s, 1 + n, 1 + n + 1, 0);
    assert(s[1 + n] == '}');
    if es.len() == 0 {
        assert(enc_entries(es) == Seq::<char>::empty());
        assert(s.len() == 2);
        assert(s[1] == '}');
        assert(parse_meta_spec(s) == Some(Seq::<(Seq<char>, Seq<char>)>::empty()));
        assert(Seq::<(Seq<char>, Seq<char>)>::empty() =~= es);
    } else {
        lemma_enc_entries_len(es);
        assert(s.len() > 2);
        assert(s.subrange(1, 1 + n) == enc_entries(es));
        lemma_parse_entries_inverts(es, s, 1);
        assert(parse_entries_from(s, 1) == Some((es, 1 + n)));
        assert(1 + n == s.len() - 1);
        assert(parse_meta_spec(s) == Some(es));
    }
}

/// A non-empty entry list encodes to a non-empty text: one entry alone
/// takes at least its two quoted strings and the colon.
proof fn lemma_enc_entries_len(es: Seq<(Seq<char>, Seq<char>)>)
    requires
        es.len() > 0,
    ensures
        enc_entries(es).len() >= 5,
{
    assert(enc_entry(es[0]).len() >= 5);
    if es.len() == 1 {
        assert(enc_entries(es) == enc_entry(es[0]));
    } else {
        assert(enc_entries(es) == enc_entry(es[0]) + seq![','] + enc_entries(es.drop_first()));
    }
}

/// A subrange equal to a two-part concatenation splits into the two parts.
proof fn lemma_subrange_split2(s: Seq<char>, i: int, a: Seq<char>, b: Seq<char>)
    requires
        0 <= i,
        i + a.len() + b.len() <= s.len(),
        s.subrange(i, i + a.len() + b.len()) == a + b,
    ensures
        s.subrange(i, i + a.len()) == a,
        s.subrange(i + a.len(), i + a.len() + b.len()) == b,
{
    let al = a.len() as int;
    let bl = b.len() as int;
    let w = s.subrange(i, i + al + bl);
    assert forall|t: int| 0 <= t < al implies s.subrange(i, i + al)[t] == a[t] by {
        assert(w[t] == s[i + t]);
        assert(s.subrange(i, i + al)[t] == s[i + t]);
        assert((a + b)[t] == a[t]);
    }
    assert(s.subrange(i, i + al) =~= a);
    assert forall|t: int| 0 <= t < bl implies s.subrange(i + al, i + al + bl)[t] == b[t] by {
        assert(w[al + t] == s[i + (al + t)]);
        assert(s.subrange(i + al, i + al + bl)[t] == s[(i + al) + t]);
        assert(s[i + (al + t)] == s[(i + al) + t]);
        assert((a + b)[al + t] == b[t]);
    }
    assert(s.subrange(i + al, i + al + bl) =~= b);
}

/// A subrange equal to a three-part concatenation splits into the parts.
proof fn lemma_subrange_split3(s: Seq<char>, i: int, a: Seq<char>, b: Seq<char>, c: Seq<char>)
    requires
        0 <= i,
        i + a.len() + b.len() + c.len() <= s.len(),
        s.subrange(i, i + a.len() + b.len() + c.len()) == a + b + c,
    ensures
        s.subrange(i, i + a.len()) == a,
        s.subrange(i + a.len(), i + a.len() + b.len()) == b,
        s.subrange(i + a.len() + b.len(), i + a.len() + b.len() + c.len()) == c,
{
    let al = a.len() as int;
    let bl = b.len() as int;
    let cl = c.len() as int;
    assert((a + b + c).subrange(0, al + bl) =~= a + b);
    let w = s.subrange(i, i + al + bl + cl);
    assert forall|t: int| 0 <= t < al + bl implies s.subrange(i, i + al + bl)[t] == (a + b)[t] by {
        assert(w[t] == s[i + t]);
        assert(s.subrange(i, i + al + bl)[t] == s[i + t]);
        assert((a + b + c)[t] == (a + b)[t]);
    }
    assert(s.subrange(i, i + al + bl) =~= a + b);
    lemma_subrange_split2(s, i, a, b);
    assert forall|t: int| 0 <= t < cl implies s.subrange(
        i + al + bl,
        i + al + bl + cl,
    )[t] == c[t] by {
        assert(w[al + bl + t] == s[i + (al + bl + t)]);
        assert(s.subrange(i + al + bl, i + al + bl + cl)[t] == s[(i + al + bl) + t]);
        assert(s[i + (al + bl + t)] == s[(i + al + bl) + t]);
        assert((a + b + c)[al + bl + t] == c[t]);
    }
    assert(s.subrange(i + al + bl, i + al + bl + cl) =~= c);
}

/// The first character of a subrange known to equal a given sequence.
proof fn lemma_subrange_char(s: Seq<char>, i: int, j: int, t: int)
    requires
        0 <= i <= j <= s.len(),
        0 <= t < j - i,
    ensures
        s.subrange(i, j)[t] == s[i + t],
{
}

/// Parsing inverts escaping: at a position where the text carries the
/// escape of `content` followed by a closing quote, the string-body parser
/// yields `content` and stops after the quote.
proof fn lemma_parse_str_inverts(content: Seq<char>, s: Seq<char>, i: int)
    requires
        0 <= i,
        i + esc_seq(content).len() < s.len(),
        s.subrange(i, i + esc_seq(content).len() as int) == esc_seq(content),
        s[i + esc_seq(content).len() as int] == '"',
    ensures
        parse_str_body(s, i) == Some((content, i + esc_seq(content).len() + 1)),
    decreases content.len(),
{
    if content.len() == 0 {
        assert(esc_seq(content).len() == 0);
        assert(s[i] == '"');
    } else {
        let c = content[0];
        let rest = content.drop_first();
        assert(esc_seq(content) == esc_char(c) + esc_seq(rest));
        let el = esc_char(c).len() as int;
        let rl = esc_seq(rest).len() as int;
        let tl = esc_seq(content).len() as int;
        assert(tl == el + rl);
        lemma_subrange_split2(s, i, esc_char(c), esc_seq(rest));
        assert(s.subrange(i + el, i + el + rl) == esc_seq(rest));
        assert(s[i + el + rl] == '"') by {
            assert(i + el + rl == i + tl);
        }
        lemma_parse_str_inverts(rest, s, i + el);
        assert(parse_str_body(s, i + el) == Some((rest, i + el + rl + 1)));
        if is_escaped_char(c) {
            assert(esc_char(c) == seq!['\\', c]);
            assert(el == 2);
            lemma_subrange_char(s, i, i + el, 0);
            lemma_subrange_char(s, i, i + el, 1);
            assert(s[i] == '\\');
            assert(s[i + 1] == c);
            assert(is_escaped_char(s[i + 1]));
            assert(i + 1 < s.len());
            assert(parse_str_body(s, i) == Some((seq![s[i + 1]] + rest, i + el + rl + 1)));
            assert(seq![c] + rest =~= content);
        } else {
            assert(esc_char(c) == seq![c]);
            assert(el == 1);
            lemma_subrange_char(s, i, i + el, 0);
            assert(s[i] == c);
            assert(c != '"' && c != '\\');
            assert(parse_str_body(s, i) == Some((seq![s[i]] + rest, i + el + rl + 1)));
            assert(seq![c] + rest =~= content);
        }
    }
}

/// Parsing inverts entry encoding: at a position where the text carries
/// one encoded entry, the entry parser yields it and stops after it.
proof fn lemma_parse_entry_inverts(e: (Seq<char>, Seq<char>), s: Seq<char>, i: int)
    requires
        0 <= i,
        i + enc_entry(e).len() < s.len(),
        s.subrange(i, i + enc_entry(e).len() as int) =~= enc_entry(e),
        s[i + enc_entry(e).len() as int] == '}' || s[i + enc_entry(e).len() as int] == ',',
    ensures
        parse_entry_spec(s, i) == Some((e, i + enc_entry(e).len())),
{
    let kl = esc_seq(e.0).len() as int;
    let vl = esc_seq(e.1).len() as int;
    let el = enc_entry(e).len() as int;
    let ks = enc_string(e.0);
    let vs = enc_string(e.1);
    assert(ks.len() == kl + 2);
    assert(vs.len() == vl + 2);
    assert(enc_entry(e) == ks + seq![':'] + vs);
    assert(el == kl + vl + 5);
    lemma_subrange_split3(s, i, ks, seq![':'], vs);
    assert(s.subrange(i, i + (kl + 2)) == ks);
    assert(s.subrange(i + (kl + 2), i + (kl + 2) + 1) == seq![':']);
    assert(s.subrange(i + (kl + 2) + 1, i + (kl + 2) + 1 + (vl + 2)) == vs);

    // The key's quoted string: opening quote, escape of the key, closing quote.
    assert(ks == seq!['"'] + esc_seq(e.0) + seq!['"']);
    lemma_subrange_split3(s, i, seq!['"'], esc_seq(e.0), seq!['"']);
    lemma_subrange_char(s, i, i + 1, 0);
    assert(s[i] == '"');
    assert(s.subrange(i + 1, i + 1 + kl) == esc_seq(e.0));
    lemma_subrange_char(s, i + 1 + kl, i + 1 + kl + 1, 0);
    assert(s[i + 1 + kl] == '"');
    lemma_parse_str_inverts(e.0, s, i + 1);
    assert(parse_str_body(s, i + 1) == Some((e.0, i + 1 + kl + 1)));

    // The separating colon.
    lemma_subrange_char(s, i + (kl + 2), i + (kl + 2) + 1, 0);
    assert(s[i + 2 + kl] == ':');

    // The value's quoted string.
    let v0 = i + (kl + 2) + 1;
    assert(vs == seq!['"'] + esc_seq(e.1) + seq!['"']);
    lemma_subrange_split3(s, v0, seq!['"'], esc_seq(e.1), seq!['"']);
    lemma_subrange_char(s, v0, v0 + 1, 0);
    assert(s[i + 3 + kl] == '"');
    assert(s.subrange(v0 + 1, v0 + 1 + vl) == esc_seq(e.1));
    lemma_subrange_char(s, v0 + 1 + vl, v0 + 1 + vl + 1, 0);
    assert(s[v0 + 1 + vl] == '"');
    assert(v0 + 1 == i + 4 + kl);
    lemma_parse_str_inverts(e.1, s, i + 4 + kl);
    assert(parse_str_body(s, i + 4 + kl) == Some((e.1, i + 5 + kl + vl)));

    assert(i + 2 + kl + 1 < s.len());
    assert(parse_entry_spec(s, i) == Some(((e.0, e.1), i + el)));
    assert((e.0, e.1) == e);
}

/// Parsing inverts entry-list encoding: at a position where the text
/// carries the encoded list followed by a closing brace, the list parser
/// yields the list and stops at the brace.
proof fn lemma_parse_entries_inverts(es: Seq<(Seq<char>, Seq<char>)>, s: Seq<char>, i: int)
    requires
        0 <= i,
        es.len() > 0,
        i + enc_entries(es).len() < s.len(),
        s.subrange(i, i + enc_entries(es).len() as int) =~= enc_entries(es),
        s[i + enc_entries(es).len() as int] == '}',
    ensures
        parse_entries_from(s, i) == Some((es, i + enc_entries(es).len())),
    decreases es.len(),
{
    let tl = enc_entries(es).len() as int;
    if es.len() == 1 {
        assert(enc_entries(es) == enc_entry(es[0]));
        lemma_parse_entry_inverts(es[0], s, i);
        let j = i + enc_entry(es[0]).len() as int;
        assert(s[j] == '}');
        assert(j < s.len());
        assert(parse_entries_from(s, i) == Some((seq![es[0]], j)));
        assert(seq![es[0]] =~= es);
    } else {
        let e0 = es[0];
        let rest = es.drop_first();
        assert(enc_entries(es) == enc_entry(e0) + seq![','] + enc_entries(rest));
        let el = enc_entry(e0).len() as int;
        let rl = enc_entries(rest).len() as int;
        assert(tl == el + 1 + rl);
        lemma_subrange_split3(s, i, enc_entry(e0), seq![','], enc_entries(rest));
        assert(s.subrange(i, i + el) == enc_entry(e0));
        assert(s.subrange(i + el, i + el + 1) == seq![',']);
        lemma_subrange_char(s, i + el, i + el + 1, 0);
        assert(s[i + el] == ',');
        lemma_parse_entry_inverts(e0, s, i);
        assert(parse_entry_spec(s, i) == Some((e0, i + el)));
        assert(s.subrange(i + el + 1, i + el + 1 + rl) == enc_entries(rest));
        assert(s[i + el + 1 + rl] == '}') by {
            assert(i + el + 1 + rl == i + tl);
        }
        lemma_parse_entries_inverts(rest, s, i + el + 1);
        assert(parse_entries_from(s, i + el + 1) == Some((rest, i + el + 1 + rl)));
        assert(i < i + el + 1 <= s.len());
        assert(parse_entries_from(s, i) == Some((seq![e0] + rest, i + el + 1 + rl)));
        assert(seq![e0] + rest =~= es);
    }
}

} // verus!
