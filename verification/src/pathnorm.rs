//! Lexical normalization of storage paths.
//!
//! The schema initializer keys its registry by a normalized absolute path, so
//! that distinct spellings of the same not-yet-existing storage file
//! (`./db`, `db`, an absolute equivalent) collapse to one key. A relative
//! path is first made absolute against the caller's working directory; then
//! `.` segments are dropped, `..` segments pop their predecessor, and empty
//! segments from doubled or trailing separators are dropped.
//!
//! This is purely lexical: resolving symlinks of an already existing file is
//! the caller's concern, done before reaching for this module.

use vstd::prelude::*;

verus! {

use crate::text::{
    split_parts,
    find_idx,
    no_char,
    lemma_find_idx_at,
    lemma_find_idx_bounds,
    lemma_split_concat,
    lemma_split_parts_shape,
    find_from,
    push_char,
};

/// The path separator.
pub open spec fn sep() -> char {
    '/'
}

/// The `.` segment.
pub open spec fn dot_seg() -> Seq<char> {
    seq!['.']
}

/// The `..` segment.
pub open spec fn dotdot_seg() -> Seq<char> {
    seq!['.', '.']
}

/// Whether a path begins at the root.
pub open spec fn is_absolute(s: Seq<char>) -> bool {
    s.len() > 0 && s[0] == sep()
}

/// Folds path segments left to right: empty and `.` segments are dropped,
/// `..` pops the last kept segment (or the root marker when none is left),
/// and any other segment is kept. Mirrors a lexical walk over the path's
/// components, the root counting as one poppable component.
pub open spec fn fold_segs(parts: Seq<Seq<char>>, root: bool, stack: Seq<Seq<char>>) -> (
    bool,
    Seq<Seq<char>>,
)
    decreases parts.len(),
{
    if parts.len() == 0 {
        (root, stack)
    } else {
        let p = parts[0];
        let rest = parts.drop_first();
        if p.len() == 0 || p == dot_seg() {
            fold_segs(rest, root, stack)
        } else if p == dotdot_seg() {
            if stack.len() > 0 {
                fold_segs(rest, root, stack.drop_last())
            } else if root {
                fold_segs(rest, false, stack)
            } else {
                fold_segs(rest, root, stack)
            }
        } else {
            fold_segs(rest, root, stack.push(p))
        }
    }
}

/// Joins kept segments with the separator, without a root prefix.
pub open spec fn join_segs(stack: Seq<Seq<char>>) -> Seq<char>
    decreases stack.len(),
{
    if stack.len() == 0 {
        Seq::empty()
    } else if stack.len() == 1 {
        stack[0]
    } else {
        stack[0] + seq![sep()] + join_segs(stack.drop_first())
    }
}

/// Reassembles a normalized path from the root marker and kept segments.
pub open spec fn join_path(root: bool, stack: Seq<Seq<char>>) -> Seq<char> {
    if root {
        seq![sep()] + join_segs(stack)
    } else {
        join_segs(stack)
    }
}

/// The lexically normalized form of a path: segments folded per `fold_segs`
/// and reassembled.
pub open spec fn normalize_components_spec(s: Seq<char>) -> Seq<char> {
    let folded = fold_segs(split_parts(s, sep()), is_absolute(s), Seq::empty());
    join_path(folded.0, folded.1)
}

/// The registry key for a storage path: the path itself if absolute, else
/// the path joined onto the working directory; normalized either way.
pub open spec fn normalize_db_path_spec(path: Seq<char>, cwd: Seq<char>) -> Seq<char> {
    if is_absolute(path) {
        normalize_components_spec(path)
    } else {
        normalize_components_spec(cwd + seq![sep()] + path)
    }
}

/// Whether the slice is exactly the `.` segment.
fn seg_is_dot(s: &str) -> (r: bool)
    ensures
        r == (s@ == dot_seg()),
{
    let n = s.unicode_len();
    if n != 1 {
        proof {
            assert(s@ != dot_seg());
        }
        false
    } else {
        let r = s.get_char(0) == '.';
        proof {
            if r {
                assert(s@ =~= dot_seg());
            }
        }
        r
    }
}

/// Whether the slice is exactly the `..` segment.
fn seg_is_dotdot(s: &str) -> (r: bool)
    ensures
        r == (s@ == dotdot_seg()),
{
    let n = s.unicode_len();
    if n != 2 {
        proof {
            assert(s@ != dotdot_seg());
        }
        false
    } else {
        let r = s.get_char(0) == '.' && s.get_char(1) == '.';
        proof {
            if r {
                assert(s@ =~= dotdot_seg());
            }
        }
        r
    }
}

/// `join_segs` grows at the tail: pushing a segment appends it behind a
/// separator (or stands alone when the stack was empty).
proof fn lemma_join_push(stack: Seq<Seq<char>>, x: Seq<char>)
    ensures
        stack.len() == 0 ==> join_segs(stack.push(x)) == x,
        stack.len() > 0 ==> join_segs(stack.push(x)) == join_segs(stack) + seq![sep()] + x,
    decreases stack.len(),
{
    if stack.len() == 0 {
        assert(stack.push(x)[0] == x);
        assert(join_segs(stack.push(x)) == x);
    } else if stack.len() == 1 {
        let p = stack.push(x);
        assert(p.drop_first() =~= seq![x]);
        assert(seq![x].len() == 1 && seq![x][0] == x);
        assert(join_segs(seq![x]) == x);
        assert(p[0] == stack[0]);
        assert(join_segs(p) == stack[0] + seq![sep()] + x);
    } else {
        let p = stack.push(x);
        assert(p.drop_first() =~= stack.drop_first().push(x));
        lemma_join_push(stack.drop_first(), x);
        assert(join_segs(p) == p[0] + seq![sep()] + join_segs(stack.drop_first().push(x)));
        assert(stack[0] + seq![sep()] + (join_segs(stack.drop_first()) + seq![sep()] + x) =~= (
        stack[0] + seq![sep()] + join_segs(stack.drop_first())) + seq![sep()] + x);
    }
}

/// Folding distributes over concatenation of segment lists.
proof fn lemma_fold_append(a: Seq<Seq<char>>, b: Seq<Seq<char>>, root: bool, stack: Seq<Seq<char>>)
    ensures
        fold_segs(a + b, root, stack) == fold_segs(
            b,
            fold_segs(a, root, stack).0,
            fold_segs(a, root, stack).1,
        ),
    decreases a.len(),
{
    if a.len() == 0 {
        assert(a + b =~= b);
    } else {
        let p = a[0];
        assert((a + b)[0] == p);
        assert((a + b).drop_first() =~= a.drop_first() + b);
        if p.len() == 0 || p == dot_seg() {
            lemma_fold_append(a.drop_first(), b, root, stack);
        } else if p == dotdot_seg() {
            if stack.len() > 0 {
                lemma_fold_append(a.drop_first(), b, root, stack.drop_last());
            } else if root {
                lemma_fold_append(a.drop_first(), b, false, stack);
            } else {
                lemma_fold_append(a.drop_first(), b, root, stack);
            }
        } else {
            lemma_fold_append(a.drop_first(), b, root, stack.push(p));
        }
    }
}

/// Lexically normalizes a path's segments: `.` dropped, `..` popping its
/// predecessor, empty segments from doubled or trailing separators dropped.
pub fn normalize_path_components(path: &str) -> (r: String)
    ensures
        r@ == normalize_components_spec(path@),
{
    let n = path.unicode_len();
    let root = n > 0 && path.get_char(0) == '/';
    let ghost all_parts = split_parts(path@, sep());
    let mut has_root = root;
    let mut stack: Vec<String> = Vec::new();
    let mut i: usize = 0;
    proof {
        assert(path@.subrange(0, n as int) == path@);
        assert(stack.deep_view() =~= Seq::<Seq<char>>::empty());
    }
    loop
        invariant_except_break
            i <= n,
            n == path@.len(),
            fold_segs(all_parts, root, Seq::empty()) == fold_segs(
                split_parts(path@.subrange(i as int, n as int), sep()),
                has_root,
                stack.deep_view(),
            ),
        ensures
            fold_segs(all_parts, root, Seq::empty()) == (has_root, stack.deep_view()),
        decreases n - i,
    {
        let j = find_from(path, i, '/');
        let seg = path.substring_char(i, j);
        let ghost rem = path@.subrange(i as int, n as int);
        let ghost segs = split_parts(rem, sep());
        let ghost pre_root = has_root;
        let ghost pre_stack = stack.deep_view();
        proof {
            lemma_find_idx_at(rem, sep(), j - i);
            assert(rem.subrange(0, j - i) == seg@);
            if j < n {
                assert(segs == seq![seg@] + split_parts(
                    rem.subrange(j - i + 1, rem.len() as int),
                    sep(),
                ));
                assert(segs.drop_first() =~= split_parts(
                    rem.subrange(j - i + 1, rem.len() as int),
                    sep(),
                ));
                assert(rem.subrange(j - i + 1, rem.len() as int) =~= path@.subrange(
                    j + 1,
                    n as int,
                ));
            } else {
                assert(rem.subrange(0, j - i) == rem);
                assert(segs == seq![rem]);
                assert(segs.drop_first() =~= Seq::<Seq<char>>::empty());
            }
            assert(segs[0] == seg@);
        }
        let empty_or_dot = seg.unicode_len() == 0 || seg_is_dot(seg);
        if empty_or_dot {
            proof {
                assert(fold_segs(segs, pre_root, pre_stack) == fold_segs(
                    segs.drop_first(),
                    has_root,
                    stack.deep_view(),
                ));
            }
        } else if seg_is_dotdot(seg) {
            if stack.len() > 0 {
                let _popped = stack.pop();
                proof {
                    assert(stack.deep_view() =~= pre_stack.drop_last());
                    assert(fold_segs(segs, pre_root, pre_stack) == fold_segs(
                        segs.drop_first(),
                        has_root,
                        stack.deep_view(),
                    ));
                }
            } else if has_root {
                has_root = false;
                proof {
                    assert(pre_stack.len() == 0);
                    assert(fold_segs(segs, pre_root, pre_stack) == fold_segs(
                        segs.drop_first(),
                        has_root,
                        stack.deep_view(),
                    ));
                }
            } else {
                proof {
                    assert(pre_stack.len() == 0);
                    assert(fold_segs(segs, pre_root, pre_stack) == fold_segs(
                        segs.drop_first(),
                        has_root,
                        stack.deep_view(),
                    ));
                }
            }
        } else {
            let owned = seg.to_owned();
            stack.push(owned);
            proof {
                assert(stack.deep_view() =~= pre_stack.push(seg@));
                assert(fold_segs(segs, pre_root, pre_stack) == fold_segs(
                    segs.drop_first(),
                    has_root,
                    stack.deep_view(),
                ));
            }
        }
        if j == n {
            break ;
        }
        i = j + 1;
    }
    let mut out = String::new();
    if has_root {
        push_char(&mut out, '/');
    }
    let ghost final_stack = stack.deep_view();
    let ghost final_root = has_root;
    proof {
        assert(final_stack.subrange(0, 0) =~= Seq::<Seq<char>>::empty());
        if final_root {
            assert(out@ =~= seq![sep()] + join_segs(final_stack.subrange(0, 0)));
        } else {
            assert(out@ =~= join_segs(final_stack.subrange(0, 0)));
        }
    }
    let mut k: usize = 0;
    while k < stack.len()
        invariant
            k <= stack.len(),
            stack.deep_view() == final_stack,
            has_root == final_root,
            out@ == join_path(final_root, final_stack.subrange(0, k as int)),
        decreases stack.len() - k,
    {
        let ghost pre = final_stack.subrange(0, k as int);
        if k > 0 {
            push_char(&mut out, '/');
        }
        let s = &stack[k];
        out.append(s.as_str());
        proof {
            assert(s@ == final_stack[k as int]);
            lemma_join_push(pre, final_stack[k as int]);
            assert(final_stack.subrange(0, k + 1) =~= pre.push(final_stack[k as int]));
            if final_root {
                assert(out@ =~= seq![sep()] + join_segs(pre.push(final_stack[k as int])));
            } else {
                assert(out@ =~= join_segs(pre.push(final_stack[k as int])));
            }
        }
        k = k + 1;
    }
    proof {
        assert(final_stack.subrange(0, final_stack.len() as int) == final_stack);
    }
    out
}

/// The registry key for a storage path: the path itself if absolute, else
/// joined onto `cwd` first; lexically normalized either way. `cwd` is the
/// caller's working directory and must be absolute.
pub fn normalize_db_path(db_path: &str, cwd: &str) -> (r: String)
    requires
        cwd@.len() > 0,
        cwd@[0] == '/',
    ensures
        r@ == normalize_db_path_spec(db_path@, cwd@),
{
    let n = db_path.unicode_len();
    if n > 0 && db_path.get_char(0) == '/' {
        normalize_path_components(db_path)
    } else {
        let mut joined = cwd.to_owned();
        joined.append("/");
        joined.append(db_path);
        proof {
            reveal_strlit("/");
            assert(joined@ =~= cwd@ + seq![sep()] + db_path@);
        }
        normalize_path_components(joined.as_str())
    }
}

/// Distinct spellings of the same not-yet-existing file collapse to one
/// registry key: for a relative path `p` and an absolute working directory
/// `cwd`, the spellings `p`, `./p` and `cwd/p` normalize identically.
pub proof fn lemma_normalize_spellings(p: Seq<char>, cwd: Seq<char>)
    requires
        !is_absolute(p),
        is_absolute(cwd),
    ensures
        normalize_db_path_spec(seq!['.', '/'] + p, cwd) == normalize_db_path_spec(p, cwd),
        normalize_db_path_spec(cwd + seq![sep()] + p, cwd) == normalize_db_path_spec(p, cwd),
{
    // The absolute spelling: `cwd + / + p` is absolute, and its normalized
    // form is by definition what the relative spelling `p` normalizes to.
    assert(is_absolute(cwd + seq![sep()] + p));

    // The `./p` spelling: still relative, so it joins to `cwd + / + ./p`,
    // whose segment list is that of `cwd + / + p` with one `.` inserted,
    // which the fold drops.
    let dotted = seq!['.', '/'] + p;
    assert(!is_absolute(dotted));
    let j1 = cwd + seq![sep()] + dotted;
    let j2 = cwd + seq![sep()] + p;
    assert(j1 =~= cwd + seq![sep()] + (dot_seg() + seq![sep()] + p));
    lemma_split_concat(cwd, dot_seg() + seq![sep()] + p, sep());
    lemma_split_concat(dot_seg(), p, sep());
    lemma_split_concat(cwd, p, sep());
    assert(split_parts(dot_seg(), sep()) == seq![dot_seg()]) by {
        lemma_find_idx_at(dot_seg(), sep(), 1);
    }
    let cw = split_parts(cwd, sep());
    let pp = split_parts(p, sep());
    assert(split_parts(j1, sep()) == cw + (seq![dot_seg()] + pp));
    assert(split_parts(j2, sep()) == cw + pp);
    let root1 = is_absolute(j1);
    let root2 = is_absolute(j2);
    assert(root1 && root2);
    lemma_fold_append(cw, seq![dot_seg()] + pp, true, Seq::empty());
    lemma_fold_append(cw, pp, true, Seq::empty());
    let mid = fold_segs(cw, true, Seq::empty());
    assert((seq![dot_seg()] + pp).drop_first() =~= pp);
    assert((seq![dot_seg()] + pp)[0] == dot_seg());
    assert(fold_segs(seq![dot_seg()] + pp, mid.0, mid.1) == fold_segs(pp, mid.0, mid.1));
    assert(cw + (seq![dot_seg()] + pp) =~= split_parts(j1, sep()));
    assert(normalize_components_spec(j1) == normalize_components_spec(j2));
}

/// A plain path segment: non-empty and neither `.` nor `..`, so the fold
/// keeps it as it stands.
pub open spec fn plain_seg(x: Seq<char>) -> bool {
    x.len() > 0 && x != dot_seg() && x != dotdot_seg()
}

/// A stack whose entries the fold could have kept: plain and free of the
/// separator.
spec fn good_stack(st: Seq<Seq<char>>) -> bool {
    forall|k: int| 0 <= k < st.len() ==> plain_seg(#[trigger] st[k]) && no_char(st[k], sep())
}

/// Folding a list of plain segments keeps the root and appends them all.
proof fn lemma_fold_plain(parts: Seq<Seq<char>>, root: bool, stack: Seq<Seq<char>>)
    requires
        forall|k: int| 0 <= k < parts.len() ==> plain_seg(#[trigger] parts[k]),
    ensures
        fold_segs(parts, root, stack) == (root, stack + parts),
    decreases parts.len(),
{
    if parts.len() == 0 {
        assert(stack + parts =~= stack);
    } else {
        let p = parts[0];
        assert(plain_seg(p));
        lemma_fold_plain(parts.drop_first(), root, stack.push(p));
        assert(stack.push(p) + parts.drop_first() =~= stack + parts);
    }
}

/// Whatever the fold pops or skips, every entry it keeps came in plain
/// and separator-free.
proof fn lemma_fold_entries(parts: Seq<Seq<char>>, root: bool, stack: Seq<Seq<char>>)
    requires
        good_stack(stack),
        forall|k: int| 0 <= k < parts.len() ==> no_char(#[trigger] parts[k], sep()),
    ensures
        good_stack(fold_segs(parts, root, stack).1),
    decreases parts.len(),
{
    if parts.len() == 0 {
    } else {
        let p = parts[0];
        let rest = parts.drop_first();
        assert(forall|k: int| 0 <= k < rest.len() ==> no_char(#[trigger] rest[k], sep())) by {
            assert(forall|k: int| 0 <= k < rest.len() ==> rest[k] == parts[k + 1]);
        }
        if p.len() == 0 || p == dot_seg() {
            lemma_fold_entries(rest, root, stack);
        } else if p == dotdot_seg() {
            if stack.len() > 0 {
                assert(good_stack(stack.drop_last()));
                lemma_fold_entries(rest, root, stack.drop_last());
            } else if root {
                lemma_fold_entries(rest, false, stack);
            } else {
                lemma_fold_entries(rest, root, stack);
            }
        } else {
            assert(plain_seg(p));
            assert(no_char(p, sep()));
            assert(good_stack(stack.push(p)));
            lemma_fold_entries(rest, root, stack.push(p));
        }
    }
}

/// Joining the parts of a split reproduces the path: the separators come
/// back exactly where they were.
pub proof fn lemma_join_split(s: Seq<char>)
    ensures
        join_segs(split_parts(s, sep())) == s,
    decreases s.len(),
{
    let i = find_idx(s, sep());
    lemma_find_idx_bounds(s, sep());
    if i == s.len() {
        assert(split_parts(s, sep()) == seq![s]);
        assert(join_segs(seq![s]) == s);
    } else {
        let head = s.subrange(0, i);
        let rest = s.subrange(i + 1, s.len() as int);
        let parts = split_parts(s, sep());
        assert(parts == seq![head] + split_parts(rest, sep()));
        lemma_split_parts_shape(rest, sep());
        assert(parts.len() >= 2);
        assert(parts[0] == head);
        assert(parts.drop_first() =~= split_parts(rest, sep()));
        lemma_join_split(rest);
        assert(join_segs(parts) == head + seq![sep()] + rest);
        assert(head + seq![sep()] + rest =~= s);
    }
}

/// Splitting the join of separator-free parts yields the parts again.
proof fn lemma_split_join(parts: Seq<Seq<char>>)
    requires
        parts.len() > 0,
        forall|k: int| 0 <= k < parts.len() ==> no_char(#[trigger] parts[k], sep()),
    ensures
        split_parts(join_segs(parts), sep()) == parts,
    decreases parts.len(),
{
    if parts.len() == 1 {
        let s = parts[0];
        assert(join_segs(parts) == s);
        lemma_find_idx_at(s, sep(), s.len() as int);
        assert(split_parts(s, sep()) == seq![s]);
        assert(seq![s] =~= parts);
    } else {
        let a = parts[0];
        let b = join_segs(parts.drop_first());
        let s = join_segs(parts);
        assert(s == a + seq![sep()] + b);
        let al = a.len() as int;
        assert forall|t: int| 0 <= t < al implies s[t] != sep() by {
            assert(s[t] == a[t]);
        }
        assert(s[al] == sep());
        lemma_find_idx_at(s, sep(), al);
        assert(split_parts(s, sep()) == seq![s.subrange(0, al)] + split_parts(
            s.subrange(al + 1, s.len() as int),
            sep(),
        ));
        assert(s.subrange(0, al) =~= a);
        assert(s.subrange(al + 1, s.len() as int) =~= b) by {
            assert forall|t: int| 0 <= t < b.len() implies s.subrange(
                al + 1,
                s.len() as int,
            )[t] == b[t] by {
                assert(s.subrange(al + 1, s.len() as int)[t] == s[(al + 1) + t]);
                assert(s[al + 1 + t] == b[t]);
                assert((al + 1) + t == al + 1 + t);
            }
        }
        assert(forall|k: int|
            0 <= k < parts.drop_first().len() ==> no_char(
                #[trigger] parts.drop_first()[k],
                sep(),
            )) by {
            assert(forall|k: int|
                0 <= k < parts.drop_first().len() ==> parts.drop_first()[k] == parts[k + 1]);
        }
        lemma_split_join(parts.drop_first());
        assert(seq![a] + parts.drop_first() =~= parts);
    }
}

/// An absolute path with only plain segments is already normal: the fold
/// keeps every segment, and normalization gives it back unchanged, under
/// either entry point.
pub proof fn lemma_normalize_fixed_point(p: Seq<char>, cwd: Seq<char>)
    requires
        is_absolute(p),
        forall|k: int|
            1 <= k < split_parts(p, sep()).len() ==> plain_seg(#[trigger] split_parts(p, sep())[k]),
    ensures
        normalize_components_spec(p) == p,
        normalize_db_path_spec(p, cwd) == p,
{
    let parts = split_parts(p, sep());
    lemma_find_idx_at(p, sep(), 0);
    assert(parts == seq![p.subrange(0, 0)] + split_parts(
        p.subrange(1, p.len() as int),
        sep(),
    ));
    lemma_split_parts_shape(p.subrange(1, p.len() as int), sep());
    assert(parts.len() >= 2);
    assert(parts[0] =~= Seq::<char>::empty());
    let tail = parts.drop_first();
    assert(forall|k: int| 0 <= k < tail.len() ==> plain_seg(#[trigger] tail[k])) by {
        assert(forall|k: int| 0 <= k < tail.len() ==> tail[k] == parts[k + 1]);
    }
    assert(fold_segs(parts, true, Seq::empty()) == fold_segs(tail, true, Seq::empty()));
    lemma_fold_plain(tail, true, Seq::empty());
    assert(Seq::<Seq<char>>::empty() + tail =~= tail);
    assert(normalize_components_spec(p) == seq![sep()] + join_segs(tail));
    lemma_join_split(p);
    assert(join_segs(parts) == p);
    assert(join_segs(parts) == parts[0] + seq![sep()] + join_segs(tail));
    assert(parts[0] + seq![sep()] + join_segs(tail) =~= seq![sep()] + join_segs(tail));
}

/// Normalization is idempotent: normalizing a normalized path changes
/// nothing.
pub proof fn lemma_normalize_idempotent(q: Seq<char>)
    ensures
        normalize_components_spec(normalize_components_spec(q)) == normalize_components_spec(q),
{
    let parts = split_parts(q, sep());
    let root = is_absolute(q);
    lemma_split_parts_shape(q, sep());
    lemma_fold_entries(parts, root, Seq::empty());
    let folded = fold_segs(parts, root, Seq::empty());
    let st = folded.1;
    assert(good_stack(st));
    let out = join_path(folded.0, st);
    assert(out == normalize_components_spec(q));
    if folded.0 {
        if st.len() == 0 {
            assert(out =~= seq![sep()]);
            lemma_normalize_root();
            assert(normalize_components_spec(out) == out);
        } else {
            lemma_split_join(st);
            assert(out == seq![sep()] + join_segs(st));
            assert(out =~= Seq::<char>::empty() + seq![sep()] + join_segs(st));
            lemma_split_concat(Seq::empty(), join_segs(st), sep());
            lemma_find_idx_at(Seq::empty(), sep(), 0);
            assert(split_parts(Seq::<char>::empty(), sep()) == seq![Seq::<char>::empty()]);
            assert(split_parts(out, sep()) == seq![Seq::<char>::empty()] + st);
            assert(out[0] == sep()) by {
                assert(out =~= seq![sep()] + join_segs(st));
            }
            assert(is_absolute(out));
            assert forall|k: int|
                1 <= k < split_parts(out, sep()).len() implies plain_seg(
                #[trigger] split_parts(out, sep())[k],
            ) by {
                assert(split_parts(out, sep())[k] == st[k - 1]);
            }
            lemma_normalize_fixed_point(out, Seq::empty());
        }
    } else {
        if st.len() == 0 {
            assert(out =~= Seq::<char>::empty());
            lemma_normalize_empty();
            assert(normalize_components_spec(out) == out);
        } else {
            lemma_split_join(st);
            assert(split_parts(out, sep()) == st);
            assert(st[0].len() > 0);
            assert(out[0] == st[0][0]) by {
                if st.len() == 1 {
                    assert(join_segs(st) == st[0]);
                } else {
                    assert(join_segs(st) == st[0] + seq![sep()] + join_segs(st.drop_first()));
                }
            }
            assert(out[0] != sep());
            assert(!is_absolute(out));
            assert(forall|k: int|
                0 <= k < split_parts(out, sep()).len() ==> plain_seg(
                    #[trigger] split_parts(out, sep())[k],
                ));
            lemma_fold_plain(st, false, Seq::empty());
            assert(Seq::<Seq<char>>::empty() + st =~= st);
            assert(normalize_components_spec(out) == join_segs(st));
        }
    }
}

/// The root path is already normal.
proof fn lemma_normalize_root()
    ensures
        normalize_components_spec(seq![sep()]) == seq![sep()],
{
    let s = seq![sep()];
    assert(is_absolute(s));
    lemma_find_idx_at(s, sep(), 0);
    let rest = s.subrange(1, 1);
    assert(rest =~= Seq::<char>::empty());
    lemma_find_idx_at(rest, sep(), 0);
    assert(split_parts(rest, sep()) == seq![rest]);
    assert(split_parts(s, sep()) == seq![s.subrange(0, 0)] + seq![rest]);
    let parts = split_parts(s, sep());
    assert(parts.len() == 2);
    assert(parts[0].len() == 0 && parts[1].len() == 0);
    assert(parts.drop_first() =~= seq![rest]);
    assert(fold_segs(parts, true, Seq::empty()) == fold_segs(
        parts.drop_first(),
        true,
        Seq::empty(),
    ));
    assert(parts.drop_first()[0].len() == 0);
    assert(parts.drop_first().drop_first() =~= Seq::<Seq<char>>::empty());
    assert(fold_segs(parts.drop_first(), true, Seq::empty()) == fold_segs(
        Seq::<Seq<char>>::empty(),
        true,
        Seq::empty(),
    ));
    assert(fold_segs(Seq::<Seq<char>>::empty(), true, Seq::<Seq<char>>::empty()) == (
    true,
    Seq::<Seq<char>>::empty(),
    ));
    assert(join_path(true, Seq::empty()) =~= s);
}

/// The empty path is already normal.
proof fn lemma_normalize_empty()
    ensures
        normalize_components_spec(Seq::<char>::empty()) == Seq::<char>::empty(),
{
    let s = Seq::<char>::empty();
    assert(!is_absolute(s));
    lemma_find_idx_at(s, sep(), 0);
    assert(split_parts(s, sep()) == seq![s]);
    assert(seq![s][0].len() == 0);
    assert(seq![s].drop_first() =~= Seq::<Seq<char>>::empty());
    assert(fold_segs(seq![s], false, Seq::empty()) == fold_segs(
        Seq::<Seq<char>>::empty(),
        false,
        Seq::empty(),
    ));
    assert(fold_segs(Seq::<Seq<char>>::empty(), false, Seq::<Seq<char>>::empty()) == (
    false,
    Seq::<Seq<char>>::empty(),
    ));
    assert(join_path(false, Seq::empty()) =~= s);
}

/// Renormalizing a registry key changes nothing, provided the first pass
/// yielded an absolute key (enough `..` segments can pop the root away,
/// and such a key would be joined onto the working directory again).
pub proof fn lemma_normalize_db_path_idempotent(q: Seq<char>, cwd: Seq<char>)
    requires
        is_absolute(normalize_db_path_spec(q, cwd)),
    ensures
        normalize_db_path_spec(normalize_db_path_spec(q, cwd), cwd) == normalize_db_path_spec(
            q,
            cwd,
        ),
{
    let key = normalize_db_path_spec(q, cwd);
    if is_absolute(q) {
        lemma_normalize_idempotent(q);
    } else {
        lemma_normalize_idempotent(cwd + seq![sep()] + q);
    }
}

} // verus!
