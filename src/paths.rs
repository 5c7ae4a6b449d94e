//! Slash-separated paths: parents, the walk up to a scope root, joining.
use vstd::prelude::*;
use crate::text::{concat, push_char, push_text, slice_chars};
use vstd::string::StrSliceExecFns;

verus! {

/// The index of the last `c` in `s`, or -1.
pub open spec fn last_index_of(s: Seq<char>, c: char) -> int
    decreases s.len(),
{
    if s.len() == 0 {
        -1
    } else if s.last() == c {
        s.len() - 1
    } else {
        last_index_of(s.drop_last(), c)
    }
}

proof fn lemma_last_index_bounds(s: Seq<char>, c: char)
    ensures
        -1 <= last_index_of(s, c) < s.len(),
        last_index_of(s, c) >= 0 ==> s[last_index_of(s, c)] == c,
    decreases s.len(),
{
    if s.len() > 0 && s.last() != c {
        lemma_last_index_bounds(s.drop_last(), c);
    }
}

/// The directory that holds `p`: what precedes its last `/`, `/` for a
/// top-level absolute path, `.` (the resolution root) for a bare name.
pub open spec fn parent_spec(p: Seq<char>) -> Seq<char> {
    let k = last_index_of(p, '/');
    if k < 0 {
        seq!['.']
    } else if k == 0 {
        seq!['/']
    } else {
        p.subrange(0, k)
    }
}

/// Where the upward walk stops: the resolution root or the filesystem root.
pub open spec fn is_scope_root(d: Seq<char>) -> bool {
    d.len() == 0 || d == seq!['.'] || d == seq!['/']
}

/// `dir`, a slash, then `name`.
pub open spec fn join_spec(dir: Seq<char>, name: Seq<char>) -> Seq<char> {
    dir.push('/') + name
}

/// The index of the last `c` in `s`, if any.
pub fn last_index(s: &str, c: char) -> (r: Option<usize>)
    ensures
        match r {
            Some(k) => k as int == last_index_of(s@, c),
            None => last_index_of(s@, c) == -1,
        },
{
    let n = s.unicode_len();
    let mut i: usize = n;
    assert(s@.take(n as int) =~= s@);
    while i > 0
        invariant
            n == s@.len(),
            i <= n,
            last_index_of(s@, c) == last_index_of(s@.take(i as int), c),
        decreases i,
    {
        assert(s@.take(i as int).drop_last() =~= s@.take(i - 1));
        if s.get_char(i - 1) == c {
            return Some(i - 1);
        }
        i = i - 1;
    }
    None
}

fn dot() -> (r: String)
    ensures
        r@ == seq!['.'],
{
    let mut r = String::new();
    push_char(&mut r, '.');
    r
}

fn slash() -> (r: String)
    ensures
        r@ == seq!['/'],
{
    let mut r = String::new();
    push_char(&mut r, '/');
    r
}

/// The directory that holds `p` (see `parent_spec`).
pub fn parent_dir(p: &str) -> (r: String)
    ensures
        r@ == parent_spec(p@),
{
    proof { lemma_last_index_bounds(p@, '/'); }
    match last_index(p, '/') {
        None => dot(),
        Some(k) => if k == 0 {
            slash()
        } else {
            slice_chars(p, 0, k)
        },
    }
}

proof fn lemma_parent_shrinks(d: Seq<char>)
    requires
        !is_scope_root(d),
    ensures
        parent_spec(d).len() + (if is_scope_root(parent_spec(d)) { 0int } else { 1int }) < d.len()
            + 1,
{
    lemma_last_index_bounds(d, '/');
    let k = last_index_of(d, '/');
    if k == 0 {
        assert(d.len() > 1) by {
            if d.len() == 1 {
                assert(d =~= seq!['/']);
            }
        }
    }
}

/// The directories to search for an ignore manifest that governs `p`,
/// nearest first: its parent, that one's parent, and so on, up to and
/// including the first scope root.
pub fn ancestors(p: &str) -> (r: Vec<String>)
    ensures
        r@.len() >= 1,
        r@[0]@ == parent_spec(p@),
        forall|i: int| 0 <= i < r@.len() - 1 ==> !is_scope_root(#[trigger] r@[i]@),
        forall|i: int| 0 <= i < r@.len() - 1 ==> r@[i + 1]@ == parent_spec(#[trigger] r@[i]@),
        is_scope_root(r@.last()@),
{
    let mut out: Vec<String> = Vec::new();
    let mut cur = parent_dir(p);
    while !is_root_dir(cur.as_str())
        invariant
            forall|i: int| 0 <= i < out@.len() ==> !is_scope_root(#[trigger] out@[i]@),
            forall|i: int| 0 <= i < out@.len() - 1 ==> out@[i + 1]@ == parent_spec(
                #[trigger] out@[i]@),
            out@.len() > 0 ==> cur@ == parent_spec(out@.last()@),
            out@.len() == 0 ==> cur@ == parent_spec(p@),
            out@.len() > 0 ==> out@[0]@ == parent_spec(p@),
        decreases cur@.len() + (if is_scope_root(cur@) { 0int } else { 1int }),
    {
        let next = parent_dir(cur.as_str());
        proof { lemma_parent_shrinks(cur@); }
        out.push(cur);
        cur = next;
    }
    out.push(cur);
    out
}

/// Whether `d` is a scope root.
pub fn is_root_dir(d: &str) -> (r: bool)
    ensures
        r == is_scope_root(d@),
{
    let n = d.unicode_len();
    if n == 0 {
        return true;
    }
    if n != 1 {
        assert(d@ != seq!['.'] && d@ != seq!['/']);
        return false;
    }
    let c = d.get_char(0);
    assert(d@ == seq![c]) by {
        assert(d@ =~= seq![c]);
    }
    c == '.' || c == '/'
}

/// `dir`, a slash, then `name`.
pub fn join(dir: &str, name: &str) -> (r: String)
    ensures
        r@ == join_spec(dir@, name@),
{
    let mut r = dir.to_owned();
    push_char(&mut r, '/');
    push_text(&mut r, name);
    r
}

/// The last component of `p`: what follows its last `/`, or `p` itself.
pub open spec fn base_name_spec(p: Seq<char>) -> Seq<char> {
    p.subrange(last_index_of(p, '/') + 1, p.len() as int)
}

/// The last component of `p`.
pub fn base_name(p: &str) -> (r: String)
    ensures
        r@ == base_name_spec(p@),
{
    proof { lemma_last_index_bounds(p@, '/'); }
    let n = p.unicode_len();
    match last_index(p, '/') {
        None => slice_chars(p, 0, n),
        Some(k) => slice_chars(p, k + 1, n),
    }
}

/// The key under which a local archive is stored remotely: the store
/// prefix followed by the archive's file name.
pub fn remote_key(prefix: &str, local_path: &str) -> (r: String)
    ensures
        r@ == prefix@ + base_name_spec(local_path@),
{
    let name = base_name(local_path);
    concat(prefix, name.as_str())
}

} // verus!
