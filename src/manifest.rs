//! Manifests: plain text, one glob pattern per line.
//!
//! The source manifest lists what to back up; an ignore manifest lists, for
//! the directory that holds it, what to leave out. Blank lines hold no
//! pattern. Lines end at `\n`, and a `\r` just before it is dropped.
use vstd::prelude::*;
use crate::paths::{is_root_dir, is_scope_root, join, join_spec};
use crate::retention::views;
use crate::text::{push_char, slice_chars};
use vstd::string::StrSliceExecFns;

verus! {

/// What reading a manifest file gave.
pub enum ManifestRead {
    /// The file's text.
    Found(String),
    /// There is no such file.
    Missing,
    /// The file is there but could not be read.
    Unreadable,
}

/// Why a resolution pass failed.
#[derive(Clone, Copy, Debug, PartialEq, Eq, Structural)]
pub enum ResolveError {
    /// A glob pattern is malformed.
    InvalidPattern,
    /// There is no source manifest.
    SourceManifestMissing,
    /// A manifest exists but could not be read.
    ManifestReadError,
}

/// `l` without a trailing carriage return.
pub open spec fn strip_cr(l: Seq<char>) -> Seq<char> {
    if l.len() > 0 && l.last() == '\r' {
        l.drop_last()
    } else {
        l
    }
}

/// The finished non-blank lines of `s`, and the line still open at its end.
pub open spec fn scan(s: Seq<char>) -> (Seq<Seq<char>>, Seq<char>)
    decreases s.len(),
{
    if s.len() == 0 {
        (Seq::empty(), Seq::empty())
    } else {
        let prev = scan(s.drop_last());
        if s.last() == '\n' {
            if strip_cr(prev.1).len() > 0 {
                (prev.0.push(strip_cr(prev.1)), Seq::empty())
            } else {
                (prev.0, Seq::empty())
            }
        } else {
            (prev.0, prev.1.push(s.last()))
        }
    }
}

/// The patterns that the manifest text `s` lists, in order.
pub open spec fn patterns_of(s: Seq<char>) -> Seq<Seq<char>> {
    let r = scan(s);
    if r.1.len() > 0 {
        r.0.push(r.1)
    } else {
        r.0
    }
}

fn strip_cr_exec(l: String) -> (r: String)
    ensures
        r@ == strip_cr(l@),
{
    let n = l.as_str().unicode_len();
    if n > 0 && l.as_str().get_char(n - 1) == '\r' {
        slice_chars(l.as_str(), 0, n - 1)
    } else {
        l
    }
}

/// The patterns that the manifest text lists, in order.
pub fn manifest_patterns(content: &str) -> (r: Vec<String>)
    ensures
        views(r@) == patterns_of(content@),
{
    let n = content.unicode_len();
    let mut done: Vec<String> = Vec::new();
    let mut cur = String::new();
    let mut i: usize = 0;
    while i < n
        invariant
            n == content@.len(),
            i <= n,
            views(done@) == scan(content@.take(i as int)).0,
            cur@ == scan(content@.take(i as int)).1,
        decreases n - i,
    {
        assert(content@.take(i + 1).drop_last() =~= content@.take(i as int));
        let c = content.get_char(i);
        if c == '\n' {
            let line = strip_cr_exec(cur);
            if line.as_str().unicode_len() > 0 {
                done.push(line);
                assert(views(done@) =~= scan(content@.take(i as int)).0.push(done@.last()@));
            }
            cur = String::new();
        } else {
            push_char(&mut cur, c);
        }
        i = i + 1;
    }
    assert(content@.take(i as int) =~= content@);
    if cur.as_str().unicode_len() > 0 {
        done.push(cur);
        assert(views(done@) =~= scan(content@).0.push(done@.last()@));
    }
    done
}

/// The patterns of the source manifest. A missing manifest is reported as
/// such, apart from one that cannot be read.
pub fn source_patterns(read: &ManifestRead) -> (r: Result<Vec<String>, ResolveError>)
    ensures
        match read {
            ManifestRead::Found(c) => r is Ok && views(r->Ok_0@) == patterns_of(c@),
            ManifestRead::Missing => r == Err::<Vec<String>, _>(ResolveError::SourceManifestMissing),
            ManifestRead::Unreadable => r == Err::<Vec<String>, _>(ResolveError::ManifestReadError),
        },
{
    match read {
        ManifestRead::Found(c) => Ok(manifest_patterns(c.as_str())),
        ManifestRead::Missing => Err(ResolveError::SourceManifestMissing),
        ManifestRead::Unreadable => Err(ResolveError::ManifestReadError),
    }
}

/// What the upward walk for an ignore manifest does at one directory.
pub enum WalkStep {
    /// A manifest is here: apply these patterns, rooted at the directory,
    /// and walk no further.
    Apply(Vec<String>),
    /// No manifest here: go on to the parent.
    Up,
    /// No manifest here and this is a scope root: no manifest applies.
    Stop,
    /// The manifest here could not be read.
    Fail(ResolveError),
}

/// Each of `patterns` rooted at `dir`.
pub open spec fn rooted(dir: Seq<char>, patterns: Seq<Seq<char>>) -> Seq<Seq<char>> {
    patterns.map_values(|q: Seq<char>| join_spec(dir, q))
}

/// Each of `patterns` rooted at `dir`.
pub fn root_patterns(dir: &str, patterns: &Vec<String>) -> (r: Vec<String>)
    ensures
        views(r@) == rooted(dir@, views(patterns@)),
{
    let mut out: Vec<String> = Vec::new();
    let mut i: usize = 0;
    while i < patterns.len()
        invariant
            i <= patterns.len(),
            views(out@) == rooted(dir@, views(patterns@.take(i as int))),
        decreases patterns.len() - i,
    {
        assert(views(patterns@.take(i + 1)) =~= views(patterns@.take(i as int)).push(
            patterns@[i as int]@));
        let ghost prev = out@;
        let j = join(dir, patterns[i].as_str());
        out.push(j);
        assert(views(out@) =~= views(prev).push(j@));
        assert(rooted(dir@, views(patterns@.take(i + 1))) =~= rooted(dir@, views(patterns@.take(i as int))).push(
            join_spec(dir@, patterns@[i as int]@)));
        i = i + 1;
    }
    assert(patterns@.take(i as int) =~= patterns@);
    out
}

/// Decides the walk's next move at `dir`, given what reading the ignore
/// manifest there gave. The nearest manifest wins: once one is found its
/// patterns alone apply, and those of directories further up do not.
pub fn walk_step(dir: &str, read: &ManifestRead) -> (r: WalkStep)
    ensures
        match read {
            ManifestRead::Found(c) => r is Apply && views(r->Apply_0@) == rooted(dir@, patterns_of(c@)),
            ManifestRead::Missing => if is_scope_root(dir@) {
                r is Stop
            } else {
                r is Up
            },
            ManifestRead::Unreadable => r == WalkStep::Fail(ResolveError::ManifestReadError),
        },
{
    match read {
        ManifestRead::Found(c) => {
            let ps = manifest_patterns(c.as_str());
            WalkStep::Apply(root_patterns(dir, &ps))
        },
        ManifestRead::Missing => if is_root_dir(dir) {
            WalkStep::Stop
        } else {
            WalkStep::Up
        },
        ManifestRead::Unreadable => WalkStep::Fail(ResolveError::ManifestReadError),
    }
}

} // verus!
