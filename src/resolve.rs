//! One resolution pass: matched paths in, deduplicated backup set out.
//!
//! A `Resolution` gathers, in the order of the source patterns, every path
//! that a pattern matched, and the exclusion set that the governing ignore
//! manifests contribute. `finish` then drops what is excluded and keeps the
//! first entry for each path.
use vstd::prelude::*;
use crate::manifest::ResolveError;
use crate::retention::views;

verus! {

/// Whether the glob matcher refuses `pattern` as malformed.
pub uninterp spec fn pattern_rejected(pattern: Seq<char>) -> bool;

#[verifier::external_type_specification]
#[verifier::external_body]
pub struct ExPatternError(glob::PatternError);

/// Relies on `glob::glob`: it fails exactly when the pattern is malformed,
/// which depends on the pattern alone; what it finds depends on the disk.
/// Each entry found is a path, or `None` where a directory could not be read.
#[verifier::external_body]
fn glob_paths(pattern: &str) -> (r: Result<Vec<Option<String>>, glob::PatternError>)
    ensures
        r is Err <==> pattern_rejected(pattern@),
{
    match glob::glob(pattern) {
        Ok(paths) => {
            let mut found = Vec::new();
            for entry in paths {
                match entry {
                    Ok(p) => found.push(Some(p.to_string_lossy().into_owned())),
                    Err(_) => found.push(None),
                }
            }
            Ok(found)
        },
        Err(e) => Err(e),
    }
}

/// The paths among `found`, in order.
pub open spec fn present(found: Seq<Option<String>>) -> Seq<Seq<char>>
    decreases found.len(),
{
    if found.len() == 0 {
        Seq::empty()
    } else {
        let prev = present(found.drop_last());
        match found.last() {
            Some(p) => prev.push(p@),
            None => prev,
        }
    }
}

/// The paths among `found`, in order, passing over unreadable entries.
pub fn found_paths(found: &Vec<Option<String>>) -> (r: Vec<String>)
    ensures
        views(r@) == present(found@),
{
    let mut out: Vec<String> = Vec::new();
    let mut i: usize = 0;
    while i < found.len()
        invariant
            i <= found.len(),
            views(out@) == present(found@.take(i as int)),
        decreases found.len() - i,
    {
        assert(found@.take(i + 1).drop_last() =~= found@.take(i as int));
        match &found[i] {
            Some(p) => {
                let ghost prev = out@;
                out.push(p.clone());
                assert(views(out@) =~= views(prev).push(p@));
            },
            None => {},
        }
        i = i + 1;
    }
    assert(found@.take(i as int) =~= found@);
    out
}

/// The paths that `pattern` matches now. A malformed pattern fails the pass.
pub fn expand(pattern: &str) -> (r: Result<Vec<String>, ResolveError>)
    ensures
        r is Err <==> pattern_rejected(pattern@),
        r is Err ==> r == Err::<Vec<String>, _>(ResolveError::InvalidPattern),
{
    match glob_paths(pattern) {
        Ok(found) => Ok(found_paths(&found)),
        Err(_) => Err(ResolveError::InvalidPattern),
    }
}

/// A path in the backup set, and whether it is a directory (whose contents
/// are copied when staging).
pub struct ResolvedEntry {
    pub path: String,
    pub is_dir: bool,
}

impl View for ResolvedEntry {
    type V = (Seq<char>, bool);

    open spec fn view(&self) -> (Seq<char>, bool) {
        (self.path@, self.is_dir)
    }
}

pub open spec fn entry_views(v: Seq<ResolvedEntry>) -> Seq<(Seq<char>, bool)> {
    v.map_values(|e: ResolvedEntry| e@)
}

/// The state of a resolution pass.
pub struct Resolution {
    offered: Vec<ResolvedEntry>,
    excluded: Vec<String>,
}

/// The model of a pass: what the patterns matched, in order, and what the
/// ignore manifests excluded.
pub struct ResolutionView {
    pub offered: Seq<(Seq<char>, bool)>,
    pub excluded: Seq<Seq<char>>,
}

impl View for Resolution {
    type V = ResolutionView;

    closed spec fn view(&self) -> ResolutionView {
        ResolutionView { offered: entry_views(self.offered@), excluded: views(self.excluded@) }
    }
}

/// Whether some entry of `s` has path `p`.
pub open spec fn has_path(s: Seq<(Seq<char>, bool)>, p: Seq<char>) -> bool {
    exists|j: int| 0 <= j < s.len() && (#[trigger] s[j]).0 == p
}

/// The backup set: each offered entry whose path is not excluded, the first
/// one only for each path, in the order offered.
pub open spec fn resolved(offered: Seq<(Seq<char>, bool)>, excluded: Seq<Seq<char>>) -> Seq<
    (Seq<char>, bool),
>
    decreases offered.len(),
{
    if offered.len() == 0 {
        Seq::empty()
    } else {
        let prev = resolved(offered.drop_last(), excluded);
        let e = offered.last();
        if excluded.contains(e.0) || has_path(prev, e.0) {
            prev
        } else {
            prev.push(e)
        }
    }
}

/// Whether `s` is among `v`.
pub fn contains_text(v: &Vec<String>, s: &String) -> (r: bool)
    ensures
        r == views(v@).contains(s@),
{
    let mut i: usize = 0;
    while i < v.len()
        invariant
            i <= v.len(),
            forall|j: int| 0 <= j < i ==> v@[j]@ != s@,
        decreases v.len() - i,
    {
        if v[i] == *s {
            assert(views(v@)[i as int] == s@);
            return true;
        }
        i = i + 1;
    }
    assert(!views(v@).contains(s@)) by {
        if views(v@).contains(s@) {
            let j = choose|j: int| 0 <= j < views(v@).len() && views(v@)[j] == s@;
            assert(v@[j]@ == s@);
        }
    }
    false
}

/// Whether some entry of `v` has path `p`.
pub fn has_entry_path(v: &Vec<ResolvedEntry>, p: &String) -> (r: bool)
    ensures
        r == has_path(entry_views(v@), p@),
{
    let mut i: usize = 0;
    while i < v.len()
        invariant
            i <= v.len(),
            forall|j: int| 0 <= j < i ==> v@[j].path@ != p@,
        decreases v.len() - i,
    {
        if v[i].path == *p {
            assert(entry_views(v@)[i as int].0 == p@);
            return true;
        }
        i = i + 1;
    }
    assert(!has_path(entry_views(v@), p@)) by {
        if has_path(entry_views(v@), p@) {
            let j = choose|j: int| 0 <= j < entry_views(v@).len() && entry_views(v@)[j].0 == p@;
            assert(v@[j].path@ == p@);
        }
    }
    false
}

impl Resolution {
    /// A pass with nothing matched and nothing excluded.
    pub fn new() -> (r: Resolution)
        ensures
            r@.offered == Seq::<(Seq<char>, bool)>::empty(),
            r@.excluded == Seq::<Seq<char>>::empty(),
    {
        let r = Resolution { offered: Vec::new(), excluded: Vec::new() };
        assert(r@.offered =~= Seq::<(Seq<char>, bool)>::empty());
        assert(r@.excluded =~= Seq::<Seq<char>>::empty());
        r
    }

    /// Records a path that a source pattern matched.
    pub fn offer(&mut self, path: String, is_dir: bool)
        ensures
            final(self)@.offered == old(self)@.offered.push((path@, is_dir)),
            final(self)@.excluded == old(self)@.excluded,
    {
        let ghost prev = self.offered@;
        self.offered.push(ResolvedEntry { path, is_dir });
        assert(entry_views(self.offered@) =~= entry_views(prev).push((path@, is_dir)));
    }

    /// Adds `paths` to the exclusion set.
    pub fn exclude_paths(&mut self, paths: &Vec<String>)
        ensures
            final(self)@.offered == old(self)@.offered,
            final(self)@.excluded == old(self)@.excluded + views(paths@),
    {
        let ghost start = views(self.excluded@);
        let mut i: usize = 0;
        while i < paths.len()
            invariant
                i <= paths.len(),
                views(self.excluded@) == start + views(paths@.take(i as int)),
                self@.offered == old(self)@.offered,
                start == old(self)@.excluded,
            decreases paths.len() - i,
        {
            let ghost prev = self.excluded@;
            self.excluded.push(paths[i].clone());
            assert(views(self.excluded@) =~= views(prev).push(paths@[i as int]@));
            assert(views(paths@.take(i + 1)) =~= views(paths@.take(i as int)).push(
                paths@[i as int]@));
            assert(start + views(paths@.take(i + 1)) =~= (start + views(paths@.take(i as int))).push(
                paths@[i as int]@));
            i = i + 1;
        }
        assert(paths@.take(i as int) =~= paths@);
    }

    /// Expands the rooted patterns of an ignore manifest and excludes what
    /// they match. Fails when one of them is malformed.
    pub fn exclude_patterns(&mut self, patterns: &Vec<String>) -> (r: Result<(), ResolveError>)
        ensures
            final(self)@.offered == old(self)@.offered,
            r is Err <==> exists|i: int|
                0 <= i < patterns@.len() && pattern_rejected(#[trigger] patterns@[i]@),
            r is Err ==> r == Err::<(), _>(ResolveError::InvalidPattern),
            r is Ok ==> old(self)@.excluded.is_prefix_of(final(self)@.excluded),
    {
        let mut i: usize = 0;
        while i < patterns.len()
            invariant
                i <= patterns.len(),
                self@.offered == old(self)@.offered,
                old(self)@.excluded.is_prefix_of(self@.excluded),
                forall|j: int| 0 <= j < i ==> !pattern_rejected(#[trigger] patterns@[j]@),
            decreases patterns.len() - i,
        {
            match expand(patterns[i].as_str()) {
                Ok(found) => {
                    let ghost before = self@.excluded;
                    self.exclude_paths(&found);
                    assert(old(self)@.excluded.is_prefix_of(self@.excluded)) by {
                        assert(before.is_prefix_of(self@.excluded));
                    }
                },
                Err(e) => {
                    return Err(e);
                },
            }
            i = i + 1;
        }
        Ok(())
    }

    /// Whether `path` is outside the exclusion set, so that staging copies it.
    pub fn admits(&self, path: &String) -> (r: bool)
        ensures
            r == !self@.excluded.contains(path@),
    {
        !contains_text(&self.excluded, path)
    }

    /// The backup set of this pass.
    pub fn finish(&self) -> (r: Vec<ResolvedEntry>)
        ensures
            entry_views(r@) == resolved(self@.offered, self@.excluded),
    {
        let mut out: Vec<ResolvedEntry> = Vec::new();
        let mut i: usize = 0;
        while i < self.offered.len()
            invariant
                i <= self.offered.len(),
                entry_views(out@) == resolved(entry_views(self.offered@).take(i as int), views(
                    self.excluded@)),
            decreases self.offered.len() - i,
        {
            assert(entry_views(self.offered@).take(i + 1).drop_last() =~= entry_views(
                self.offered@).take(i as int));
            assert(entry_views(self.offered@).take(i + 1).last() == self.offered@[i as int]@);
            let e = &self.offered[i];
            if !contains_text(&self.excluded, &e.path) && !has_entry_path(&out, &e.path) {
                let ghost prev = out@;
                out.push(ResolvedEntry { path: e.path.clone(), is_dir: e.is_dir });
                assert(entry_views(out@) =~= entry_views(prev).push(e@));
            }
            i = i + 1;
        }
        assert(entry_views(self.offered@).take(i as int) =~= entry_views(self.offered@));
        out
    }
}

/// Resolution is deterministic: two passes that matched the same paths in
/// the same order, under the same exclusions, give the same backup set,
/// member for member and in the same order.
pub proof fn lemma_resolution_deterministic(a: ResolutionView, b: ResolutionView)
    requires
        a.offered == b.offered,
        a.excluded == b.excluded,
    ensures
        resolved(a.offered, a.excluded) == resolved(b.offered, b.excluded),
{
}

/// No path appears twice in a backup set, however many patterns matched it.
pub proof fn lemma_resolved_unique(offered: Seq<(Seq<char>, bool)>, excluded: Seq<Seq<char>>)
    ensures
        forall|i: int, j: int|
            0 <= i < j < resolved(offered, excluded).len() ==> (#[trigger] resolved(
                offered,
                excluded,
            )[i]).0 != (#[trigger] resolved(offered, excluded)[j]).0,
    decreases offered.len(),
{
    if offered.len() > 0 {
        lemma_resolved_unique(offered.drop_last(), excluded);
        let prev = resolved(offered.drop_last(), excluded);
        let e = offered.last();
        if !(excluded.contains(e.0) || has_path(prev, e.0)) {
            let r = prev.push(e);
            assert forall|i: int, j: int| 0 <= i < j < r.len() implies r[i].0 != r[j].0 by {
                if j == r.len() - 1 {
                    assert(r[i] == prev[i]);
                    if r[i].0 == e.0 {
                        assert(has_path(prev, e.0));
                    }
                } else {
                    assert(r[i] == prev[i] && r[j] == prev[j]);
                }
            }
        }
    }
}

/// A path is in a backup set exactly when some pattern matched it and no
/// governing ignore manifest excluded it.
pub proof fn lemma_resolved_members(
    offered: Seq<(Seq<char>, bool)>,
    excluded: Seq<Seq<char>>,
    p: Seq<char>,
)
    ensures
        has_path(resolved(offered, excluded), p) <==> (has_path(offered, p) && !excluded.contains(
            p,
        )),
    decreases offered.len(),
{
    if offered.len() > 0 {
        let rest = offered.drop_last();
        let e = offered.last();
        let prev = resolved(rest, excluded);
        lemma_resolved_members(rest, excluded, p);
        assert(has_path(offered, p) <==> (has_path(rest, p) || e.0 == p)) by {
            if has_path(offered, p) {
                let j = choose|j: int| 0 <= j < offered.len() && (#[trigger] offered[j]).0 == p;
                if j < rest.len() {
                    assert(rest[j] == offered[j]);
                }
            }
            if has_path(rest, p) {
                let j = choose|j: int| 0 <= j < rest.len() && (#[trigger] rest[j]).0 == p;
                assert(offered[j] == rest[j]);
            }
            if e.0 == p {
                assert(offered[offered.len() - 1] == e);
            }
        }
        if !(excluded.contains(e.0) || has_path(prev, e.0)) {
            let r = prev.push(e);
            assert(has_path(r, p) <==> (has_path(prev, p) || e.0 == p)) by {
                if has_path(r, p) {
                    let j = choose|j: int| 0 <= j < r.len() && (#[trigger] r[j]).0 == p;
                    if j < prev.len() {
                        assert(prev[j] == r[j]);
                    }
                }
                if has_path(prev, p) {
                    let j = choose|j: int| 0 <= j < prev.len() && (#[trigger] prev[j]).0 == p;
                    assert(r[j] == prev[j]);
                }
                if e.0 == p {
                    assert(r[r.len() - 1] == e);
                }
            }
        }
    }
}

} // verus!
