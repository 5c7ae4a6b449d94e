//! Where each entry of the backup set lands in the staging tree.
use vstd::prelude::*;
use crate::paths::{join, join_spec};
use crate::resolve::{entry_views, ResolvedEntry};

verus! {

/// One top-level copy: from the entry's path to its place under the root.
pub struct CopyStep {
    pub from: String,
    pub to: String,
    /// A directory is copied recursively, skipping excluded paths.
    pub is_dir: bool,
}

impl View for CopyStep {
    type V = (Seq<char>, Seq<char>, bool);

    open spec fn view(&self) -> (Seq<char>, Seq<char>, bool) {
        (self.from@, self.to@, self.is_dir)
    }
}

/// The staging of a backup set.
pub struct StagePlan {
    pub steps: Vec<CopyStep>,
    /// Whether bytes are to be copied (false in a dry run).
    pub copy_bytes: bool,
}

pub open spec fn step_views(v: Seq<CopyStep>) -> Seq<(Seq<char>, Seq<char>, bool)> {
    v.map_values(|s: CopyStep| s@)
}

/// The copy steps for `entries` under `root`, mirroring each path.
pub open spec fn steps_for(entries: Seq<(Seq<char>, bool)>, root: Seq<char>) -> Seq<
    (Seq<char>, Seq<char>, bool),
> {
    entries.map_values(|e: (Seq<char>, bool)| (e.0, join_spec(root, e.0), e.1))
}

/// The staging that a run makes, or a dry run reports: its steps, and
/// whether bytes are copied.
pub open spec fn stage_of(entries: Seq<(Seq<char>, bool)>, root: Seq<char>, dry_run: bool) -> (
    Seq<(Seq<char>, Seq<char>, bool)>,
    bool,
) {
    (steps_for(entries, root), !dry_run)
}

/// Plans the staging of `entries` under `root`.
pub fn stage_plan(entries: &Vec<ResolvedEntry>, root: &str, dry_run: bool) -> (r: StagePlan)
    ensures
        (step_views(r.steps@), r.copy_bytes) == stage_of(entry_views(entries@), root@, dry_run),
{
    let mut steps: Vec<CopyStep> = Vec::new();
    let mut i: usize = 0;
    while i < entries.len()
        invariant
            i <= entries.len(),
            step_views(steps@) == steps_for(entry_views(entries@.take(i as int)), root@),
        decreases entries.len() - i,
    {
        let e = &entries[i];
        let ghost prev = steps@;
        steps.push(CopyStep { from: e.path.clone(), to: join(root, e.path.as_str()), is_dir: e.is_dir });
        assert(step_views(steps@) =~= step_views(prev).push((e.path@, join_spec(root@, e.path@), e.is_dir)));
        assert(entry_views(entries@.take(i + 1)) =~= entry_views(entries@.take(i as int)).push(e@));
        assert(steps_for(entry_views(entries@.take(i + 1)), root@) =~= steps_for(entry_views(
            entries@.take(i as int)), root@).push((e.path@, join_spec(root@, e.path@), e.is_dir)));
        i = i + 1;
    }
    assert(entries@.take(i as int) =~= entries@);
    StagePlan { steps, copy_bytes: !dry_run }
}

/// A dry run stages the same paths to the same places as a real run, and
/// copies no bytes.
pub proof fn lemma_dry_run_same_steps(entries: Seq<(Seq<char>, bool)>, root: Seq<char>)
    ensures
        stage_of(entries, root, true).0 == stage_of(entries, root, false).0,
        !stage_of(entries, root, true).1,
        stage_of(entries, root, false).1,
{
}

} // verus!
