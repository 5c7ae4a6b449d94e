//! Bounded-count retention over archive identifiers.
//!
//! An identifier takes part when it ends with `-backup<ext>`. Its stem (the
//! part before that marker, less the store prefix) orders it: as a calendar
//! timestamp in the default mode, or lexically. Ties fall to the identifier's
//! own lexical order, so the order is total. The `keep` newest identifiers
//! stay; every other one is doomed. A keep count of zero dooms nothing.
use vstd::prelude::*;
use crate::text::{concat, ends_with, ends_with_spec, lex_less, lex_lt, slice_chars, starts_with,
    starts_with_spec};
use vstd::string::StrSliceExecFns;

verus! {

/// Format of the calendar timestamp at the start of an identifier.
pub const STAMP_FORMAT: &'static str = "%Y-%m-%d-%H-%M-%S";

/// How the stems of identifiers are ordered.
#[derive(Clone, Copy, Debug, PartialEq, Eq, Structural)]
pub enum StampOrder {
    /// The stem is a calendar timestamp, compared as a point in time.
    Calendar,
    /// The stem is an opaque token, compared lexically.
    Lexical,
}

/// What a retention pass needs to know.
pub struct RetentionRules {
    /// How many of the newest identifiers to keep; zero keeps all.
    pub keep: usize,
    /// Archive extension, such as `.tar.gz`.
    pub extension: String,
    /// Prefix that the store puts before each identifier (empty locally).
    pub prefix: String,
    pub order: StampOrder,
}

/// An identifier that takes part in retention, with its ordering key.
pub struct Candidate {
    pub name: String,
    /// The lexical key; empty in calendar mode.
    pub stem: String,
    /// Seconds since the epoch in calendar mode; zero in lexical mode.
    pub stamp: i64,
}

/// The model of a candidate.
pub struct Ranked {
    pub name: Seq<char>,
    pub stem: Seq<char>,
    pub stamp: int,
}

impl View for Candidate {
    type V = Ranked;

    open spec fn view(&self) -> Ranked {
        Ranked { name: self.name@, stem: self.stem@, stamp: self.stamp as int }
    }
}

/// The outcome of planning a retention pass.
pub struct RetentionPlan {
    /// The identifiers that the pass removes, or would remove, in input order.
    pub doomed: Vec<String>,
    /// Whether the removals are to be carried out (false in a dry run).
    pub execute: bool,
}

/// Counts of a finished pass.
#[derive(Clone, Copy, Debug, PartialEq, Eq, Structural)]
pub struct PruneReport {
    pub deleted: usize,
    pub failed: usize,
}

/// What the calendar parser makes of `text` under `format`: seconds since
/// the epoch, or nothing when the text does not fit the format.
pub uninterp spec fn calendar_stamp(text: Seq<char>, format: Seq<char>) -> Option<i64>;

/// Relies on chrono's `NaiveDateTime::parse_from_str` and
/// `and_utc().timestamp()`: the result depends on the two strings alone.
#[verifier::external_body]
fn parse_stamp(text: &str, format: &str) -> (r: Option<i64>)
    ensures
        r == calendar_stamp(text@, format@),
{
    match chrono::NaiveDateTime::parse_from_str(text, format) {
        Ok(t) => Some(t.and_utc().timestamp()),
        Err(_) => None,
    }
}

/// The marker that ends an identifier: `-backup` and the extension.
pub open spec fn marker(extension: Seq<char>) -> Seq<char> {
    "-backup"@ + extension
}

/// The part of `name` before its trailing marker, less the store prefix.
pub open spec fn stem_of(name: Seq<char>, rules: RetentionRules) -> Seq<char> {
    let base = name.subrange(0, name.len() - marker(rules.extension@).len());
    if starts_with_spec(base, rules.prefix@) {
        base.subrange(rules.prefix@.len() as int, base.len() as int)
    } else {
        base
    }
}

/// The ordering key of `name`, when it takes part in retention.
pub open spec fn ranked_of(name: Seq<char>, rules: RetentionRules) -> Option<Ranked> {
    if !ends_with_spec(name, marker(rules.extension@)) {
        None
    } else {
        match rules.order {
            StampOrder::Lexical => Some(Ranked { name, stem: stem_of(name, rules), stamp: 0 }),
            StampOrder::Calendar => match calendar_stamp(stem_of(name, rules), STAMP_FORMAT@) {
                Some(t) => Some(Ranked { name, stem: Seq::empty(), stamp: t as int }),
                None => None,
            },
        }
    }
}

pub open spec fn view_opt(o: Option<Candidate>) -> Option<Ranked> {
    match o {
        Some(c) => Some(c@),
        None => None,
    }
}

/// Whether `a` is newer than `b`: by stamp, then stem, then name.
pub open spec fn newer(a: Ranked, b: Ranked) -> bool {
    a.stamp > b.stamp || (a.stamp == b.stamp && (lex_lt(b.stem, a.stem) || (b.stem == a.stem
        && lex_lt(b.name, a.name))))
}

pub open spec fn views(v: Seq<String>) -> Seq<Seq<char>> {
    v.map_values(|s: String| s@)
}

pub open spec fn ranked_views(v: Seq<Candidate>) -> Seq<Ranked> {
    v.map_values(|c: Candidate| c@)
}

/// The identifiers among `names` that take part, in input order.
pub open spec fn ranked_all(names: Seq<Seq<char>>, rules: RetentionRules) -> Seq<Ranked>
    decreases names.len(),
{
    if names.len() == 0 {
        Seq::empty()
    } else {
        let prev = ranked_all(names.drop_last(), rules);
        match ranked_of(names.last(), rules) {
            Some(c) => prev.push(c),
            None => prev,
        }
    }
}

/// How many members of `cs` are newer than `c`.
pub open spec fn count_newer(cs: Seq<Ranked>, c: Ranked) -> nat
    decreases cs.len(),
{
    if cs.len() == 0 {
        0
    } else {
        count_newer(cs.drop_last(), c) + if newer(cs.last(), c) {
            1nat
        } else {
            0nat
        }
    }
}

/// Whether `c` falls outside the `keep` newest members of `all`.
pub open spec fn is_doomed(all: Seq<Ranked>, c: Ranked, keep: nat) -> bool {
    keep > 0 && count_newer(all, c) >= keep
}

/// The names of the members of `cs` that are doomed within `all`, in order.
pub open spec fn doomed_among(cs: Seq<Ranked>, all: Seq<Ranked>, keep: nat) -> Seq<Seq<char>>
    decreases cs.len(),
{
    if cs.len() == 0 {
        Seq::empty()
    } else {
        let prev = doomed_among(cs.drop_last(), all, keep);
        if is_doomed(all, cs.last(), keep) {
            prev.push(cs.last().name)
        } else {
            prev
        }
    }
}

/// The identifiers among `names` that a pass under `rules` removes.
pub open spec fn doomed_names(names: Seq<Seq<char>>, rules: RetentionRules) -> Seq<Seq<char>> {
    let all = ranked_all(names, rules);
    doomed_among(all, all, rules.keep as nat)
}

/// The ordering key of `name`, or `None` when it is no archive identifier
/// under `rules` (wrong marker, or a stem that is no timestamp).
pub fn candidate(name: &str, rules: &RetentionRules) -> (r: Option<Candidate>)
    ensures
        view_opt(r) == ranked_of(name@, *rules),
{
    let mark = concat("-backup", rules.extension.as_str());
    if !ends_with(name, mark.as_str()) {
        return None;
    }
    let n = name.unicode_len();
    let m = mark.as_str().unicode_len();
    let base = slice_chars(name, 0, n - m);
    let stem = if starts_with(base.as_str(), rules.prefix.as_str()) {
        slice_chars(base.as_str(), rules.prefix.as_str().unicode_len(), base.as_str().unicode_len())
    } else {
        base
    };
    assert(stem@ == stem_of(name@, *rules));
    match rules.order {
        StampOrder::Lexical => Some(Candidate { name: name.to_owned(), stem, stamp: 0 }),
        StampOrder::Calendar => match parse_stamp(stem.as_str(), STAMP_FORMAT) {
            Some(t) => Some(Candidate { name: name.to_owned(), stem: String::new(), stamp: t }),
            None => None,
        },
    }
}

/// Whether `a` is newer than `b` (see `newer`).
pub fn is_newer(a: &Candidate, b: &Candidate) -> (r: bool)
    ensures
        r == newer(a@, b@),
{
    if a.stamp != b.stamp {
        return a.stamp > b.stamp;
    }
    if lex_less(b.stem.as_str(), a.stem.as_str()) {
        return true;
    }
    if lex_less(a.stem.as_str(), b.stem.as_str()) {
        proof { lemma_lex_asym(a.stem@, b.stem@); }
        return false;
    }
    proof { lemma_lex_trichotomy(a.stem@, b.stem@); }
    lex_less(b.name.as_str(), a.name.as_str())
}

/// Lexical order is asymmetric.
proof fn lemma_lex_asym(a: Seq<char>, b: Seq<char>)
    requires
        lex_lt(a, b),
    ensures
        !lex_lt(b, a),
    decreases a.len(),
{
    if a.len() > 0 && b.len() > 0 && a[0] == b[0] {
        lemma_lex_asym(a.drop_first(), b.drop_first());
    }
}

/// Of two sequences neither of which precedes the other, both are equal.
proof fn lemma_lex_trichotomy(a: Seq<char>, b: Seq<char>)
    requires
        !lex_lt(a, b),
        !lex_lt(b, a),
    ensures
        a == b,
    decreases a.len(),
{
    if a.len() > 0 && b.len() > 0 {
        if a[0] == b[0] {
            lemma_lex_trichotomy(a.drop_first(), b.drop_first());
            assert(a =~= seq![a[0]] + a.drop_first());
            assert(b =~= seq![b[0]] + b.drop_first());
        } else {
            assert(a[0] != b[0]);
        }
    } else {
        assert(a =~= b);
    }
}

/// How many of `cs` are newer than `c`.
pub fn newer_count(cs: &Vec<Candidate>, c: &Candidate) -> (r: usize)
    ensures
        r == count_newer(ranked_views(cs@), c@),
{
    let mut k: usize = 0;
    let mut i: usize = 0;
    while i < cs.len()
        invariant
            i <= cs.len(),
            k <= i,
            k == count_newer(ranked_views(cs@.take(i as int)), c@),
        decreases cs.len() - i,
    {
        assert(ranked_views(cs@.take(i + 1)).drop_last() =~= ranked_views(cs@.take(i as int)));
        if is_newer(&cs[i], c) {
            k = k + 1;
        }
        i = i + 1;
    }
    assert(cs@.take(i as int) =~= cs@);
    k
}

/// The identifiers among `names` that take part under `rules`, in input order.
pub fn candidates(names: &Vec<String>, rules: &RetentionRules) -> (r: Vec<Candidate>)
    ensures
        ranked_views(r@) == ranked_all(views(names@), *rules),
{
    let mut out: Vec<Candidate> = Vec::new();
    let mut i: usize = 0;
    while i < names.len()
        invariant
            i <= names.len(),
            ranked_views(out@) == ranked_all(views(names@.take(i as int)), *rules),
        decreases names.len() - i,
    {
        assert(views(names@.take(i + 1)).drop_last() =~= views(names@.take(i as int)));
        assert(views(names@.take(i + 1)).last() == names@[i as int]@);
        match candidate(names[i].as_str(), rules) {
            Some(c) => {
                out.push(c);
                assert(ranked_views(out@) =~= ranked_all(views(names@.take(i as int)), *rules).push(
                    out@.last()@));
            },
            None => {},
        }
        i = i + 1;
    }
    assert(names@.take(i as int) =~= names@);
    out
}

/// Plans a retention pass over the identifiers `names`: which ones go, and
/// whether they are to be removed or only reported.
pub fn retention_plan(names: &Vec<String>, rules: &RetentionRules, dry_run: bool) -> (r:
    RetentionPlan)
    ensures
        (views(r.doomed@), r.execute) == plan_of(views(names@), *rules, dry_run),
        rules.keep == 0 ==> r.doomed@.len() == 0,
{
    let cs = candidates(names, rules);
    let ghost all = ranked_views(cs@);
    let mut doomed: Vec<String> = Vec::new();
    if rules.keep == 0 {
        proof { lemma_none_doomed(all, all, 0); }
        assert(views(doomed@) =~= Seq::<Seq<char>>::empty());
        assert(doomed@.len() == views(doomed@).len());
        return RetentionPlan { doomed, execute: !dry_run };
    }
    let mut i: usize = 0;
    while i < cs.len()
        invariant
            i <= cs.len(),
            all == ranked_views(cs@),
            rules.keep > 0,
            views(doomed@) == doomed_among(all.take(i as int), all, rules.keep as nat),
        decreases cs.len() - i,
    {
        assert(all.take(i + 1).drop_last() =~= all.take(i as int));
        assert(all.take(i + 1).last() == cs@[i as int]@);
        let k = newer_count(&cs, &cs[i]);
        if k >= rules.keep {
            doomed.push(cs[i].name.clone());
            assert(views(doomed@) =~= doomed_among(all.take(i as int), all, rules.keep as nat).push(
                cs@[i as int].name@));
        }
        i = i + 1;
    }
    assert(all.take(i as int) =~= all);
    RetentionPlan { doomed, execute: !dry_run }
}

/// What a pass removes, or a dry run reports, and whether removals happen.
pub open spec fn plan_of(names: Seq<Seq<char>>, rules: RetentionRules, dry_run: bool) -> (Seq<
    Seq<char>,
>, bool) {
    (doomed_names(names, rules), !dry_run)
}

/// A keep count of zero prunes nothing, however many identifiers there are.
pub proof fn lemma_zero_keep_prunes_nothing(names: Seq<Seq<char>>, rules: RetentionRules)
    requires
        rules.keep == 0,
    ensures
        doomed_names(names, rules).len() == 0,
{
    let all = ranked_all(names, rules);
    lemma_none_doomed(all, all, 0);
}

/// A dry run reports the very identifiers that a real pass removes, and
/// removes none of them.
pub proof fn lemma_dry_run_same_doomed(names: Seq<Seq<char>>, rules: RetentionRules)
    ensures
        plan_of(names, rules, true).0 == plan_of(names, rules, false).0,
        !plan_of(names, rules, true).1,
        plan_of(names, rules, false).1,
{
}

/// With a keep count of zero nothing is doomed.
proof fn lemma_none_doomed(cs: Seq<Ranked>, all: Seq<Ranked>, keep: nat)
    requires
        keep == 0,
    ensures
        doomed_among(cs, all, keep) == Seq::<Seq<char>>::empty(),
    decreases cs.len(),
{
    if cs.len() > 0 {
        lemma_none_doomed(cs.drop_last(), all, keep);
    }
}

/// How many of `outcomes` are `true`.
pub open spec fn count_true(outcomes: Seq<bool>) -> nat
    decreases outcomes.len(),
{
    if outcomes.len() == 0 {
        0
    } else {
        count_true(outcomes.drop_last()) + if outcomes.last() {
            1nat
        } else {
            0nat
        }
    }
}

/// Sums up a pass from the outcome of each removal attempt (true when it
/// succeeded). A failed removal is counted and never stops the others.
pub fn tally(outcomes: &Vec<bool>) -> (r: PruneReport)
    ensures
        r.deleted == count_true(outcomes@),
        r.failed == outcomes@.len() - count_true(outcomes@),
        r.deleted + r.failed == outcomes@.len(),
{
    let mut deleted: usize = 0;
    let mut failed: usize = 0;
    let mut i: usize = 0;
    while i < outcomes.len()
        invariant
            i <= outcomes.len(),
            deleted == count_true(outcomes@.take(i as int)),
            deleted + failed == i,
        decreases outcomes.len() - i,
    {
        assert(outcomes@.take(i + 1).drop_last() =~= outcomes@.take(i as int));
        if outcomes[i] {
            deleted = deleted + 1;
        } else {
            failed = failed + 1;
        }
        i = i + 1;
    }
    assert(outcomes@.take(i as int) =~= outcomes@);
    PruneReport { deleted, failed }
}

proof fn lemma_lex_irreflexive(a: Seq<char>)
    ensures
        !lex_lt(a, a),
    decreases a.len(),
{
    if a.len() > 0 {
        lemma_lex_irreflexive(a.drop_first());
    }
}

proof fn lemma_lex_trans(a: Seq<char>, b: Seq<char>, c: Seq<char>)
    requires
        lex_lt(a, b),
        lex_lt(b, c),
    ensures
        lex_lt(a, c),
    decreases a.len(),
{
    if a.len() > 0 && b.len() > 0 && c.len() > 0 && a[0] == b[0] && b[0] == c[0] {
        lemma_lex_trans(a.drop_first(), b.drop_first(), c.drop_first());
    }
}

proof fn lemma_newer_irreflexive(a: Ranked)
    ensures
        !newer(a, a),
{
    lemma_lex_irreflexive(a.stem);
    lemma_lex_irreflexive(a.name);
}

proof fn lemma_newer_trans(a: Ranked, b: Ranked, c: Ranked)
    requires
        newer(a, b),
        newer(b, c),
    ensures
        newer(a, c),
{
    if a.stamp == b.stamp && b.stamp == c.stamp {
        lemma_lex_irreflexive(a.stem);
        lemma_lex_irreflexive(b.stem);
        if lex_lt(c.stem, b.stem) && lex_lt(b.stem, a.stem) {
            lemma_lex_trans(c.stem, b.stem, a.stem);
        }
        if b.stem == a.stem && c.stem == b.stem {
            lemma_lex_trans(c.name, b.name, a.name);
        }
    }
}

proof fn lemma_newer_total(a: Ranked, b: Ranked)
    requires
        !newer(a, b),
        !newer(b, a),
    ensures
        a == b,
{
    lemma_lex_trichotomy(a.stem, b.stem);
    lemma_lex_trichotomy(a.name, b.name);
}

proof fn lemma_count_mono(all: Seq<Ranked>, c: Ranked, d: Ranked)
    requires
        forall|x: Ranked| newer(x, c) ==> newer(x, d),
    ensures
        count_newer(all, c) <= count_newer(all, d),
    decreases all.len(),
{
    if all.len() > 0 {
        lemma_count_mono(all.drop_last(), c, d);
    }
}

proof fn lemma_count_strict(all: Seq<Ranked>, c: Ranked, d: Ranked)
    requires
        forall|x: Ranked| newer(x, c) ==> newer(x, d),
        all.contains(c),
        newer(c, d),
    ensures
        count_newer(all, c) < count_newer(all, d),
    decreases all.len(),
{
    lemma_newer_irreflexive(c);
    if all.last() == c {
        lemma_count_mono(all.drop_last(), c, d);
    } else {
        let j = choose|j: int| 0 <= j < all.len() && all[j] == c;
        assert(all.drop_last()[j] == c);
        lemma_count_strict(all.drop_last(), c, d);
    }
}

/// Retention keeps the newest: every identifier that a pass keeps is newer
/// than every identifier that it removes.
pub proof fn lemma_kept_newer_than_doomed(names: Seq<Seq<char>>, rules: RetentionRules, kept: Ranked, gone: Ranked)
    requires
        ranked_all(names, rules).contains(kept),
        ranked_all(names, rules).contains(gone),
        !is_doomed(ranked_all(names, rules), kept, rules.keep as nat),
        is_doomed(ranked_all(names, rules), gone, rules.keep as nat),
    ensures
        newer(kept, gone),
{
    let all = ranked_all(names, rules);
    if !newer(kept, gone) {
        if newer(gone, kept) {
            assert forall|x: Ranked| newer(x, gone) implies newer(x, kept) by {
                lemma_newer_trans(x, gone, kept);
            }
            lemma_count_strict(all, gone, kept);
        } else {
            lemma_newer_total(kept, gone);
        }
    }
}

} // verus!
