//! The set of known runners, and choosing among those that claim a directory.
use vstd::prelude::*;

use crate::command::Lifecycle;
use crate::manifest::{command_for, RunnerManifest, VarRule};
use crate::probe::ProjectProbe;
use crate::runner::{detection_holds, DetectionMatch, ManifestRunner};
use crate::rule::detects;
use crate::text::{chars_of, lemma_lex_order, lex_less, str_equal, str_less, string_of, trim, trim_chars};

verus! {

broadcast use vstd::string::group_string_axioms;

/// A user manifest that failed to load, and why.
#[derive(Debug, Clone)]
pub struct ManifestProblem {
    /// File the problem is in.
    pub path: String,
    /// Runner id, if the file parsed far enough to have one.
    pub id: Option<String>,
    /// What is wrong, in words.
    pub reason: String,
}

/// The id of a runner.
pub open spec fn rid(r: ManifestRunner) -> Seq<char> {
    r.manifest.meta.id@
}

/// Whether no two runners share an id.
pub open spec fn ids_distinct(rs: Seq<ManifestRunner>) -> bool {
    forall|i: int, j: int| 0 <= i < j < rs.len() ==> rid(#[trigger] rs[i]) != rid(#[trigger] rs[j])
}

/// The position of the runner with id `id`, or -1.
pub open spec fn index_of_id(rs: Seq<ManifestRunner>, id: Seq<char>) -> int
    decreases rs.len(),
{
    if rs.len() == 0 {
        -1
    } else if rid(rs.last()) == id {
        rs.len() - 1
    } else {
        index_of_id(rs.drop_last(), id)
    }
}

pub proof fn lemma_index_of_id(rs: Seq<ManifestRunner>, id: Seq<char>)
    ensures
        -1 <= index_of_id(rs, id) < rs.len(),
        index_of_id(rs, id) >= 0 ==> rid(rs[index_of_id(rs, id)]) == id,
        index_of_id(rs, id) < 0 ==> forall|m: int| 0 <= m < rs.len() ==> rid(#[trigger] rs[m]) != id,
        forall|m: int| index_of_id(rs, id) < m < rs.len() ==> rid(#[trigger] rs[m]) != id,
    decreases rs.len(),
{
    if rs.len() > 0 && rid(rs.last()) != id {
        lemma_index_of_id(rs.drop_last(), id);
        assert forall|m: int| index_of_id(rs, id) < m < rs.len() implies rid(#[trigger] rs[m]) != id by {
            if m < rs.len() - 1 {
                assert(rs[m] == rs.drop_last()[m]);
            }
        }
    }
}

/// The runner list after adding `runner` to `rs`: it takes the place of the
/// runner with its id, or joins the end when there is none.
pub open spec fn inserted(rs: Seq<ManifestRunner>, runner: ManifestRunner) -> Seq<ManifestRunner> {
    let k = index_of_id(rs, rid(runner));
    if k >= 0 {
        rs.update(k, runner)
    } else {
        rs.push(runner)
    }
}

/// A runner just added is what its id finds; every other id finds what it
/// found before; ids stay distinct; and the list grows only by a new id.
pub proof fn an_added_runner_is_what_its_id_finds(rs: Seq<ManifestRunner>, runner: ManifestRunner, other: Seq<char>)
    requires
        ids_distinct(rs),
        other != rid(runner),
    ensures
        ids_distinct(inserted(rs, runner)),
        index_of_id(inserted(rs, runner), rid(runner)) >= 0,
        inserted(rs, runner)[index_of_id(inserted(rs, runner), rid(runner))] == runner,
        index_of_id(inserted(rs, runner), other) == index_of_id(rs, other),
        index_of_id(rs, other) >= 0 ==> inserted(rs, runner)[index_of_id(rs, other)] == rs[index_of_id(rs, other)],
        inserted(rs, runner).len() == rs.len() + (if index_of_id(rs, rid(runner)) >= 0 { 0int } else { 1int }),
{
    let after = inserted(rs, runner);
    let k = index_of_id(rs, rid(runner));
    lemma_index_of_id(rs, rid(runner));
    lemma_index_of_id(rs, other);
    lemma_index_of_id(after, rid(runner));
    lemma_index_of_id(after, other);
    assert forall|a: int, b: int| 0 <= a < b < after.len() implies rid(#[trigger] after[a]) != rid(#[trigger] after[b]) by {
        if k >= 0 {
            if a == k {
                assert(rid(rs[a]) == rid(runner));
            } else if b == k {
                assert(rid(rs[b]) == rid(runner));
            }
        } else if b == rs.len() {
            assert(rid(rs[a]) != rid(runner));
        }
    }
    let f = index_of_id(after, rid(runner));
    let pos = if k >= 0 { k } else { rs.len() as int };
    assert(rid(after[pos]) == rid(runner));
    assert(f == pos) by {
        if f != pos {
            assert(rid(after[f]) == rid(runner));
        }
    }
    let o = index_of_id(rs, other);
    let g = index_of_id(after, other);
    if o >= 0 {
        assert(o != pos);
        assert(after[o] == rs[o]);
        assert(g == o) by {
            if g != o {
                if g > o {
                    assert(rid(after[g]) == other);
                    if g < rs.len() {
                        assert(after[g] == rs[g] || g == pos);
                    }
                } else {
                    assert(rid(after[o]) == other);
                }
            }
        }
    } else {
        assert(g < 0) by {
            if g >= 0 {
                assert(rid(after[g]) == other);
                if g != pos {
                    assert(after[g] == rs[g]);
                }
            }
        }
    }
}

/// The runners, in registration order, and the problems met loading them.
pub struct RunnerRegistry {
    runners: Vec<ManifestRunner>,
    problems: Vec<ManifestProblem>,
}

impl RunnerRegistry {
    /// The registered runners, in order.
    pub closed spec fn runner_list(&self) -> Seq<ManifestRunner> {
        self.runners@
    }

    /// The problems recorded while loading.
    pub closed spec fn problem_list(&self) -> Seq<ManifestProblem> {
        self.problems@
    }

    /// No two runners share an id.
    #[verifier::type_invariant]
    spec fn ids_unique(self) -> bool {
        ids_distinct(self.runners@)
    }

    /// An empty registry.
    pub fn new() -> (r: RunnerRegistry)
        ensures
            r.runner_list() == Seq::<ManifestRunner>::empty(),
            r.problem_list() == Seq::<ManifestProblem>::empty(),
    {
        RunnerRegistry { runners: Vec::new(), problems: Vec::new() }
    }

    /// Adds a runner, replacing any existing runner with the same id in place:
    /// a user manifest overrides a bundled one rather than duplicating it.
    pub fn insert(&mut self, runner: ManifestRunner)
        ensures
            final(self).runner_list() == inserted(old(self).runner_list(), runner),
            final(self).problem_list() == old(self).problem_list(),
            ids_distinct(final(self).runner_list()),
            index_of_id(final(self).runner_list(), rid(runner)) >= 0,
            final(self).runner_list()[index_of_id(final(self).runner_list(), rid(runner))] == runner,
            forall|other: Seq<char>|
                other != rid(runner) ==> #[trigger] index_of_id(final(self).runner_list(), other) == index_of_id(
                    old(self).runner_list(),
                    other,
                ),
    {
        proof {
            use_type_invariant(&*self);
            lemma_index_of_id(self.runners@, rid(runner));
            assert forall|other: Seq<char>| other != rid(runner) implies #[trigger] index_of_id(
                inserted(self.runners@, runner),
                other,
            ) == index_of_id(self.runners@, other) by {
                an_added_runner_is_what_its_id_finds(self.runners@, runner, other);
            }
            let o = rid(runner).push('x');
            assert(o.len() == rid(runner).len() + 1);
            an_added_runner_is_what_its_id_finds(self.runners@, runner, o);
        }
        let ghost before = self.runners@;
        let ghost idx = index_of_id(before, rid(runner));
        let mut i: usize = self.runners.len();
        while i > 0 && !str_equal(self.runners[i - 1].manifest.meta.id.as_str(), runner.manifest.meta.id.as_str())
            invariant
                i <= self.runners.len(),
                self.runners@ == before,
                forall|m: int| i <= m < before.len() ==> rid(#[trigger] before[m]) != rid(runner),
            decreases i,
        {
            i -= 1;
        }
        if i > 0 {
            assert(idx == i - 1) by {
                if idx != i - 1 {
                    assert(rid(before[idx]) == rid(runner));
                }
            }
            let mut runners: Vec<ManifestRunner> = Vec::new();
            std::mem::swap(&mut runners, &mut self.runners);
            runners.set(i - 1, runner);
            assert(ids_distinct(runners@)) by {
                assert forall|a: int, b: int| 0 <= a < b < runners@.len() implies rid(#[trigger] runners@[a]) != rid(#[trigger] runners@[b]) by {
                    if a == i - 1 {
                        assert(rid(before[a]) == rid(runner));
                    } else if b == i - 1 {
                        assert(rid(before[b]) == rid(runner));
                    }
                }
            }
            self.runners = runners;
        } else {
            assert(idx < 0);
            let mut runners: Vec<ManifestRunner> = Vec::new();
            std::mem::swap(&mut runners, &mut self.runners);
            runners.push(runner);
            assert(ids_distinct(runners@)) by {
                assert forall|a: int, b: int| 0 <= a < b < runners@.len() implies rid(#[trigger] runners@[a]) != rid(#[trigger] runners@[b]) by {
                    if b == before.len() {
                        assert(rid(before[a]) != rid(runner));
                    }
                }
            }
            self.runners = runners;
        }
    }

    /// Records a manifest that could not be loaded.
    pub fn add_problem(&mut self, problem: ManifestProblem)
        ensures
            final(self).runner_list() == old(self).runner_list(),
            final(self).problem_list() == old(self).problem_list().push(problem),
    {
        proof {
            use_type_invariant(&*self);
        }
        let mut problems: Vec<ManifestProblem> = Vec::new();
        std::mem::swap(&mut problems, &mut self.problems);
        problems.push(problem);
        self.problems = problems;
    }

    /// Every registered runner, bundled first, in registration order.
    pub fn runners(&self) -> (r: &[ManifestRunner])
        ensures
            r@ == self.runner_list(),
            ids_distinct(r@),
    {
        proof {
            use_type_invariant(self);
        }
        self.runners.as_slice()
    }

    /// Manifests that failed to load.
    pub fn problems(&self) -> (r: &[ManifestProblem])
        ensures
            r@ == self.problem_list(),
    {
        self.problems.as_slice()
    }

    /// The runner with a given id.
    pub fn get(&self, id: &str) -> (r: Option<&ManifestRunner>)
        ensures
            match r {
                None => index_of_id(self.runner_list(), id@) < 0,
                Some(x) => index_of_id(self.runner_list(), id@) >= 0 && *x == self.runner_list()[index_of_id(self.runner_list(), id@)],
            },
    {
        proof {
            lemma_index_of_id(self.runners@, id@);
        }
        let mut i: usize = self.runners.len();
        while i > 0
            invariant
                i <= self.runners.len(),
                forall|m: int| i <= m < self.runners@.len() ==> rid(#[trigger] self.runners@[m]) != id@,
            decreases i,
        {
            if str_equal(self.runners[i - 1].manifest.meta.id.as_str(), id) {
                assert(index_of_id(self.runners@, id@) == i - 1) by {
                    lemma_index_of_id(self.runners@, id@);
                    let k = index_of_id(self.runners@, id@);
                    if k != i - 1 {
                        assert(rid(self.runners@[k]) == id@);
                    }
                }
                return Some(&self.runners[i - 1]);
            }
            i -= 1;
        }
        None
    }
}


/// Whether runner `a` ranks below runner `b`: lower priority, or equal
/// priority and an id earlier in string order.
pub open spec fn ranks_below(a: crate::manifest::RunnerMeta, b: crate::manifest::RunnerMeta) -> bool {
    a.priority < b.priority || (a.priority == b.priority && lex_less(a.id@, b.id@))
}

/// Ranking is a strict total order on runners with distinct ids.
pub proof fn lemma_rank_order(a: crate::manifest::RunnerMeta, b: crate::manifest::RunnerMeta, c: crate::manifest::RunnerMeta)
    ensures
        !ranks_below(a, a),
        ranks_below(a, b) ==> !ranks_below(b, a),
        ranks_below(a, b) && ranks_below(b, c) ==> ranks_below(a, c),
        a.id@ != b.id@ ==> ranks_below(a, b) || ranks_below(b, a),
{
    lemma_lex_order(a.id@, b.id@, c.id@);
    lemma_lex_order(b.id@, a.id@, c.id@);
}

/// Whether runner `i` of `rs` claims the project.
pub open spec fn claims<P: ProjectProbe>(rs: Seq<ManifestRunner>, p: &P, i: int) -> bool {
    detects(rs[i].manifest.detect@, p)
}

/// What detection over a registry gives: nothing when no runner claims the
/// project; otherwise the match of the claiming runner that ranks above every
/// other claiming runner.
pub open spec fn best_detection<P: ProjectProbe>(rs: Seq<ManifestRunner>, p: &P, r: Option<DetectionMatch>) -> bool {
    match r {
        None => forall|i: int| 0 <= i < rs.len() ==> !#[trigger] claims(rs, p, i),
        Some(m) => exists|i: int|
            0 <= i < rs.len() && #[trigger] claims(rs, p, i) && detection_holds(rs[i].manifest, p, Some(m))
                && forall|j: int|
                0 <= j < rs.len() && j != i && #[trigger] claims(rs, p, j) ==> ranks_below(
                    rs[j].manifest.meta,
                    rs[i].manifest.meta,
                ),
    }
}

/// What listing every detection gives: one match per claiming runner, best
/// first, each the match that runner produces.
pub open spec fn all_detections<P: ProjectProbe>(rs: Seq<ManifestRunner>, p: &P, r: Seq<DetectionMatch>) -> bool {
    exists|idx: Seq<int>| #[trigger] ranked_matches(rs, p, r, idx)
}

/// `r` lists, best first, the matches of the claiming runners at `idx`, and
/// `idx` holds every claiming runner.
pub open spec fn ranked_matches<P: ProjectProbe>(rs: Seq<ManifestRunner>, p: &P, r: Seq<DetectionMatch>, idx: Seq<int>) -> bool {
    &&& idx.len() == r.len()
    &&& forall|k: int| 0 <= k < idx.len() ==> 0 <= #[trigger] idx[k] < rs.len() && claims(rs, p, idx[k])
        && detection_holds(rs[idx[k]].manifest, p, Some(r[k]))
    &&& forall|a: int, b: int| 0 <= a < b < idx.len() ==> ranks_below(rs[#[trigger] idx[b]].manifest.meta, rs[#[trigger] idx[a]].manifest.meta)
    &&& forall|i: int| 0 <= i < rs.len() && #[trigger] claims(rs, p, i) ==> idx.contains(i)
}

/// Whether two matches say the same: the same runner description, the same
/// variables and the same version.
pub open spec fn same_match(a: DetectionMatch, b: DetectionMatch) -> bool {
    &&& crate::runner::same_meta(a.meta, b.meta)
    &&& a.vars@ == b.vars@
    &&& match (a.version, b.version) {
        (None, None) => true,
        (Some(x), Some(y)) => x@ == y@,
        _ => false,
    }
}

/// Detection gives the first of all detections: nothing exactly when no
/// runner claims the project, and otherwise the match listed first, which
/// outranks every other claiming runner (higher priority, ties to the id
/// that sorts last).
pub proof fn detect_is_the_first_of_detect_all<P: ProjectProbe>(
    rs: Seq<ManifestRunner>,
    p: &P,
    best: Option<DetectionMatch>,
    all: Seq<DetectionMatch>,
)
    requires
        ids_distinct(rs),
        best_detection(rs, p, best),
        all_detections(rs, p, all),
    ensures
        best is None <==> all.len() == 0,
        best matches Some(m) ==> same_match(m, all[0]),
        best matches Some(m) ==> forall|k: int| 0 < k < all.len() ==> #[trigger] ranks_below(all[k].meta, m.meta),
{
    let idx = choose|idx: Seq<int>| #[trigger] ranked_matches(rs, p, all, idx);
    assert(ranked_matches(rs, p, all, idx));
    match best {
        None => {
            if all.len() > 0 {
                assert(claims(rs, p, idx[0]));
            }
        },
        Some(m) => {
            let i = choose|i: int|
                0 <= i < rs.len() && #[trigger] claims(rs, p, i) && detection_holds(rs[i].manifest, p, Some(m))
                    && forall|j: int|
                    0 <= j < rs.len() && j != i && #[trigger] claims(rs, p, j) ==> ranks_below(
                        rs[j].manifest.meta,
                        rs[i].manifest.meta,
                    );
            assert(idx.contains(i));
            let b = choose|b: int| 0 <= b < idx.len() && idx[b] == i;
            assert(idx[b] == i);
            assert(all.len() > 0);
            if b != 0 {
                let j = idx[0];
                assert(claims(rs, p, j));
                assert(ranks_below(rs[idx[b]].manifest.meta, rs[idx[0]].manifest.meta));
                assert(j != i) by {
                    if j == i {
                        lemma_rank_order(rs[i].manifest.meta, rs[i].manifest.meta, rs[i].manifest.meta);
                    }
                }
                assert(ranks_below(rs[j].manifest.meta, rs[i].manifest.meta));
                lemma_rank_order(rs[j].manifest.meta, rs[i].manifest.meta, rs[j].manifest.meta);
                assert(false);
            }
            assert(detection_holds(rs[i].manifest, p, Some(all[0])));
            assert forall|k: int| 0 < k < all.len() implies #[trigger] ranks_below(all[k].meta, m.meta) by {
                assert(detection_holds(rs[idx[k]].manifest, p, Some(all[k])));
                assert(ranks_below(rs[idx[k]].manifest.meta, rs[idx[0]].manifest.meta));
            }
        },
    }
}

/// Whether the runner behind `cand` outranks the one behind `cur`.
fn outranks(cand: &DetectionMatch, cur: &DetectionMatch) -> (r: bool)
    ensures
        r == ranks_below(cur.meta, cand.meta),
{
    cand.priority() > cur.priority() || (cand.priority() == cur.priority() && str_less(cur.meta.id.as_str(), cand.meta.id.as_str()))
}

impl RunnerRegistry {
    /// The best runner for a project: among those whose detection rules all
    /// hold, the highest priority, ties broken by the id that sorts last, so
    /// the answer never depends on registration order.
    pub fn detect<P: ProjectProbe>(&self, probe: &P) -> (r: Option<DetectionMatch>)
        ensures
            best_detection(self.runner_list(), probe, r),
    {
        proof {
            use_type_invariant(self);
        }
        let ghost rs = self.runners@;
        let mut best: Option<DetectionMatch> = None;
        let ghost mut bi: int = -1;
        let mut i: usize = 0;
        while i < self.runners.len()
            invariant
                i <= self.runners.len(),
                rs == self.runners@,
                ids_distinct(rs),
                match best {
                    None => forall|j: int| 0 <= j < i ==> !#[trigger] claims(rs, probe, j),
                    Some(m) => 0 <= bi < i && claims(rs, probe, bi) && detection_holds(rs[bi].manifest, probe, Some(m))
                        && forall|j: int| 0 <= j < i && j != bi && #[trigger] claims(rs, probe, j) ==> ranks_below(rs[j].manifest.meta, rs[bi].manifest.meta),
                },
            decreases self.runners.len() - i,
        {
            let cand = self.runners[i].detect(probe);
            match cand {
                None => {
                    assert(!claims(rs, probe, i as int));
                },
                Some(c) => {
                    assert(claims(rs, probe, i as int));
                    let better = match &best {
                        None => true,
                        Some(cur) => outranks(&c, cur),
                    };
                    let ghost gbest = best;
                    proof {
                        match gbest {
                            None => {},
                            Some(cur) => {
                                assert(rid(rs[bi]) != rid(rs[i as int]));
                                lemma_rank_order(rs[bi].manifest.meta, rs[i as int].manifest.meta, rs[bi].manifest.meta);
                                if better {
                                    assert forall|j: int| 0 <= j < i + 1 && j != i && #[trigger] claims(rs, probe, j) implies ranks_below(rs[j].manifest.meta, rs[i as int].manifest.meta) by {
                                        if j != bi {
                                            lemma_rank_order(rs[j].manifest.meta, rs[bi].manifest.meta, rs[i as int].manifest.meta);
                                        }
                                    }
                                }
                            },
                        }
                    }
                    if better {
                        best = Some(c);
                        proof {
                            bi = i as int;
                        }
                    }
                },
            }
            i += 1;
        }
        proof {
            let gbest = best;
            if let Some(m) = gbest {
                assert(0 <= bi < rs.len() && claims(rs, probe, bi) && detection_holds(rs[bi].manifest, probe, Some(m)));
            }
        }
        best
    }

    /// Every runner that claims a project, best first.
    pub fn detect_all<P: ProjectProbe>(&self, probe: &P) -> (r: Vec<DetectionMatch>)
        ensures
            all_detections(self.runner_list(), probe, r@),
    {
        proof {
            use_type_invariant(self);
        }
        let ghost rs = self.runners@;
        let mut out: Vec<DetectionMatch> = Vec::new();
        let ghost mut idx: Seq<int> = Seq::empty();
        let mut i: usize = 0;
        while i < self.runners.len()
            invariant
                i <= self.runners.len(),
                rs == self.runners@,
                ids_distinct(rs),
                idx.len() == out@.len(),
                forall|k: int| 0 <= k < idx.len() ==> 0 <= #[trigger] idx[k] < i && claims(rs, probe, idx[k])
                    && detection_holds(rs[idx[k]].manifest, probe, Some(out@[k])),
                forall|a: int, b: int| 0 <= a < b < idx.len() ==> ranks_below(rs[#[trigger] idx[b]].manifest.meta, rs[#[trigger] idx[a]].manifest.meta),
                forall|j: int| 0 <= j < i && #[trigger] claims(rs, probe, j) ==> idx.contains(j),
            decreases self.runners.len() - i,
        {
            let cand = self.runners[i].detect(probe);
            match cand {
                None => {
                    assert(!claims(rs, probe, i as int));
                },
                Some(c) => {
                    let ghost ci = i as int;
                    assert(claims(rs, probe, ci));
                    let mut pos: usize = 0;
                    while pos < out.len() && !outranks(&c, &out[pos])
                        invariant
                            pos <= out@.len(),
                            idx.len() == out@.len(),
                            same_meta_of(c, rs[ci].manifest.meta),
                            forall|k: int| 0 <= k < idx.len() ==> same_meta_of(#[trigger] out@[k], rs[idx[k]].manifest.meta),
                            forall|k: int| 0 <= k < pos ==> !ranks_below(rs[#[trigger] idx[k]].manifest.meta, rs[ci].manifest.meta),
                        decreases out.len() - pos,
                    {
                        pos += 1;
                    }
                    let ghost old_idx = idx;
                    let ghost old_out = out@;
                    proof {
                        assert forall|k: int| 0 <= k < pos implies ranks_below(rs[ci].manifest.meta, rs[#[trigger] old_idx[k]].manifest.meta) by {
                            assert(rid(rs[old_idx[k]]) != rid(rs[ci])) by {
                                assert(old_idx[k] < ci);
                            }
                            lemma_rank_order(rs[old_idx[k]].manifest.meta, rs[ci].manifest.meta, rs[ci].manifest.meta);
                        }
                        if pos < old_idx.len() {
                            assert(ranks_below(rs[old_idx[pos as int]].manifest.meta, rs[ci].manifest.meta));
                            assert forall|k: int| pos <= k < old_idx.len() implies ranks_below(rs[#[trigger] old_idx[k]].manifest.meta, rs[ci].manifest.meta) by {
                                if k > pos {
                                    lemma_rank_order(rs[old_idx[k]].manifest.meta, rs[old_idx[pos as int]].manifest.meta, rs[ci].manifest.meta);
                                }
                            }
                        }
                        idx = old_idx.insert(pos as int, ci);
                    }
                    out.insert(pos, c);
                    proof {
                        assert forall|k: int| 0 <= k < idx.len() implies 0 <= #[trigger] idx[k] < i + 1 && claims(rs, probe, idx[k])
                            && detection_holds(rs[idx[k]].manifest, probe, Some(out@[k])) by {
                            if k < pos {
                                assert(idx[k] == old_idx[k] && out@[k] == old_out[k]);
                            } else if k > pos {
                                assert(idx[k] == old_idx[k - 1] && out@[k] == old_out[k - 1]);
                            }
                        }
                        assert forall|a: int, b: int| 0 <= a < b < idx.len() implies ranks_below(rs[#[trigger] idx[b]].manifest.meta, rs[#[trigger] idx[a]].manifest.meta) by {
                            if b < pos {
                                assert(idx[a] == old_idx[a] && idx[b] == old_idx[b]);
                            } else if b == pos {
                                assert(idx[a] == old_idx[a]);
                            } else if a < pos {
                                assert(idx[a] == old_idx[a] && idx[b] == old_idx[b - 1]);
                                lemma_rank_order(rs[old_idx[b - 1]].manifest.meta, rs[ci].manifest.meta, rs[old_idx[a]].manifest.meta);
                            } else if a == pos {
                                assert(idx[b] == old_idx[b - 1]);
                            } else {
                                assert(idx[a] == old_idx[a - 1] && idx[b] == old_idx[b - 1]);
                            }
                        }
                        assert forall|j: int| 0 <= j < i + 1 && #[trigger] claims(rs, probe, j) implies idx.contains(j) by {
                            if j == ci {
                                assert(idx[pos as int] == ci);
                            } else {
                                let k = choose|k: int| 0 <= k < old_idx.len() && old_idx[k] == j;
                                if k < pos {
                                    assert(idx[k] == j);
                                } else {
                                    assert(idx[k + 1] == j);
                                }
                            }
                        }
                    }
                },
            }
            i += 1;
        }
        proof {
            assert(ranked_matches(rs, probe, out@, idx));
        }
        out
    }
}

/// Whether a match carries the priority and id of a runner.
pub open spec fn same_meta_of(m: DetectionMatch, meta: crate::manifest::RunnerMeta) -> bool {
    m.meta.priority == meta.priority && m.meta.id@ == meta.id@
}


/// Whether `c` may appear in a runner id (it is used in file paths).
pub open spec fn id_char(c: char) -> bool {
    ('a' <= c && c <= 'z') || ('A' <= c && c <= 'Z') || ('0' <= c && c <= '9') || c == '-' || c == '_'
}

/// Why a manifest is unusable, checked in order, or `None` when it is sound.
pub open spec fn manifest_fault(m: RunnerManifest) -> Option<Seq<char>> {
    if trim(m.meta.id@).len() == 0 {
        Some("meta.id must not be empty"@)
    } else if !(forall|i: int| 0 <= i < m.meta.id@.len() ==> id_char(#[trigger] m.meta.id@[i])) {
        Some("meta.id `"@ + m.meta.id@ + "` must contain only letters, digits, hyphen and underscore (it is used in file paths)"@)
    } else if m.detect@.len() == 0 {
        Some("no detection rules -- a runner that matched every directory would make detection meaningless. Note that `detect = [...]` written after the `[meta]` table is parsed as `meta.detect`; use `[[detect]]` blocks instead"@)
    } else if command_for(m.commands@, Lifecycle::Run) is None {
        Some("no [commands.run] -- a runner must be able to start something"@)
    } else if exists|i: int| 0 <= i < m.vars@.len() && trim(#[trigger] m.vars@[i].name@).len() == 0 {
        Some("a [[vars]] entry has an empty name"@)
    } else {
        None
    }
}

/// Checks what the manifest format cannot: a usable id, at least one detection
/// rule, a run command, and named variables.
pub fn validate(manifest: &RunnerManifest) -> (r: Result<(), String>)
    ensures
        match manifest_fault(*manifest) {
            None => r is Ok,
            Some(msg) => r matches Err(e) && e@ == msg,
        },
{
    let id = chars_of(manifest.meta.id.as_str());
    if trim_chars(&id).len() == 0 {
        return Err("meta.id must not be empty".to_owned());
    }
    let mut i: usize = 0;
    while i < id.len()
        invariant
            i <= id.len(),
            id@ == manifest.meta.id@,
            trim(manifest.meta.id@).len() != 0,
            forall|k: int| 0 <= k < i ==> id_char(#[trigger] id@[k]),
        decreases id.len() - i,
    {
        let c = id[i];
        let ok = ('a' <= c && c <= 'z') || ('A' <= c && c <= 'Z') || ('0' <= c && c <= '9') || c == '-' || c == '_';
        if !ok {
            let mut msg = chars_of("meta.id `");
            let mut idv = chars_of(manifest.meta.id.as_str());
            msg.append(&mut idv);
            let mut tail = chars_of("` must contain only letters, digits, hyphen and underscore (it is used in file paths)");
            msg.append(&mut tail);
            assert(!id_char(manifest.meta.id@[i as int]));
            assert(msg@ =~= "meta.id `"@ + manifest.meta.id@ + "` must contain only letters, digits, hyphen and underscore (it is used in file paths)"@);
            return Err(string_of(&msg));
        }
        i += 1;
    }
    if manifest.detect.len() == 0 {
        return Err("no detection rules -- a runner that matched every directory would make detection meaningless. Note that `detect = [...]` written after the `[meta]` table is parsed as `meta.detect`; use `[[detect]]` blocks instead".to_owned());
    }
    if manifest.command(Lifecycle::Run).is_none() {
        return Err("no [commands.run] -- a runner must be able to start something".to_owned());
    }
    let mut k: usize = 0;
    while k < manifest.vars.len()
        invariant
            k <= manifest.vars.len(),
            manifest_fault(*manifest) == (if exists|i: int| 0 <= i < manifest.vars@.len() && trim(#[trigger] manifest.vars@[i].name@).len() == 0 {
                Some("a [[vars]] entry has an empty name"@)
            } else {
                None::<Seq<char>>
            }),
            forall|j: int| 0 <= j < k ==> trim(#[trigger] manifest.vars@[j].name@).len() != 0,
        decreases manifest.vars.len() - k,
    {
        if trim_chars(&chars_of(manifest.vars[k].name.as_str())).len() == 0 {
            return Err("a [[vars]] entry has an empty name".to_owned());
        }
        k += 1;
    }
    Ok(())
}

} // verus!
