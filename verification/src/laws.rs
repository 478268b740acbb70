//! Properties of the merge, stated and proved over the specification
//! functions that the operation's contract uses.
//!
//! Coverage — which values a pattern matches — is not decided here: the
//! lemmas hold for an arbitrary matching semantics `sem` of rendered
//! pattern text, with the placeholder pattern matching every value.

use vstd::prelude::*;

use crate::arms::MatchArm;
use crate::arms::Pat;
use crate::arms::arms_wf;
use crate::arms::lemma_arms_ordered;
use crate::merge::MergeEdit;
use crate::merge::applicable;
use crate::merge::applicable_at;
use crate::merge::arm_pat_texts;
use crate::merge::edit_matches;
use crate::merge::is_anchor;
use crate::merge::lemma_anchor_unique;
use crate::merge::lemma_run_len;
use crate::merge::merged_pattern;
use crate::merge::run_has_placeholder;
use crate::merge::run_len;
use crate::merge::run_pat_texts;
use crate::merge::wild_text;

verus! {

/// Does one pattern match the value `v`, under a matching semantics `sem`
/// for rendered pattern text?  The placeholder matches every value.
pub open spec fn pat_covers<V>(p: Pat, sem: spec_fn(Seq<char>, V) -> bool, v: V) -> bool {
    match p {
        Pat::Placeholder => true,
        Pat::Other(s) => sem(s@, v),
    }
}

/// Does some of the given pattern texts match `v` under `sem`?
pub open spec fn texts_cover<V>(ts: Seq<Seq<char>>, sem: spec_fn(Seq<char>, V) -> bool, v: V) -> bool {
    exists|k: int| 0 <= k < ts.len() && sem(#[trigger] ts[k], v)
}

/// Does some pattern of the arm match `v` under `sem`?
pub open spec fn arm_covers<V>(a: MatchArm, sem: spec_fn(Seq<char>, V) -> bool, v: V) -> bool {
    exists|k: int| 0 <= k < a.pats@.len() && pat_covers(#[trigger] a.pats@[k], sem, v)
}

/// Does some arm among `arms[i..i + n]` match `v` under `sem`?
pub open spec fn run_covers<V>(
    arms: Seq<MatchArm>,
    i: int,
    n: int,
    sem: spec_fn(Seq<char>, V) -> bool,
    v: V,
) -> bool {
    exists|k: int| i <= k < i + n && arm_covers(#[trigger] arms[k], sem, v)
}

/// Does the merged pattern for `arms[i..i + n]` match `v` under `sem`?
/// After placeholder collapse it matches every value; otherwise some
/// alternative of the merged pattern must match.
pub open spec fn merged_covers<V>(
    arms: Seq<MatchArm>,
    i: int,
    n: int,
    sem: spec_fn(Seq<char>, V) -> bool,
    v: V,
) -> bool {
    if run_has_placeholder(arms, i, n) {
        true
    } else {
        texts_cover(run_pat_texts(arms, i, n), sem, v)
    }
}

proof fn lemma_texts_cover_concat<V>(
    x: Seq<Seq<char>>,
    y: Seq<Seq<char>>,
    sem: spec_fn(Seq<char>, V) -> bool,
    v: V,
)
    ensures
        texts_cover(x + y, sem, v) <==> texts_cover(x, sem, v) || texts_cover(y, sem, v),
{
    if texts_cover(x, sem, v) {
        let k = choose|k: int| 0 <= k < x.len() && sem(x[k], v);
        assert((x + y)[k] == x[k]);
    }
    if texts_cover(y, sem, v) {
        let k = choose|k: int| 0 <= k < y.len() && sem(y[k], v);
        assert((x + y)[x.len() + k] == y[k]);
    }
    if texts_cover(x + y, sem, v) {
        let k = choose|k: int| 0 <= k < (x + y).len() && sem((x + y)[k], v);
        if k < x.len() {
            assert(x[k] == (x + y)[k]);
        } else {
            assert(y[k - x.len()] == (x + y)[k]);
        }
    }
}

proof fn lemma_arm_texts_cover<V>(a: MatchArm, sem: spec_fn(Seq<char>, V) -> bool, v: V)
    requires
        !a.has_placeholder(),
    ensures
        texts_cover(arm_pat_texts(a), sem, v) <==> arm_covers(a, sem, v),
{
    assert forall|k: int| 0 <= k < a.pats@.len() implies pat_covers(a.pats@[k], sem, v) == sem(
        arm_pat_texts(a)[k],
        v,
    ) by {
        assert(!(a.pats@[k] is Placeholder));
        assert(arm_pat_texts(a)[k] == a.pats@[k].text());
    }
    if texts_cover(arm_pat_texts(a), sem, v) {
        let k = choose|k: int|
            0 <= k < arm_pat_texts(a).len() && sem(arm_pat_texts(a)[k], v);
        assert(pat_covers(a.pats@[k], sem, v));
    }
    if arm_covers(a, sem, v) {
        let k = choose|k: int| 0 <= k < a.pats@.len() && pat_covers(a.pats@[k], sem, v);
        assert(sem(arm_pat_texts(a)[k], v));
    }
}

/// The merged pattern's coverage is the union of the run's: a value is
/// matched by the merged pattern exactly when some arm of the run matched
/// it — except after placeholder collapse, where the merged pattern
/// matches every value, so no coverage is ever lost.
pub proof fn lemma_merged_coverage_is_union<V>(
    arms: Seq<MatchArm>,
    i: int,
    n: int,
    sem: spec_fn(Seq<char>, V) -> bool,
    v: V,
)
    requires
        0 <= i,
        i + n <= arms.len(),
    ensures
        !run_has_placeholder(arms, i, n) ==> (merged_covers(arms, i, n, sem, v) <==> run_covers(
            arms,
            i,
            n,
            sem,
            v,
        )),
        run_has_placeholder(arms, i, n) ==> merged_covers(arms, i, n, sem, v),
        run_covers(arms, i, n, sem, v) ==> merged_covers(arms, i, n, sem, v),
    decreases n,
{
    if n <= 0 {
        assert(!texts_cover(run_pat_texts(arms, i, n), sem, v));
    } else if !run_has_placeholder(arms, i, n) {
        let a = arms[i + n - 1];
        assert(!a.has_placeholder()) by {
            assert(i <= i + n - 1 < i + n);
        }
        assert(!run_has_placeholder(arms, i, n - 1)) by {
            if run_has_placeholder(arms, i, n - 1) {
                let k = choose|k: int| i <= k < i + n - 1 && arms[k].has_placeholder();
                assert(i <= k < i + n);
            }
        }
        lemma_merged_coverage_is_union(arms, i, n - 1, sem, v);
        lemma_texts_cover_concat(run_pat_texts(arms, i, n - 1), arm_pat_texts(a), sem, v);
        lemma_arm_texts_cover(a, sem, v);
        assert(run_covers(arms, i, n, sem, v) <==> (run_covers(arms, i, n - 1, sem, v)
            || arm_covers(a, sem, v))) by {
            if run_covers(arms, i, n - 1, sem, v) {
                let k = choose|k: int| i <= k < i + n - 1 && arm_covers(arms[k], sem, v);
                assert(i <= k < i + n);
            }
            if arm_covers(a, sem, v) {
                assert(i <= i + n - 1 < i + n);
            }
            if run_covers(arms, i, n, sem, v) {
                let k = choose|k: int| i <= k < i + n && arm_covers(arms[k], sem, v);
                if k < i + n - 1 {
                    assert(arm_covers(arms[k], sem, v));
                }
            }
        }
    }
}

/// Placeholder collapse: one placeholder pattern anywhere in the run makes
/// the merged pattern the placeholder token alone, however many other
/// patterns the run held.
pub proof fn lemma_placeholder_collapse(arms: Seq<MatchArm>, i: int, n: int, k: int)
    requires
        i <= k < i + n,
        arms[k].has_placeholder(),
    ensures
        merged_pattern(arms, i, n) == wild_text(),
{
}

/// A guarded arm is never the anchor: with a guard on the arm under the
/// cursor, the operation is not applicable at all.
pub proof fn lemma_guarded_anchor_not_applicable(arms: Seq<MatchArm>, cursor: int, i: int)
    requires
        is_anchor(arms, cursor, i),
        arms[i].has_guard,
    ensures
        !applicable(arms, cursor),
{
    assert forall|j: int| !applicable_at(arms, cursor, j) by {
        if applicable_at(arms, cursor, j) {
            lemma_anchor_unique(arms, cursor, i, j);
        }
    }
}

/// A guarded arm ends run growth at once: no run starting at `i` reaches
/// it or anything past it.
pub proof fn lemma_guard_stops_run(arms: Seq<MatchArm>, i: int, k: int, body: Seq<char>)
    requires
        0 <= i <= k < arms.len(),
        arms[k].has_guard,
    ensures
        run_len(arms, i, body) <= k - i,
    decreases k - i,
{
    if i < k && arms[i].mergeable_with(body) {
        lemma_guard_stops_run(arms, i + 1, k, body);
    }
}

/// Every arm of the run has body text character-for-character equal to the
/// anchor's: body equality is literal text equality, never a looser one.
pub proof fn lemma_run_bodies_identical(arms: Seq<MatchArm>, i: int, body: Seq<char>)
    requires
        0 <= i <= arms.len(),
    ensures
        forall|k: int|
            i <= k < i + run_len(arms, i, body) ==> (#[trigger] arms[k]).body_text() == Some(body),
{
    lemma_run_len(arms, i, body);
}

/// Merging is forward only: every arm before the anchor ends at or before
/// the replaced region's start and is left untouched, even when its body
/// matches the anchor's.
pub proof fn lemma_no_backward_merge(arms: Seq<MatchArm>, cursor: int, i: int, e: MergeEdit)
    requires
        arms_wf(arms),
        applicable_at(arms, cursor, i),
        edit_matches(arms, cursor, i, e),
    ensures
        forall|j: int| 0 <= j < i ==> (#[trigger] arms[j]).end <= e.replace_start,
{
    assert forall|j: int| 0 <= j < i implies (#[trigger] arms[j]).end <= e.replace_start by {
        lemma_arms_ordered(arms, j, i);
    }
}

/// The replacement spans exactly the run's arms — `n` of them, `n >= 2` —
/// and replaces them by the one merged arm, so the edit drops the arm
/// count by `n - 1`; every arm past the run starts at or after the
/// replaced region's end.
pub proof fn lemma_edit_covers_run(arms: Seq<MatchArm>, cursor: int, i: int, e: MergeEdit)
    requires
        arms_wf(arms),
        applicable_at(arms, cursor, i),
        edit_matches(arms, cursor, i, e),
    ensures
        ({
            let n = run_len(arms, i, arms[i].body->0.text@);
            &&& n >= 2
            &&& i + n <= arms.len()
            &&& forall|k: int|
                i <= k < i + n ==> e.replace_start <= (#[trigger] arms[k]).start && arms[k].end
                    <= e.replace_end
            &&& forall|j: int| i + n <= j < arms.len() ==> e.replace_end <= (#[trigger] arms[j]).start
        }),
{
    let body = arms[i].body->0.text@;
    let n = run_len(arms, i, body);
    lemma_run_len(arms, i, body);
    assert forall|k: int|
        i <= k < i + n implies e.replace_start <= (#[trigger] arms[k]).start && arms[k].end
        <= e.replace_end by {
        if i < k {
            lemma_arms_ordered(arms, i, k);
        }
        if k < i + n - 1 {
            lemma_arms_ordered(arms, k, i + n - 1);
            assert(arms[i + n - 1].wf());
        }
        assert(arms[k].wf());
    }
    assert forall|j: int| i + n <= j < arms.len() implies e.replace_end <= (
    #[trigger] arms[j]).start by {
        if i + n - 1 < j {
            lemma_arms_ordered(arms, i + n - 1, j);
        }
    }
}

} // verus!
