//! The merge operation: anchor location, run collection, pattern merging
//! and cursor remapping, packaged as one text edit.

use vstd::prelude::*;

use crate::arms::ArmBody;
use crate::arms::MatchArm;
use crate::arms::Pat;
use crate::arms::arms_wf;

verus! {

/// The outcome of a merge: a highlight range for the anchor arm, a single
/// replacement of the run's source range by the merged arm's text, and the
/// remapped cursor offset.
pub struct MergeEdit {
    /// Highlight range: the anchor arm's original full range.
    pub target_start: usize,
    pub target_end: usize,
    /// The replaced range: from the anchor's start to the last run member's end.
    pub replace_start: usize,
    pub replace_end: usize,
    /// The merged arm's text.
    pub replacement: String,
    /// The cursor offset after the edit.
    pub cursor: usize,
}

/// Length of the maximal run with shared body text `body` that starts at
/// index `i`: how many consecutive arms from `i` on are guard-free with
/// that exact body text.
pub open spec fn run_len(arms: Seq<MatchArm>, i: int, body: Seq<char>) -> int
    decreases arms.len() - i,
{
    if i < 0 || i >= arms.len() || !arms[i].mergeable_with(body) {
        0
    } else {
        1 + run_len(arms, i + 1, body)
    }
}

/// Is `i` the index of the anchor arm: the first arm whose source range
/// contains the cursor?
pub open spec fn is_anchor(arms: Seq<MatchArm>, cursor: int, i: int) -> bool {
    &&& 0 <= i < arms.len()
    &&& arms[i].spec_contains(cursor)
    &&& forall|j: int| 0 <= j < i ==> !(#[trigger] arms[j]).spec_contains(cursor)
}

/// The merge applies with anchor `i` exactly when `i` is the anchor for the
/// cursor, the anchor is guard-free, it has a body, and at least one
/// further arm joins the run.
pub open spec fn applicable_at(arms: Seq<MatchArm>, cursor: int, i: int) -> bool {
    &&& is_anchor(arms, cursor, i)
    &&& !arms[i].has_guard
    &&& arms[i].body_text() matches Some(b) && run_len(arms, i, b) >= 2
}

/// The merge applies exactly when it applies at some anchor.
pub open spec fn applicable(arms: Seq<MatchArm>, cursor: int) -> bool {
    exists|i: int| applicable_at(arms, cursor, i)
}

/// The texts of all patterns of one arm, in source order.
pub open spec fn arm_pat_texts(a: MatchArm) -> Seq<Seq<char>> {
    a.pats@.map(|k: int, p: Pat| p.text())
}

/// The pattern texts of the arms `arms[i..i + n]`, flattened left to right.
pub open spec fn run_pat_texts(arms: Seq<MatchArm>, i: int, n: int) -> Seq<Seq<char>>
    decreases n,
{
    if n <= 0 {
        Seq::empty()
    } else {
        run_pat_texts(arms, i, n - 1) + arm_pat_texts(arms[i + n - 1])
    }
}

/// Does some arm among `arms[i..i + n]` contain a placeholder pattern?
pub open spec fn run_has_placeholder(arms: Seq<MatchArm>, i: int, n: int) -> bool {
    exists|k: int| i <= k < i + n && (#[trigger] arms[k]).has_placeholder()
}

/// The alternation separator placed between merged patterns.
pub open spec fn alt_sep() -> Seq<char> {
    seq![' ', '|', ' ']
}

/// The arrow separating the merged pattern from the body.
pub open spec fn arrow_sep() -> Seq<char> {
    seq![' ', '=', '>', ' ']
}

/// The placeholder token.
pub open spec fn wild_text() -> Seq<char> {
    seq!['_']
}

/// The given texts joined with the alternation separator.
pub open spec fn join_alt(ts: Seq<Seq<char>>) -> Seq<char>
    decreases ts.len(),
{
    if ts.len() == 0 {
        Seq::empty()
    } else if ts.len() == 1 {
        ts[0]
    } else {
        join_alt(ts.drop_last()) + alt_sep() + ts.last()
    }
}

/// The merged pattern text for the run `arms[i..i + n]`: the placeholder
/// token alone when any run member contains a placeholder pattern, since it
/// already subsumes every other pattern; otherwise every pattern text of
/// the run, in order, joined by the alternation separator.
pub open spec fn merged_pattern(arms: Seq<MatchArm>, i: int, n: int) -> Seq<char> {
    if run_has_placeholder(arms, i, n) {
        wild_text()
    } else {
        join_alt(run_pat_texts(arms, i, n))
    }
}

/// The whole replacement text: merged pattern, arrow, the anchor's body
/// copied verbatim.
pub open spec fn merged_arm_text(arms: Seq<MatchArm>, i: int, n: int, body: Seq<char>) -> Seq<
    char,
> {
    merged_pattern(arms, i, n) + arrow_sep() + body
}

/// Addition clamped at the top of `usize`.
pub open spec fn clamped_add_spec(a: int, b: int) -> int {
    if a + b > usize::MAX {
        usize::MAX as int
    } else {
        a + b
    }
}

/// Subtraction clamped at zero.
pub open spec fn clamped_sub_spec(a: int, b: int) -> int {
    if a < b {
        0
    } else {
        a - b
    }
}

/// Where the edit puts the cursor.  A cursor inside the anchor's body keeps
/// its distance from the end of the arm, so it lands at the equivalent spot
/// in the merged body; any other cursor stays at its absolute offset, which
/// is sound because the anchor's own pattern text opens the merged pattern
/// list and the replaced region starts exactly at the anchor's start.  The
/// arithmetic is clamped to the range of `usize`.
pub open spec fn new_cursor(a: MatchArm, cursor: int, merged_len: int) -> int {
    match a.body {
        Some(b) => if b.start <= cursor < b.end {
            clamped_sub_spec(clamped_add_spec(a.start as int, merged_len), a.end - cursor)
        } else {
            cursor
        },
        None => cursor,
    }
}

/// Does the edit `e` describe the merge with anchor `i`?  The highlight is
/// the anchor's full range; the replaced range spans the run; the
/// replacement is the merged arm's text; the cursor is remapped.
pub open spec fn edit_matches(arms: Seq<MatchArm>, cursor: int, i: int, e: MergeEdit) -> bool {
    arms[i].body matches Some(b) && {
        let n = run_len(arms, i, b.text@);
        &&& e.target_start == arms[i].start
        &&& e.target_end == arms[i].end
        &&& e.replace_start == arms[i].start
        &&& e.replace_end == arms[i + n - 1].end
        &&& e.replacement@ == merged_arm_text(arms, i, n, b.text@)
        &&& e.cursor == new_cursor(arms[i], cursor, e.replacement@.len() as int)
    }
}

/// What a run length means, spelled out: every member is guard-free with
/// the shared body text, and the arm just past the run, if there is one,
/// would not extend it.
pub proof fn lemma_run_len(arms: Seq<MatchArm>, i: int, body: Seq<char>)
    requires
        0 <= i <= arms.len(),
    ensures
        0 <= run_len(arms, i, body) <= arms.len() - i,
        forall|k: int|
            i <= k < i + run_len(arms, i, body) ==> (#[trigger] arms[k]).mergeable_with(body),
        i + run_len(arms, i, body) == arms.len() || !arms[i + run_len(arms, i, body)].mergeable_with(
            body,
        ),
    decreases arms.len() - i,
{
    if i < arms.len() && arms[i].mergeable_with(body) {
        lemma_run_len(arms, i + 1, body);
    }
}

/// A run length is pinned down by its bounds: `n` consecutive members and
/// a boundary that stops the scan.
pub proof fn lemma_run_len_from_bounds(arms: Seq<MatchArm>, i: int, n: int, body: Seq<char>)
    requires
        0 <= i,
        0 <= n,
        i + n <= arms.len(),
        forall|k: int| i <= k < i + n ==> (#[trigger] arms[k]).mergeable_with(body),
        i + n == arms.len() || !arms[i + n].mergeable_with(body),
    ensures
        run_len(arms, i, body) == n,
    decreases n,
{
    if n > 0 {
        lemma_run_len_from_bounds(arms, i + 1, n - 1, body);
    }
}

/// The cursor has at most one anchor: the first arm that contains it.
pub proof fn lemma_anchor_unique(arms: Seq<MatchArm>, cursor: int, i: int, j: int)
    requires
        is_anchor(arms, cursor, i),
        is_anchor(arms, cursor, j),
    ensures
        i == j,
{
}

/// Appending one text to a joined list appends a separator and the text.
proof fn lemma_join_alt_push(ts: Seq<Seq<char>>, t: Seq<char>)
    ensures
        ts.len() == 0 ==> join_alt(ts.push(t)) == t,
        ts.len() > 0 ==> join_alt(ts.push(t)) == join_alt(ts) + alt_sep() + t,
{
    let p = ts.push(t);
    assert(p.drop_last() =~= ts);
    assert(p.last() == t);
}

/// The operation's identifier, for the host's refactoring dispatch.
pub fn assist_id() -> (r: &'static str)
    ensures
        r@ == "merge_match_arms"@,
{
    "merge_match_arms"
}

/// The operation's human-readable label.
pub fn assist_label() -> (r: &'static str)
    ensures
        r@ == "Merge match arms"@,
{
    "Merge match arms"
}

/// Does some arm of the given one's pattern list match every value?
pub fn contains_placeholder(a: &MatchArm) -> (r: bool)
    ensures
        r == a.has_placeholder(),
{
    let mut k: usize = 0;
    while k < a.pats.len()
        invariant
            k <= a.pats@.len(),
            forall|j: int| 0 <= j < k ==> !((#[trigger] a.pats@[j]) is Placeholder),
        decreases a.pats@.len() - k,
    {
        match &a.pats[k] {
            Pat::Placeholder => {
                return true;
            },
            Pat::Other(_) => {},
        }
        k = k + 1;
    }
    false
}

/// Finds the anchor: the first arm whose source range contains the cursor.
fn find_anchor(arms: &Vec<MatchArm>, cursor: usize) -> (r: Option<usize>)
    ensures
        match r {
            Some(i) => is_anchor(arms@, cursor as int, i as int),
            None => forall|j: int|
                0 <= j < arms@.len() ==> !(#[trigger] arms@[j]).spec_contains(cursor as int),
        },
{
    let mut i: usize = 0;
    while i < arms.len()
        invariant
            i <= arms@.len(),
            forall|j: int| 0 <= j < i ==> !(#[trigger] arms@[j]).spec_contains(cursor as int),
        decreases arms@.len() - i,
    {
        if arms[i].start <= cursor && cursor <= arms[i].end {
            return Some(i);
        }
        i = i + 1;
    }
    None
}

/// May this arm extend a run whose shared body text is `body`?
fn extends_run(a: &MatchArm, body: &String) -> (r: bool)
    ensures
        r == a.mergeable_with(body@),
{
    if a.has_guard {
        return false;
    }
    match &a.body {
        Some(b) => b.text == *body,
        None => false,
    }
}

/// Does some arm among `arms[i..i + n]` contain a placeholder pattern?
fn run_contains_placeholder(arms: &Vec<MatchArm>, i: usize, n: usize) -> (r: bool)
    requires
        i + n <= arms@.len(),
    ensures
        r == run_has_placeholder(arms@, i as int, n as int),
{
    let stop: usize = arms.len();
    let mut k: usize = i;
    while k < i + n
        invariant
            i <= k <= i + n,
            i + n <= arms@.len(),
            stop == arms@.len(),
            forall|j: int| i <= j < k ==> !(#[trigger] arms@[j]).has_placeholder(),
        decreases i + n - k,
    {
        if contains_placeholder(&arms[k]) {
            return true;
        }
        k = k + 1;
    }
    false
}

/// Renders every pattern text of the run `arms[i..i + n]`, in order, joined
/// by the alternation separator.
fn render_joined(arms: &Vec<MatchArm>, i: usize, n: usize) -> (r: String)
    requires
        i + n <= arms@.len(),
    ensures
        r@ == join_alt(run_pat_texts(arms@, i as int, n as int)),
{
    let mut out: String = String::new();
    let mut first: bool = true;
    let ghost mut ts: Seq<Seq<char>> = Seq::empty();
    let stop: usize = arms.len();
    let mut k: usize = i;
    proof {
        assert(run_pat_texts(arms@, i as int, 0) =~= Seq::<Seq<char>>::empty());
    }
    while k < i + n
        invariant
            i <= k <= i + n,
            i + n <= arms@.len(),
            stop == arms@.len(),
            ts == run_pat_texts(arms@, i as int, k - i),
            out@ == join_alt(ts),
            first <==> ts.len() == 0,
        decreases i + n - k,
    {
        let a = &arms[k];
        let mut j: usize = 0;
        proof {
            assert(ts + arm_pat_texts(arms@[k as int]).take(0) =~= ts);
        }
        while j < a.pats.len()
            invariant
                0 <= j <= a.pats@.len(),
                i <= k < i + n,
                i + n <= arms@.len(),
                a == &arms@[k as int],
                out@ == join_alt(ts + arm_pat_texts(arms@[k as int]).take(j as int)),
                first <==> (ts + arm_pat_texts(arms@[k as int]).take(j as int)).len() == 0,
            decreases a.pats@.len() - j,
        {
            let ghost sofar = ts + arm_pat_texts(arms@[k as int]).take(j as int);
            if !first {
                out.append(" | ");
            }
            match &a.pats[j] {
                Pat::Placeholder => {
                    out.append("_");
                },
                Pat::Other(s) => {
                    out.append(s.as_str());
                },
            }
            proof {
                reveal_strlit(" | ");
                reveal_strlit("_");
                assert(" | "@ =~= alt_sep());
                assert("_"@ =~= wild_text());
                let t = arm_pat_texts(arms@[k as int])[j as int];
                assert(t == a.pats@[j as int].text());
                lemma_join_alt_push(sofar, t);
                assert(out@ == join_alt(sofar.push(t)));
                assert(sofar.push(t) =~= ts + arm_pat_texts(arms@[k as int]).take(j + 1));
            }
            first = false;
            j = j + 1;
        }
        proof {
            assert(arm_pat_texts(arms@[k as int]).take(a.pats@.len() as int) =~= arm_pat_texts(
                arms@[k as int],
            ));
            ts = ts + arm_pat_texts(arms@[k as int]);
            assert(ts =~= run_pat_texts(arms@, i as int, k + 1 - i));
        }
        k = k + 1;
    }
    out
}

/// Renders the merged pattern text for the run `arms[i..i + n]`.
fn render_merged_pattern(arms: &Vec<MatchArm>, i: usize, n: usize) -> (r: String)
    requires
        i + n <= arms@.len(),
    ensures
        r@ == merged_pattern(arms@, i as int, n as int),
{
    if run_contains_placeholder(arms, i, n) {
        let r = String::from_str("_");
        proof {
            reveal_strlit("_");
            assert(r@ =~= wild_text());
        }
        r
    } else {
        render_joined(arms, i, n)
    }
}

/// Addition clamped at the top of `usize`.
fn clamped_add(a: usize, b: usize) -> (r: usize)
    ensures
        r == clamped_add_spec(a as int, b as int),
{
    if a <= usize::MAX - b {
        a + b
    } else {
        usize::MAX
    }
}

/// Subtraction clamped at zero.
fn clamped_sub(a: usize, b: usize) -> (r: usize)
    ensures
        r == clamped_sub_spec(a as int, b as int),
{
    if a >= b {
        a - b
    } else {
        0
    }
}

/// The merge operation: a pure function from one snapshot's sibling arms
/// and a cursor offset to at most one edit.
///
/// It returns an edit exactly when the cursor falls in some arm, the first
/// such arm carries no guard, it has a body, and at least one further
/// guard-free arm with character-for-character the same body text follows
/// it; every failure collapses to "not applicable" and no partial edit is
/// ever produced.  The edit replaces the maximal run of such arms, from the
/// anchor forward only, with a single merged arm.
#[verifier::loop_isolation(false)]
pub fn merge_match_arms(arms: &Vec<MatchArm>, cursor: usize) -> (r: Option<MergeEdit>)
    requires
        arms_wf(arms@),
    ensures
        r is Some <==> applicable(arms@, cursor as int),
        r matches Some(e) ==> exists|i: int|
            #[trigger] applicable_at(arms@, cursor as int, i) && edit_matches(
                arms@,
                cursor as int,
                i,
                e,
            ),
{
    let total: usize = arms.len();
    // Anchor location.
    let anchor: usize = match find_anchor(arms, cursor) {
        Some(i) => i,
        None => {
            proof {
                assert forall|j: int| !applicable_at(arms@, cursor as int, j) by {
                    if 0 <= j < arms@.len() {
                        assert(!arms@[j].spec_contains(cursor as int));
                    }
                }
            }
            return None;
        },
    };
    let a = &arms[anchor];
    proof {
        assert(arms@[anchor as int].wf());
    }
    // Guards are excluded even as the starting point.
    if a.has_guard {
        proof {
            assert forall|j: int| !applicable_at(arms@, cursor as int, j) by {
                if applicable_at(arms@, cursor as int, j) {
                    lemma_anchor_unique(arms@, cursor as int, anchor as int, j);
                }
            }
        }
        return None;
    }
    let body: &ArmBody = match &a.body {
        Some(b) => b,
        None => {
            proof {
                assert forall|j: int| !applicable_at(arms@, cursor as int, j) by {
                    if applicable_at(arms@, cursor as int, j) {
                        lemma_anchor_unique(arms@, cursor as int, anchor as int, j);
                    }
                }
            }
            return None;
        },
    };
    // Cursor classification: body-relative cursors keep their distance from
    // the end of the anchor's range.
    let in_body: bool = body.start <= cursor && cursor < body.end;
    let back: usize = if in_body {
        a.end - cursor
    } else {
        0
    };
    // Run collection: forward siblings only; an arm preceding the anchor is
    // never considered.
    proof {
        assert(arms@[anchor as int].mergeable_with(body.text@));
    }
    let mut n: usize = 1;
    while anchor + n < total && extends_run(&arms[anchor + n], &body.text)
        invariant
            1 <= n,
            anchor + n <= arms@.len(),
            forall|k: int|
                anchor < k < anchor + n ==> (#[trigger] arms@[k]).mergeable_with(body.text@),
        decreases arms@.len() - anchor - n,
    {
        n = n + 1;
    }
    proof {
        lemma_run_len_from_bounds(arms@, anchor as int, n as int, body.text@);
    }
    if n == 1 {
        proof {
            assert forall|j: int| !applicable_at(arms@, cursor as int, j) by {
                if applicable_at(arms@, cursor as int, j) {
                    lemma_anchor_unique(arms@, cursor as int, anchor as int, j);
                }
            }
        }
        return None;
    }
    // Pattern merging and the replacement text.
    let mut replacement: String = render_merged_pattern(arms, anchor, n);
    replacement.append(" => ");
    replacement.append(body.text.as_str());
    proof {
        reveal_strlit(" => ");
        assert(" => "@ =~= arrow_sep());
        assert(replacement@ == merged_arm_text(arms@, anchor as int, n as int, body.text@));
    }
    // Cursor remapping, clamped to the range of offsets.
    let merged_len: usize = replacement.as_str().unicode_len();
    let new_cur: usize = if in_body {
        clamped_sub(clamped_add(a.start, merged_len), back)
    } else {
        cursor
    };
    let last: usize = anchor + n - 1;
    let e = MergeEdit {
        target_start: a.start,
        target_end: a.end,
        replace_start: a.start,
        replace_end: arms[last].end,
        replacement,
        cursor: new_cur,
    };
    proof {
        assert(applicable_at(arms@, cursor as int, anchor as int));
        assert(edit_matches(arms@, cursor as int, anchor as int, e));
    }
    Some(e)
}

} // verus!
