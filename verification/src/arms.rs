//! The data model: arms of a match construct, as read from a parsed
//! syntax-tree snapshot.
//!
//! Every entity carries plain values only: rendered source text and
//! character offsets into the source the tree was parsed from.  Nothing
//! here is mutated; one invocation of the merge reads one snapshot.

use vstd::prelude::*;

verus! {

/// One pattern of a match arm: either the placeholder (wildcard) pattern,
/// which matches every value, or any other pattern, carried as its rendered
/// source text.
pub enum Pat {
    Placeholder,
    Other(String),
}

impl Pat {
    /// The rendered source text of the pattern.
    pub open spec fn text(self) -> Seq<char> {
        match self {
            Pat::Placeholder => seq!['_'],
            Pat::Other(s) => s@,
        }
    }

    /// Capability query: does this pattern match every value?
    pub open spec fn is_placeholder(self) -> bool {
        self is Placeholder
    }
}

/// The body expression of an arm: its rendered source text and the
/// character range it occupies.
pub struct ArmBody {
    pub text: String,
    pub start: usize,
    pub end: usize,
}

/// One branch of a match construct.
pub struct MatchArm {
    /// The arm's patterns in source order; one or more, since an arm may
    /// already alternate several patterns.
    pub pats: Vec<Pat>,
    /// Whether a guard condition is attached to the arm.
    pub has_guard: bool,
    /// The body expression; absent for an arm that lacks one.
    pub body: Option<ArmBody>,
    /// Start of the arm's source range.
    pub start: usize,
    /// End of the arm's source range.
    pub end: usize,
}

impl MatchArm {
    /// Validity of one arm as read from a snapshot: the range is ordered,
    /// there is at least one pattern, and the body, when present, is a
    /// sub-range of the arm whose text has exactly the range's length.
    pub open spec fn wf(self) -> bool {
        &&& self.start <= self.end
        &&& self.pats@.len() >= 1
        &&& match self.body {
            Some(b) => {
                &&& self.start <= b.start
                &&& b.start <= b.end
                &&& b.end <= self.end
                &&& b.text@.len() == b.end - b.start
            },
            None => true,
        }
    }

    /// The rendered text of the arm's body, when it has one.
    pub open spec fn body_text(self) -> Option<Seq<char>> {
        match self.body {
            Some(b) => Some(b.text@),
            None => None,
        }
    }

    /// Does the arm's source range contain the cursor?  Both boundaries
    /// count as inside: a cursor at the very edge of an arm still sits on
    /// one of the arm's own tokens.
    pub open spec fn spec_contains(self, cursor: int) -> bool {
        self.start <= cursor <= self.end
    }

    /// Does some pattern of the arm match every value?
    pub open spec fn has_placeholder(self) -> bool {
        exists|k: int| 0 <= k < self.pats@.len() && (#[trigger] self.pats@[k]).is_placeholder()
    }

    /// May this arm extend a run whose shared body text is `body`?  It may
    /// exactly when it carries no guard and its body is, character for
    /// character, `body`.
    pub open spec fn mergeable_with(self, body: Seq<char>) -> bool {
        &&& !self.has_guard
        &&& self.body_text() == Some(body)
    }
}

/// Validity of a sibling chain of arms: each arm is valid and the source
/// ranges come in order, without overlap.
pub open spec fn arms_wf(arms: Seq<MatchArm>) -> bool {
    &&& forall|i: int| 0 <= i < arms.len() ==> (#[trigger] arms[i]).wf()
    &&& forall|i: int| 0 <= i < arms.len() - 1 ==> (#[trigger] arms[i]).end <= arms[i + 1].start
}

/// Source ranges of distinct arms are ordered even when the arms do not
/// stand next to each other.
pub proof fn lemma_arms_ordered(arms: Seq<MatchArm>, i: int, j: int)
    requires
        arms_wf(arms),
        0 <= i < j < arms.len(),
    ensures
        arms[i].end <= arms[j].start,
    decreases j - i,
{
    if i + 1 < j {
        lemma_arms_ordered(arms, i, j - 1);
        assert(arms[j - 1].wf());
    }
}

} // verus!
