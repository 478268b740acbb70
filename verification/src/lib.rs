//! Merging of identical match arms.
//!
//! Given the arms of a match construct, read from an immutable syntax-tree
//! snapshot, and a cursor offset into the source text, the library detects
//! the maximal run of consecutive guard-free arms, starting at the arm under
//! the cursor, whose bodies are textually identical, and produces a single
//! text edit that rewrites the run into one arm whose pattern is the
//! alternation of the constituent patterns.  Offsets count the characters of
//! the source text.

pub mod arms;
pub mod laws;
pub mod merge;

pub use arms::ArmBody;
pub use arms::MatchArm;
pub use arms::Pat;
pub use merge::MergeEdit;
pub use merge::contains_placeholder;
pub use merge::merge_match_arms;
