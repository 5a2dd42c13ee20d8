//! The setting that controls the pushdown.

use vstd::prelude::*;

verus! {

/// The setting `zdb.score_topn_pushdown`.
#[allow(non_camel_case_types)]
#[derive(Clone, Copy, Debug, PartialEq, Eq, Structural)]
pub enum ScoreTopNPushdown {
    /// Never push down.
    off,
    /// Push down only where the score is the one sort key.
    strict,
    /// Push down where the score is the first sort key; which rows come back
    /// of those that tie at the cut may then differ.
    primary,
}

impl Default for ScoreTopNPushdown {
    fn default() -> (mode: Self)
        ensures
            mode == ScoreTopNPushdown::strict,
    {
        ScoreTopNPushdown::strict
    }
}

} // verus!
