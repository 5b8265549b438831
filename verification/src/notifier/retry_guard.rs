//! Moved-on check for spontaneous pushes (idle↔done collapse, missing
//! status means moved on).
use crate::text::str_eq;
use vstd::prelude::*;

verus! {

/// `idle` and `done` are one settle for currency checks.
pub open spec fn is_settle(s: Seq<char>) -> bool {
    s == "idle"@ || s == "done"@
}

/// Whether a status is `idle` or `done`.
pub fn settle_word(s: &str) -> (r: bool)
    ensures
        r == is_settle(s@),
{
    str_eq(s, "idle") || str_eq(s, "done")
}

/// Moved-on check shared by every settle re-check: no status at all
/// counts as moved on (fail-closed, never buzz into the unknown); the
/// same status, or idle↔done, is still the settle.
pub fn moved_on(cur: Option<&str>, settled: &str) -> (r: bool)
    ensures
        r == match cur {
            None => true,
            Some(st) => st@ != settled@ && !(is_settle(settled@) && is_settle(st@)),
        },
{
    match cur {
        None => true,
        Some(st) => !str_eq(st, settled) && !(settle_word(settled) && settle_word(st)),
    }
}

} // verus!
