//! Done↔idle flap collapse and baseline anchoring.
use crate::clock::elapsed;
use crate::text::{is_blank, str_eq, str_is_blank};
use vstd::prelude::*;

verus! {

/// done↔idle bounces closer than this are flap (collapsed); slower ones
/// are legitimate sampled completions.
pub const FLAP_WINDOW_SECS: u64 = 15;

/// Collapse rapid done↔idle oscillation: only the done→idle and
/// idle→done pairs, and only when the previous change lies less than
/// [`FLAP_WINDOW_SECS`] before `now`.
pub fn collapse_flap(old: Option<&str>, new_status: &str, prev_change: Option<u64>, now: u64) -> (r:
    bool)
    ensures
        r == ((match old {
            Some(o) => (o@ == "done"@ && new_status@ == "idle"@) || (o@ == "idle"@
                && new_status@ == "done"@),
            None => false,
        }) && match prev_change {
            Some(t) => elapsed(t, now) < FLAP_WINDOW_SECS * 1000,
            None => false,
        }),
{
    let pair = match old {
        Some(o) => (str_eq(o, "done") && str_eq(new_status, "idle")) || (str_eq(o, "idle")
            && str_eq(new_status, "done")),
        None => false,
    };
    pair && match prev_change {
        Some(t) => {
            let e: u64 = if now >= t {
                now - t
            } else {
                0
            };
            e < FLAP_WINDOW_SECS * 1000
        },
        None => false,
    }
}

/// A screen may anchor the baseline only when some line holds a
/// non-whitespace character: an outage (empty read) or a cleared pane
/// (all-blank lines) must never wipe a good baseline.
pub fn should_anchor_baseline(screen: &[String]) -> (r: bool)
    ensures
        r == exists|i: int| 0 <= i < screen@.len() && !is_blank((#[trigger] screen@[i])@),
{
    let mut i: usize = 0;
    while i < screen.len()
        invariant
            i <= screen@.len(),
            forall|j: int| 0 <= j < i ==> is_blank((#[trigger] screen@[j])@),
        decreases screen@.len() - i,
    {
        if !str_is_blank(screen[i].as_str()) {
            return true;
        }
        i = i + 1;
    }
    false
}

} // verus!
