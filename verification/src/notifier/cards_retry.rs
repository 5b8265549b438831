//! Settle-debounce bookkeeping for spontaneous pushes: each pane's arm
//! is (settled status, instant armed), and only the exact arm a check
//! was started for may be consumed or acted on.
use crate::notifier::spontaneous::{arm_of, arm_stale, done_after, moved_from, part_blocked};
use crate::pane_map::PaneMap;
use crate::state::books::{Books, PaneState};
use vstd::prelude::*;

verus! {

/// A settle must hold this long before a spontaneous answer pushes.
pub const SETTLE_DEBOUNCE_SECS: u64 = 15;

/// The settle arms after consuming the arm of `pane` made at `armed_at`
/// (a newer arm stays).
pub open spec fn arm_consumed(db: Map<Seq<char>, (String, u64)>, pane: Seq<char>, armed_at: u64) -> Map<
    Seq<char>,
    (String, u64),
> {
    if db.contains_key(pane) && db[pane].1 == armed_at {
        db.remove(pane)
    } else {
        db
    }
}

/// Consume the reset arm of `pane` only when it is still the one armed
/// at `armed_at`: a newer arm, or none at all, is left as it is.
pub fn consume_reset_arm(db: &mut PaneMap<(String, u64)>, pane: &str, armed_at: u64)
    ensures
        final(db)@ == arm_consumed(old(db)@, pane@, armed_at),
{
    let exact = match db.get(pane) {
        Some(arm) => arm.1 == armed_at,
        None => false,
    };
    if exact {
        db.remove(pane);
    }
}

/// A stray settle (a single stray character, never worth a page) after
/// the reads: a newer or cleared arm owns the reply and nothing changes;
/// a job, a newer final or moved-on work that raced the reads consumes
/// the arm only; otherwise the arm is consumed and the baseline advances
/// to `screen` (so the same stray is not re-read every settle). Returns
/// whether the baseline advanced.
pub fn settle_stray(b: &mut Books, ps: &mut PaneState, pane: &str, settled: &str, armed_at: u64, screen: Vec<String>) -> (anchored:
    bool)
    ensures
        arm_stale(arm_of(&*old(b), pane@), settled@, armed_at, false) ==> !anchored && final(b).debounce@
            == old(b).debounce@ && final(ps).seen@ == old(ps).seen@,
        !arm_stale(arm_of(&*old(b), pane@), settled@, armed_at, false) ==> final(b).debounce@
            == arm_consumed(old(b).debounce@, pane@, armed_at) && anchored == !(old(b).live(pane@)
            || done_after(&*old(b), pane@, Some(armed_at)) || moved_from(&*old(ps), pane@, settled@))
            && final(ps).seen@ == (if anchored {
            old(ps).seen@.insert(pane@, screen)
        } else {
            old(ps).seen@
        }),
        final(b).jobs@ == old(b).jobs@,
        final(b).last_done@ == old(b).last_done@,
        final(ps).status@ == old(ps).status@,
{
    if part_blocked(b, ps, pane, settled, Some(armed_at), false) {
        let stale = match b.debounce.get(pane) {
            Some(a) => !crate::text::str_eq(a.0.as_str(), settled) || a.1 != armed_at,
            None => true,
        };
        if !stale {
            consume_reset_arm(&mut b.debounce, pane, armed_at);
        }
        return false;
    }
    consume_reset_arm(&mut b.debounce, pane, armed_at);
    ps.seen.insert(pane, screen);
    true
}

/// Pre-post re-check after the reads (exact-arm match throughout): a job
/// that took the pane, moved-on work or a newer final consume our arm
/// and abort; a newer or cleared arm aborts and stays for its owner.
/// Returns whether the post may go ahead.
pub fn pre_post(b: &mut Books, ps: &PaneState, pane: &str, settled: &str, armed_at: u64) -> (go: bool)
    ensures
        go == !(old(b).live(pane@) || arm_stale(arm_of(&*old(b), pane@), settled@, armed_at, false)
            || moved_from(ps, pane@, settled@) || done_after(&*old(b), pane@, Some(armed_at))),
        final(b).debounce@ == (if old(b).live(pane@) || (!arm_stale(
            arm_of(&*old(b), pane@),
            settled@,
            armed_at,
            false,
        ) && (moved_from(ps, pane@, settled@) || done_after(&*old(b), pane@, Some(armed_at)))) {
            arm_consumed(old(b).debounce@, pane@, armed_at)
        } else {
            old(b).debounce@
        }),
        final(b).jobs@ == old(b).jobs@,
        final(b).last_done@ == old(b).last_done@,
{
    if b.job_live(pane) {
        consume_reset_arm(&mut b.debounce, pane, armed_at);
        return false;
    }
    if part_blocked(b, ps, pane, settled, Some(armed_at), false) {
        let stale = match b.debounce.get(pane) {
            Some(a) => !crate::text::str_eq(a.0.as_str(), settled) || a.1 != armed_at,
            None => true,
        };
        if !stale {
            consume_reset_arm(&mut b.debounce, pane, armed_at);
        }
        return false;
    }
    true
}

/// Delivered: our arm is consumed and the baseline anchors on the screen
/// the body came from.
pub fn settle_delivered(b: &mut Books, ps: &mut PaneState, pane: &str, armed_at: u64, screen: Vec<String>)
    ensures
        final(b).debounce@ == arm_consumed(old(b).debounce@, pane@, armed_at),
        final(ps).seen@ == old(ps).seen@.insert(pane@, screen),
        final(b).jobs@ == old(b).jobs@,
        final(b).last_done@ == old(b).last_done@,
{
    consume_reset_arm(&mut b.debounce, pane, armed_at);
    ps.seen.insert(pane, screen);
}

} // verus!
