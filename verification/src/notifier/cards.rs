//! Gates of a debounced settle check: after the grace period a settle
//! posts its fresh reply only while it is still current. Each gate says
//! whether the check goes on and what it does to the settle arms.
use crate::notifier::cards_retry::{arm_consumed, consume_reset_arm};
use crate::notifier::spontaneous::{
    arm_of, arm_stale, done_after, moved_from, part_blocked, Liveness,
};
use crate::state::books::{Books, PaneState};
use vstd::prelude::*;

verus! {

/// Entry gate (right after the grace period). During a reset the arm
/// armed at `armed_at` is consumed and nothing posts. Otherwise the check
/// goes on only while that arm is exactly current, no live watcher owns
/// the pane, the pane still shows the settle (idle and done count as one)
/// and no final was delivered after the arm; a refused check changes
/// nothing.
pub fn settle_entry(
    b: &mut Books,
    ps: &PaneState,
    pane: &str,
    settled: &str,
    armed_at: u64,
    resetting: bool,
) -> (go: bool)
    ensures
        resetting ==> !go && final(b).debounce@ == arm_consumed(old(b).debounce@, pane@, armed_at),
        !resetting ==> final(b).debounce@ == old(b).debounce@ && go == !(old(b).live(pane@)
            || arm_stale(arm_of(&*old(b), pane@), settled@, armed_at, false) || done_after(
            &*old(b),
            pane@,
            Some(armed_at),
        ) || moved_from(ps, pane@, settled@)),
        final(b).jobs@ == old(b).jobs@,
        final(b).last_done@ == old(b).last_done@,
        final(b).intents@ == old(b).intents@,
{
    if resetting {
        consume_reset_arm(&mut b.debounce, pane, armed_at);
        return false;
    }
    !part_blocked(b, ps, pane, settled, Some(armed_at), false)
}

/// Gate after the screen read, before any topic sync: a watcher or a
/// final that landed during the read owns the pane (nothing changes); a
/// reset begun meanwhile consumes the arm; a cleared or newer arm aborts
/// and stays for its owner.
pub fn settle_after_read(
    b: &mut Books,
    pane: &str,
    settled: &str,
    armed_at: u64,
    resetting: bool,
) -> (go: bool)
    ensures
        go == !(old(b).live(pane@) || done_after(&*old(b), pane@, Some(armed_at)) || resetting
            || arm_stale(arm_of(&*old(b), pane@), settled@, armed_at, false)),
        final(b).debounce@ == (if !old(b).live(pane@) && !done_after(
            &*old(b),
            pane@,
            Some(armed_at),
        ) && resetting {
            arm_consumed(old(b).debounce@, pane@, armed_at)
        } else {
            old(b).debounce@
        }),
        final(b).jobs@ == old(b).jobs@,
        final(b).last_done@ == old(b).last_done@,
        final(b).intents@ == old(b).intents@,
{
    if b.job_live(pane) {
        return false;
    }
    let after = match b.last_done.get(pane) {
        Some(t) => *t > armed_at,
        None => false,
    };
    if after {
        return false;
    }
    if resetting {
        consume_reset_arm(&mut b.debounce, pane, armed_at);
        return false;
    }
    match b.debounce.get(pane) {
        Some(a) => crate::text::str_eq(a.0.as_str(), settled) && a.1 == armed_at,
        None => false,
    }
}

/// Liveness gate before the topic sync: a dead pane consumes the arm (no
/// retry into a gone pane), an ambiguous read posts nothing and leaves
/// the arm for the next transition, a listed pane goes on.
pub fn settle_liveness(b: &mut Books, pane: &str, armed_at: u64, live: Liveness) -> (go: bool)
    ensures
        go == (live is Allow),
        final(b).debounce@ == (if live is Dead {
            arm_consumed(old(b).debounce@, pane@, armed_at)
        } else {
            old(b).debounce@
        }),
        final(b).jobs@ == old(b).jobs@,
        final(b).last_done@ == old(b).last_done@,
        final(b).intents@ == old(b).intents@,
{
    match live {
        Liveness::Dead => {
            consume_reset_arm(&mut b.debounce, pane, armed_at);
            false
        },
        Liveness::Ambiguous => false,
        Liveness::Allow => true,
    }
}


/// A settle's spontaneous post is tried at most this many times.
pub const SETTLE_SEND_TRIES: u64 = 3;

/// A body shorter than two characters is a stray (a picker echo, editor
/// residue): it never pages.
pub fn is_stray(body: &str) -> (r: bool)
    ensures
        r == (body@.len() < 2),
{
    body.unicode_len() < 2
}

/// After a failed post attempt (`tries_done` attempts so far): try again
/// only while attempts remain, no reset runs, and nothing took the pane
/// over meanwhile (a live watcher, a newer or cleared arm, a newer
/// final, moved-on work).
pub fn settle_send_again(
    b: &Books,
    ps: &PaneState,
    pane: &str,
    settled: &str,
    armed_at: u64,
    tries_done: u64,
    resetting: bool,
) -> (again: bool)
    ensures
        again == (tries_done < SETTLE_SEND_TRIES && !resetting && !(b.live(pane@) || arm_stale(
            arm_of(b, pane@),
            settled@,
            armed_at,
            false,
        ) || done_after(b, pane@, Some(armed_at)) || moved_from(ps, pane@, settled@))),
{
    tries_done < SETTLE_SEND_TRIES && !resetting && !part_blocked(b, ps, pane, settled, Some(armed_at), false)
}

} // verus!
