//! Dead-pane silent close: the topic close happens first (outside); the
//! retire then runs only for the corpse. A remint (new mapping) or a
//! submit that raced the close keeps its fresh work, and the corpse's
//! owed intent is restored with its original stamp for boot recovery.
use crate::state::books::{
    clear_pane, episode_dropped, guard_after_death, waiters_dropped, Books, ClearPane, PaneState,
    Retire,
};
use crate::state::guard::{BLOCKOP_STALE_SECS, MODELOP_STALE_SECS};
use crate::state::pending::{PendingPrompt, PromptView};
use crate::state::waiters::not_target;
use crate::text::lemma_filter_twice;
use vstd::prelude::*;

verus! {

/// Final generation gate: bail only when a NEW mapping appeared (a
/// remint during the close). `None` after our own successful close is
/// the expected state and still lets the retire run.
pub fn generation_bails(cur: Option<i64>, thread: Option<i64>) -> (r: bool)
    ensures
        r == (cur is Some && cur != thread),
{
    match cur {
        Some(c) => match thread {
            Some(t) => c != t,
            None => true,
        },
        None => false,
    }
}

/// The slot still holds exactly the owed intent snapshotted before the
/// close (stamp included), or is still vacant when none was owed.
pub open spec fn owed_held(intents: Map<Seq<char>, PromptView>, pane: Seq<char>, owed: Option<PromptView>) -> bool {
    match owed {
        Some(pp) => intents.contains_key(pane) && intents[pane] == pp,
        None => !intents.contains_key(pane),
    }
}

/// An optional intent by what it says.
pub open spec fn owed_view(owed: Option<&PendingPrompt>) -> Option<PromptView> {
    match owed {
        Some(pp) => Some(pp@),
        None => None,
    }
}

/// Race gate: a submit owns the slot now (the owed intent changed, or an
/// intent appeared where none was owed).
pub fn racer_owns_owed(b: &Books, pane: &str, owed: Option<&PendingPrompt>) -> (r: bool)
    ensures
        r == !owed_held(b.intents@, pane@, owed_view(owed)),
{
    match owed {
        Some(pp) => !b.intents.pending_matches_stamp(
            pane,
            pp.chat,
            pp.thread,
            pp.prompt.as_str(),
            pp.started_unix,
        ),
        None => b.intents.contains(pane),
    }
}

/// Any work (a job or an intent) owns the pane.
pub fn successor_owns_slot(b: &Books, pane: &str) -> (r: bool)
    ensures
        r == (b.jobs@.contains_key(pane@) || b.intents@.contains_key(pane@)),
{
    b.jobs.contains_key(pane) || b.intents.contains(pane)
}

/// Retire a confirmed-dead pane after its topic was closed. `thread` is
/// the mapping snapshotted before the close, `cur` the mapping now, and
/// `owed` the intent snapshotted before the close. Bails (`None`, nothing
/// touched) on a remint or a racing submit; otherwise quietly retires the
/// job, clears the pane's books, and keeps the owed intent in its slot
/// with its original stamp.
pub fn close_retire(
    b: &mut Books,
    ps: &mut PaneState,
    pane: &str,
    owed: Option<&PendingPrompt>,
    thread: Option<i64>,
    cur: Option<i64>,
    now: u64,
) -> (r: Option<(Retire, ClearPane)>)
    ensures
        (cur is Some && cur != thread) || !owed_held(old(b).intents@, pane@, owed_view(owed)) ==> r is None
            && final(b).jobs@ == old(b).jobs@ && final(b).intents@ == old(b).intents@
            && final(b).debounce@ == old(b).debounce@ && final(b).last_done@ == old(b).last_done@
            && final(ps).status@ == old(ps).status@ && final(ps).focus == old(ps).focus,
        !((cur is Some && cur != thread) || !owed_held(old(b).intents@, pane@, owed_view(owed))) ==> {
            &&& r matches Some((q, c)) && !q.notify && q.stop_typing && q.done == old(
                b,
            ).jobs@.contains_key(pane@) && q.job == (if old(b).jobs@.contains_key(pane@) {
                Some(crate::state::books::stopped_next(old(b).jobs@[pane@]))
            } else {
                None
            }) && c.stop_typing && c.focus_cleared == crate::state::books::focused_on(
                old(ps).focus,
                pane@,
            )
            &&& final(b).jobs@ == old(b).jobs@.remove(pane@)
            &&& final(b).intents@ == old(b).intents@
            &&& final(b).debounce@ == old(b).debounce@.remove(pane@)
            &&& final(b).last_done@ == old(b).last_done@.remove(pane@)
            &&& episode_dropped(&*old(b), &*final(b), pane@)
            &&& waiters_dropped(&*old(b), &*final(b), pane@)
            &&& final(ps).status@ == old(ps).status@.remove(pane@)
            &&& final(ps).seen@ == old(ps).seen@.remove(pane@)
            &&& final(ps).last_change@ == old(ps).last_change@.remove(pane@)
            &&& final(ps).blocked_sig@ == old(ps).blocked_sig@.remove(pane@)
            &&& final(ps).blocked_card@ == old(ps).blocked_card@.remove(pane@)
            &&& final(ps).history@ == old(ps).history@.remove(pane@)
            &&& final(ps).modelop@ == guard_after_death(old(ps).modelop@, pane@, now, MODELOP_STALE_SECS)
            &&& final(ps).blockop@ == guard_after_death(old(ps).blockop@, pane@, now, BLOCKOP_STALE_SECS)
            &&& final(ps).shell_gen@ == old(ps).shell_gen@.remove(pane@)
            &&& final(ps).focus == (if crate::state::books::focused_on(old(ps).focus, pane@) {
                None
            } else {
                old(ps).focus
            })
        },
{
    if generation_bails(cur, thread) || racer_owns_owed(b, pane, owed) {
        return None;
    }
    let q = b.cancel_jobs_for_quiet(pane);
    let c = clear_pane(b, ps, pane, now);
    proof {
        lemma_filter_twice(old(b).typewait@, not_target(pane@));
        lemma_filter_twice(old(b).keywait@, not_target(pane@));
        assert(b.limit_alert@ =~= old(b).limit_alert@.remove(pane@));
        assert(b.limit_seen@ =~= old(b).limit_seen@.remove(pane@));
        assert(b.limit_miss@ =~= old(b).limit_miss@.remove(pane@));
        assert(b.limit_send_cool@ =~= old(b).limit_send_cool@.remove(pane@));
        assert(b.debounce@ =~= old(b).debounce@.remove(pane@));
    }
    match owed {
        Some(pp) => {
            b.intents.remember_pending_cas_with_time(
                pane,
                (pp.chat, pp.thread, pp.prompt.as_str()),
                (pp.chat, pp.thread, pp.prompt.as_str()),
                Some(pp.started_unix),
                0,
            );
            proof {
                assert(b.intents@ =~= old(b).intents@);
            }
        },
        None => {
            proof {
                assert(b.intents@ =~= old(b).intents@);
            }
        },
    }
    Some((q, c))
}

} // verus!
