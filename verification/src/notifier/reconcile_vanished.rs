//! Vanished agent (agent → shell flip): the dead watcher retires and the
//! owed prompt gets the shell tail as its reply. The report slot is
//! claimed by stamping `shell`, so a concurrent tick stands down; a
//! submit that raced the flip keeps its intent and the pane's previous
//! status comes back; a failed notice restores the intent with its
//! original stamp for the next tick.
use crate::notifier::reconcile_close::{owed_held, owed_view};
use crate::state::books::{episode_dropped, episode_kept, waiters_dropped, waiters_kept, Books, PaneState, Retire};
use crate::state::pending::{PendingPrompt, PromptView};
use crate::text::{str_eq, trim_str, trimmed};
use vstd::prelude::*;
use vstd::string::*;

verus! {

/// The status table after undoing our `shell` claim: the previous status
/// returns (or the entry goes when there was none), but only while the
/// stamp is still ours (`shell`).
pub open spec fn status_restored(st: Map<Seq<char>, String>, pane: Seq<char>, prev: Option<String>) -> Map<
    Seq<char>,
    String,
> {
    if st.contains_key(pane) && st[pane]@ == "shell"@ {
        match prev {
            Some(p) => st.insert(pane, p),
            None => st.remove(pane),
        }
    } else {
        st
    }
}

/// Undo the report-slot claim when the pane turned over.
pub fn restore_status(ps: &mut PaneState, pane: &str, prev: Option<String>)
    ensures
        final(ps).status@ == status_restored(old(ps).status@, pane@, prev),
        final(ps).focus == old(ps).focus,
{
    let ours = match ps.status.get(pane) {
        Some(v) => str_eq(v.as_str(), "shell"),
        None => false,
    };
    if ours {
        match prev {
            Some(p) => {
                ps.status.insert(pane, p);
            },
            None => {
                ps.status.remove(pane);
            },
        }
    }
}

/// The claim step's outcome.
pub enum Vanish {
    /// A concurrent tick already claimed the report: nothing to do.
    StandDown,
    /// A submit raced the flip: only the dead watcher retired, the new
    /// intent and the previous status stay.
    JobOnly(Retire),
    /// Retired quietly with no owed prompt: the pane is a shell.
    Retired(Retire),
    /// Retired quietly; the owed prompt is owed the shell tail
    /// (`prev` is the status before the claim).
    Report(Retire, Option<String>),
}

/// Claim and retire a vanished agent. `owed` is the intent snapshotted
/// before the flip.
pub fn vanish_claim(b: &mut Books, ps: &mut PaneState, pane: &str, owed: Option<&PendingPrompt>) -> (v: Vanish)
    ensures
        final(ps).focus == old(ps).focus,
        final(b).last_done@ == old(b).last_done@,
        old(ps).status@.contains_key(pane@) && old(ps).status@[pane@]@ == "shell"@ ==> v is StandDown
            && final(b).jobs@ == old(b).jobs@ && final(b).intents@ == old(b).intents@
            && final(b).debounce@ == old(b).debounce@ && final(ps).status@ == old(ps).status@,
        !(old(ps).status@.contains_key(pane@) && old(ps).status@[pane@]@ == "shell"@) ==> {
            let prev = if old(ps).status@.contains_key(pane@) {
                Some(old(ps).status@[pane@])
            } else {
                None
            };
            if !owed_held(old(b).intents@, pane@, owed_view(owed)) {
                &&& v matches Vanish::JobOnly(q) && q.done == old(b).jobs@.contains_key(pane@) && q.job == (if old(b).jobs@.contains_key(pane@) {
                    Some(crate::state::books::stopped_next(old(b).jobs@[pane@]))
                } else {
                    None
                })
                &&& final(b).jobs@ == old(b).jobs@.remove(pane@)
                &&& final(b).intents@ == old(b).intents@
                &&& final(b).debounce@ == old(b).debounce@.remove(pane@)
                &&& episode_kept(&*old(b), &*final(b))
                &&& waiters_kept(&*old(b), &*final(b))
                &&& final(ps).status@ == old(ps).status@
            } else {
                &&& final(b).jobs@ == old(b).jobs@.remove(pane@)
                &&& final(b).intents@ == old(b).intents@.remove(pane@)
                &&& final(b).debounce@ == old(b).debounce@.remove(pane@)
                &&& episode_dropped(&*old(b), &*final(b), pane@)
                &&& waiters_dropped(&*old(b), &*final(b), pane@)
                &&& final(ps).status@.dom() == old(ps).status@.dom().insert(pane@)
                &&& final(ps).status@[pane@]@ == "shell"@
                &&& match owed {
                    None => v matches Vanish::Retired(q) && q.done == old(b).jobs@.contains_key(pane@) && q.job == (if old(b).jobs@.contains_key(pane@) {
                    Some(crate::state::books::stopped_next(old(b).jobs@[pane@]))
                } else {
                    None
                }),
                    Some(_) => v matches Vanish::Report(q, p) && p == prev && q.done == old(
                        b,
                    ).jobs@.contains_key(pane@) && q.job == (if old(b).jobs@.contains_key(pane@) {
                        Some(crate::state::books::stopped_next(old(b).jobs@[pane@]))
                    } else {
                        None
                    }),
                }
            }
        },
{
    let mine = match owed {
        Some(pp) => b.intents.pending_matches_stamp(
            pane,
            pp.chat,
            pp.thread,
            pp.prompt.as_str(),
            pp.started_unix,
        ),
        None => !b.intents.contains(pane),
    };
    proof {
        reveal_strlit("shell");
    }
    let claimed = match ps.status.get(pane) {
        Some(p) => str_eq(p.as_str(), "shell"),
        None => false,
    };
    if claimed {
        return Vanish::StandDown;
    }
    let prev = ps.status.insert(pane, String::from_str("shell"));
    if !mine {
        restore_status(ps, pane, prev);
        proof {
            assert(ps.status@ =~= old(ps).status@);
        }
        let q = b.cancel_job_only_for(pane);
        return Vanish::JobOnly(q);
    }
    let q = b.cancel_jobs_for_quiet(pane);
    match owed {
        None => Vanish::Retired(q),
        Some(_) => Vanish::Report(q, prev),
    }
}

/// Re-check after the tail read: a submit that took the slot meanwhile
/// (anything but the owed intent; vacant is still ours) owns the pane —
/// our `shell` claim is undone and no notice goes out.
pub fn vanish_recheck(b: &Books, ps: &mut PaneState, pane: &str, owed: &PendingPrompt, prev: Option<String>) -> (go:
    bool)
    ensures
        go == (!b.intents@.contains_key(pane@) || b.intents@[pane@] == owed@),
        go ==> final(ps).status@ == old(ps).status@,
        !go ==> final(ps).status@ == status_restored(old(ps).status@, pane@, prev),
        final(ps).focus == old(ps).focus,
{
    let raced = match b.intents.get(pane) {
        Some(cur) => !crate::state::pending::same_intent(cur, owed),
        None => false,
    };
    if raced {
        restore_status(ps, pane, prev);
        false
    } else {
        true
    }
}

/// The notice for an owed prompt whose agent quit to the shell.
pub open spec fn quit_notice_spec(tail: Seq<char>) -> Seq<char> {
    if trimmed(tail).len() == 0 {
        "agent quit to shell."@
    } else {
        "agent quit to shell — last output:\n"@ + trimmed(tail)
    }
}

/// Render the quit notice from the shell tail.
pub fn quit_notice(tail: &str) -> (t: String)
    ensures
        t@ == quit_notice_spec(tail@),
{
    let tr = trim_str(tail);
    let mut t = String::new();
    if tr.as_str().unicode_len() == 0 {
        t.append("agent quit to shell.");
    } else {
        t.append("agent quit to shell — last output:\n");
        t.append(tr.as_str());
    }
    t
}

/// The notice failed: restore the owed intent (check-and-set onto a
/// vacant or still-ours slot, original stamp) so the next tick retries,
/// and give the pane its previous status back only when the restore
/// went in (a raced submit keeps `shell`).
pub fn vanish_restore(b: &mut Books, ps: &mut PaneState, pane: &str, owed: &PendingPrompt, prev: Option<String>) -> (restored:
    bool)
    ensures
        restored == (!old(b).intents@.contains_key(pane@) || (old(b).intents@[pane@].chat == owed.chat
            && old(b).intents@[pane@].thread == owed.thread && old(b).intents@[pane@].prompt
            == owed.prompt@)),
        restored ==> final(b).intents@ == old(b).intents@.insert(
            pane@,
            PromptView {
                chat: owed.chat,
                thread: owed.thread,
                prompt: owed.prompt@,
                started_unix: if old(b).intents@.contains_key(pane@) {
                    old(b).intents@[pane@].started_unix
                } else {
                    owed.started_unix
                },
            },
        ) && final(ps).status@ == status_restored(old(ps).status@, pane@, prev),
        !restored ==> final(b).intents@ == old(b).intents@ && final(ps).status@ == old(ps).status@,
        final(b).jobs@ == old(b).jobs@,
        final(ps).focus == old(ps).focus,
{
    let restored = b.intents.remember_pending_cas_with_time(
        pane,
        (owed.chat, owed.thread, owed.prompt.as_str()),
        (owed.chat, owed.thread, owed.prompt.as_str()),
        Some(owed.started_unix),
        0,
    );
    if restored {
        restore_status(ps, pane, prev);
    }
    restored
}

} // verus!
