//! Status observation: each sampled or pushed status of a pane is
//! recorded, flap-collapsed, and then decides what (if anything) the
//! pane's topic or the owners hear about it.
use crate::clock::elapsed;
use crate::notifier::status_flap::{collapse_flap, FLAP_WINDOW_SECS};
use crate::state::books::{episode_dropped, episode_kept, waiters_kept, Books, PaneState};
use crate::text::str_eq;
use vstd::prelude::*;

verus! {

/// How long after a prompt's final card a settle with no fresh output is
/// redundant.
pub const POST_PROMPT_QUIET_SECS: u64 = 45;

/// The two settle statuses.
pub open spec fn settle_status(s: Seq<char>) -> bool {
    s == "idle"@ || s == "done"@
}

/// Statuses that need the owner's attention.
pub open spec fn attention(s: Seq<char>) -> bool {
    s == "blocked"@ || s == "done"@ || s == "idle"@
}

/// The record step of an observation: the previous status and whether
/// the change is a collapsed done↔idle flap.
pub struct Observed {
    pub old: Option<String>,
    pub collapsed: bool,
}

/// A status's characters.
pub open spec fn status_view(o: Option<String>) -> Option<Seq<char>> {
    match o {
        Some(s) => Some(s@),
        None => None,
    }
}

/// The previous status was `s`.
pub open spec fn was(o: Option<Seq<char>>, s: Seq<char>) -> bool {
    o == Some(s)
}

/// Record `new_status` for `pane` at `now` (status and change stamp
/// together). A fast done↔idle bounce is collapsed: it keeps the
/// previous change stamp (so a perpetual fast flap is quiet for at most
/// one window) and changes nothing else; otherwise leaving `blocked` retires the dialog signature and
/// leaving `working` ends the stall episode.
pub fn observe_record(ps: &mut PaneState, books: &mut Books, pane: &str, new_status: &str, now: u64) -> (o:
    Observed)
    ensures
        status_view(o.old) == (if old(ps).status@.contains_key(pane@) {
            Some(old(ps).status@[pane@]@)
        } else {
            None
        }),
        o.collapsed == (((was(status_view(o.old), "done"@) && new_status@ == "idle"@) || (was(
            status_view(o.old),
            "idle"@,
        ) && new_status@ == "done"@)) && old(ps).last_change@.contains_key(pane@) && elapsed(
            old(ps).last_change@[pane@],
            now,
        ) < FLAP_WINDOW_SECS * 1000),
        final(ps).status@.dom() == old(ps).status@.dom().insert(pane@),
        final(ps).status@[pane@]@ == new_status@,
        forall|k: Seq<char>| k != pane@ && #[trigger] old(ps).status@.contains_key(k) ==> final(ps).status@[k] == old(ps).status@[k],
        final(ps).last_change@ == (if o.collapsed {
            old(ps).last_change@
        } else {
            old(ps).last_change@.insert(pane@, now)
        }),
        final(ps).blocked_sig@ == (if !o.collapsed && was(status_view(o.old), "blocked"@)
            && new_status@ != "blocked"@ {
            old(ps).blocked_sig@.remove(pane@)
        } else {
            old(ps).blocked_sig@
        }),
        !o.collapsed && was(status_view(o.old), "working"@) && new_status@ != "working"@
            ==> episode_dropped(&*old(books), &*final(books), pane@),
        !(!o.collapsed && was(status_view(o.old), "working"@) && new_status@ != "working"@)
            ==> episode_kept(&*old(books), &*final(books)),
        final(books).jobs@ == old(books).jobs@,
        final(books).intents@ == old(books).intents@,
        final(books).debounce@ == old(books).debounce@,
        final(books).last_done@ == old(books).last_done@,
        waiters_kept(&*old(books), &*final(books)),
{
    let old_status = ps.status.insert(pane, new_status.to_owned());
    let prev_change = ps.last_change.insert(pane, now);
    let collapsed = match &old_status {
        Some(o) => collapse_flap(Some(o.as_str()), new_status, prev_change, now),
        None => collapse_flap(None, new_status, prev_change, now),
    };
    if collapsed {
        match prev_change {
            Some(t) => {
                ps.last_change.insert(pane, t);
            },
            None => {},
        }
        assert(ps.last_change@ =~= old(ps).last_change@);
    }
    if !collapsed {
        let leaving_blocked = match &old_status {
            Some(o) => str_eq(o.as_str(), "blocked") && !str_eq(new_status, "blocked"),
            None => false,
        };
        if leaving_blocked {
            ps.blocked_sig.remove(pane);
        }
        let leaving_working = match &old_status {
            Some(o) => str_eq(o.as_str(), "working") && !str_eq(new_status, "working"),
            None => false,
        };
        if leaving_working {
            books.clear_limit_episode(pane);
        }
    }
    Observed { old: old_status, collapsed }
}

/// What an observation does before reading the screen.
#[derive(Clone, Copy, Debug, PartialEq, Eq, Structural)]
pub enum Gate {
    /// Nothing more to do.
    Stop,
    /// Boot seed found the pane blocked: post its answer card now.
    SeedBlocked,
    /// Post or refresh the blocked dialog's card (content decides).
    RefreshBlocked,
    /// A settle transition: read the screen and decide with
    /// [`observe_settle`].
    ReadScreen,
}

/// What an observation does next, given the old and new status, whether
/// it is a boot seed, and whether a prompt owns the pane.
pub open spec fn gate_spec(old: Option<Seq<char>>, new_status: Seq<char>, silent: bool, job_owned: bool) -> Gate {
    if silent {
        if old is None && new_status == "blocked"@ {
            Gate::SeedBlocked
        } else {
            Gate::Stop
        }
    } else if new_status == "blocked"@ {
        if job_owned {
            Gate::Stop
        } else {
            Gate::RefreshBlocked
        }
    } else if old == Some(new_status) || !attention(new_status) {
        Gate::Stop
    } else {
        Gate::ReadScreen
    }
}

/// Both settle statuses are treated alike: a non-silent observation that
/// moves a pane to `idle` or to `done` from any other status always reads
/// the screen for its settle alert; an unchanged status never does, and a
/// silent (boot seed) observation never does either.
pub proof fn law_settle_transition_reads_screen(
    old: Option<Seq<char>>,
    new_status: Seq<char>,
    silent: bool,
    job_owned: bool,
)
    ensures
        !silent && (new_status == "idle"@ || new_status == "done"@) && old != Some(new_status)
            ==> gate_spec(old, new_status, silent, job_owned) == Gate::ReadScreen,
        old == Some(new_status) || silent ==> gate_spec(old, new_status, silent, job_owned)
            != Gate::ReadScreen,
{
    reveal_strlit("idle");
    reveal_strlit("done");
    reveal_strlit("blocked");
    assert("idle"@.len() != "blocked"@.len());
    assert("done"@.len() != "blocked"@.len());
    assert(attention("idle"@) && attention("done"@));
}

/// Gate of a non-collapsed observation. A silent (boot seed) observation
/// only posts a pane first seen blocked; a repeated status only refreshes
/// an unowned blocked dialog; a transition to blocked refreshes it
/// (unless a prompt owns the pane, whose watcher covers it); a transition
/// to idle or done reads the screen; anything else stops.
pub fn observe_gate(old: Option<&str>, new_status: &str, silent: bool, job_owned: bool) -> (g: Gate)
    ensures
        g == gate_spec(
            match old {
                Some(o) => Some(o@),
                None => None,
            },
            new_status@,
            silent,
            job_owned,
        ),
{
    let blocked = str_eq(new_status, "blocked");
    if silent {
        return if old.is_none() && blocked {
            Gate::SeedBlocked
        } else {
            Gate::Stop
        };
    }
    if blocked {
        return if job_owned {
            Gate::Stop
        } else {
            Gate::RefreshBlocked
        };
    }
    let same = match old {
        Some(o) => str_eq(o, new_status),
        None => false,
    };
    if same || !(str_eq(new_status, "done") || str_eq(new_status, "idle")) {
        Gate::Stop
    } else {
        Gate::ReadScreen
    }
}

/// What a settle transition does after the screen read.
#[derive(Clone, Copy, Debug, PartialEq, Eq, Structural)]
pub enum Settle {
    /// Say nothing.
    Quiet,
    /// Say nothing, but anchor the baseline on the screen just read.
    Anchor,
    /// DM mode: push the alert to the owners now.
    PushDm,
    /// Forum mode: arm the settle debounce at `now`.
    Arm,
}

/// Settle decision: re-entering an agent in a shelled pane only anchors;
/// a prompt-owned pane is its watcher's; a settle→settle bounce with no
/// fresh output shortly after a prompt's final card only anchors;
/// otherwise DM mode pushes and forum mode arms the debounce.
pub fn observe_settle(
    old: Option<&str>,
    new_status: &str,
    job_owned: bool,
    fresh_empty: bool,
    last_done: Option<u64>,
    forum: bool,
    now: u64,
) -> (s: Settle)
    ensures
        s == (if was(
            match old {
                Some(o) => Some(o@),
                None => None,
            },
            "shell"@,
        ) && settle_status(new_status@) {
            Settle::Anchor
        } else if job_owned {
            Settle::Quiet
        } else if !(old is None || was(
            match old {
                Some(o) => Some(o@),
                None => None,
            },
            "working"@,
        )) && fresh_empty && settle_status(new_status@) && (match last_done {
            Some(t) => elapsed(t, now) < POST_PROMPT_QUIET_SECS * 1000,
            None => false,
        }) {
            Settle::Anchor
        } else if !forum {
            Settle::PushDm
        } else {
            Settle::Arm
        }),
{
    let settle = str_eq(new_status, "idle") || str_eq(new_status, "done");
    let from_shell = match old {
        Some(o) => str_eq(o, "shell"),
        None => false,
    };
    if from_shell && settle {
        return Settle::Anchor;
    }
    if job_owned {
        return Settle::Quiet;
    }
    let fresh_work = match old {
        None => true,
        Some(o) => str_eq(o, "working"),
    };
    let recent = match last_done {
        Some(t) => {
            let e: u64 = if now >= t {
                now - t
            } else {
                0
            };
            e < POST_PROMPT_QUIET_SECS * 1000
        },
        None => false,
    };
    if !fresh_work && fresh_empty && settle && recent {
        return Settle::Anchor;
    }
    if !forum {
        Settle::PushDm
    } else {
        Settle::Arm
    }
}

} // verus!
