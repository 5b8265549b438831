//! Dead-pane hygiene decisions: death confirmation and shell flips.
use crate::pane_map::PaneSet;
use crate::state::books::{episode_dropped, Books, PaneState};
use crate::text::str_eq;
use crate::notifier::reconcile::AgentProbe;
use vstd::prelude::*;
use vstd::string::*;

verus! {

/// Pane ids of a list, as character sequences.
pub open spec fn ids(v: Seq<String>) -> Seq<Seq<char>> {
    v.map_values(|s: String| s@)
}

/// Confirm suspected deaths against a fresh read: a suspect listed by
/// the fresh read survives; the retain set is the union of both reads
/// (a pane one read missed must not have its baselines pruned).
pub fn confirm_deaths(first: &PaneSet, fresh: &PaneSet, dying: Vec<String>) -> (r: (
    Vec<String>,
    PaneSet,
))
    ensures
        ids(r.0@) == ids(dying@).filter(|k: Seq<char>| !fresh@.contains(k)),
        r.1@ == first@.union(fresh@),
{
    let ghost keep = |k: Seq<char>| !fresh@.contains(k);
    let mut out: Vec<String> = Vec::new();
    let mut i: usize = 0;
    while i < dying.len()
        invariant
            i <= dying@.len(),
            keep == (|k: Seq<char>| !fresh@.contains(k)),
            ids(out@) == ids(dying@).take(i as int).filter(keep),
        decreases dying@.len() - i,
    {
        proof {
            let d = ids(dying@);
            assert(d.take(i + 1) =~= d.take(i as int).push(d[i as int]));
            d.take(i as int).lemma_filter_push(d[i as int], keep);
        }
        if !fresh.contains(dying[i].as_str()) {
            out.push(dying[i].clone());
            assert(ids(out@) =~= ids(out@).drop_last().push(dying@[i as int]@));
        }
        i = i + 1;
    }
    assert(ids(dying@).take(dying@.len() as int) =~= ids(dying@));
    let mut retain = PaneSet::new();
    retain.union_with(first);
    retain.union_with(fresh);
    assert(retain@ =~= first@.union(fresh@));
    (out, retain)
}

/// Leave-blocked cleanup choice.
#[derive(Debug, PartialEq, Eq, Structural, Clone, Copy)]
pub enum LeaveCleanup {
    /// Retire the dialog signature (a tap is in flight and owns the card).
    Sig,
    /// Resolve the dead card locations.
    Cards,
}

/// A quit while a tap holds the pane retires the content signature;
/// otherwise the dead cards resolve.
pub fn leave_cleanup(block_held: bool) -> (r: LeaveCleanup)
    ensures
        r == if block_held {
            LeaveCleanup::Sig
        } else {
            LeaveCleanup::Cards
        },
{
    if block_held {
        LeaveCleanup::Sig
    } else {
        LeaveCleanup::Cards
    }
}

/// DM flip action: a vanished agent with a live watcher or an owed
/// intent must fully retire; with neither it is a cheap mark-shell.
pub fn dm_flip_retires(owed: bool, job: bool) -> (r: bool)
    ensures
        r == (owed || job),
{
    owed || job
}

/// DM shell-flip guard for one candidate: flip only when herdr answers
/// that the agent is not found (a found agent or a blip keeps it) and
/// the pane is listed in a readable, non-empty pane list (a failed or
/// empty list never reads as a flip).
pub fn flip_confirmed(probe: AgentProbe, panes: Option<&PaneSet>, pane: &str) -> (r: bool)
    ensures
        r == (probe == AgentProbe::NotFound && match panes {
            Some(p) => p@.len() > 0 && p@.contains(pane@),
            None => false,
        }),
{
    if probe != AgentProbe::NotFound {
        return false;
    }
    match panes {
        Some(p) => p.len() > 0 && p.contains(pane),
        None => false,
    }
}

/// Panes to check for a DM shell flip: a recorded status that is not
/// `shell` and an agent no longer listed.
pub fn flip_candidates(ps: &PaneState, agents: &PaneSet) -> (missing: Vec<String>)
    ensures
        forall|i: int|
            0 <= i < missing@.len() ==> ps.status@.contains_key((#[trigger] missing@[i])@)
                && !agents@.contains(missing@[i]@) && ps.status@[missing@[i]@]@ != "shell"@,
        forall|k: Seq<char>|
            ps.status@.contains_key(k) && !agents@.contains(k) && ps.status@[k]@ != "shell"@ ==> exists|i: int|
                0 <= i < missing@.len() && (#[trigger] missing@[i])@ == k,
{
    let ks = ps.status.keys();
    let mut missing: Vec<String> = Vec::new();
    let mut i: usize = 0;
    while i < ks.len()
        invariant
            i <= ks@.len(),
            forall|j: int| 0 <= j < ks@.len() ==> ps.status@.contains_key(#[trigger] ks@[j]@),
            forall|j: int|
                0 <= j < missing@.len() ==> ps.status@.contains_key((#[trigger] missing@[j])@)
                    && !agents@.contains(missing@[j]@) && ps.status@[missing@[j]@]@ != "shell"@,
            forall|j: int|
                0 <= j < i && !agents@.contains(#[trigger] ks@[j]@) && ps.status@[ks@[j]@]@ != "shell"@
                    ==> exists|a: int| 0 <= a < missing@.len() && (#[trigger] missing@[a])@ == ks@[j]@,
        decreases ks@.len() - i,
    {
        let k = &ks[i];
        let shell = match ps.status.get(k.as_str()) {
            Some(v) => str_eq(v.as_str(), "shell"),
            None => true,
        };
        let ghost m0 = missing@;
        if !shell && !agents.contains(k.as_str()) {
            missing.push(k.clone());
        }
        proof {
            assert forall|j: int|
                0 <= j < i + 1 && !agents@.contains(#[trigger] ks@[j]@) && ps.status@[ks@[j]@]@ != "shell"@
                    implies exists|a: int| 0 <= a < missing@.len() && (#[trigger] missing@[a])@ == ks@[j]@ by {
                if j < i {
                    let a = choose|a: int| 0 <= a < m0.len() && (#[trigger] m0[a])@ == ks@[j]@;
                    assert(missing@[a] == m0[a]);
                } else {
                    assert(missing@[missing@.len() - 1]@ == ks@[j]@);
                }
            }
        }
        i = i + 1;
    }
    proof {
        assert forall|k: Seq<char>|
            ps.status@.contains_key(k) && !agents@.contains(k) && ps.status@[k]@ != "shell"@ implies exists|i: int|
                0 <= i < missing@.len() && (#[trigger] missing@[i])@ == k by {
            let j = choose|j: int| 0 <= j < ks@.len() && (#[trigger] ks@[j])@ == k;
        }
    }
    missing
}

/// Status-only DM shell flip (no watcher, no owed prompt): the pane reads
/// `shell` and its stall episode ends.
pub fn mark_shell(b: &mut Books, ps: &mut PaneState, pane: &str)
    ensures
        final(ps).status@.dom() == old(ps).status@.dom().insert(pane@),
        final(ps).status@[pane@]@ == "shell"@,
        forall|k: Seq<char>| k != pane@ && #[trigger] old(ps).status@.contains_key(k) ==> final(ps).status@[k] == old(ps).status@[k],
        episode_dropped(&*old(b), &*final(b), pane@),
        final(b).jobs@ == old(b).jobs@,
        final(b).intents@ == old(b).intents@,
{
    ps.status.insert(pane, String::from_str("shell"));
    proof {
        reveal_strlit("shell");
    }
    b.clear_limit_episode(pane);
}

} // verus!
