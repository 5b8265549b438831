//! Global cancel: which panes lose their typing task and get the
//! done-stamp after the check-and-clear pass.
use crate::pane_map::{PaneMap, PaneSet};
use crate::state::books::{listed_before, retire_tag, same_job, stopped_next, Books, GlobalCancel, JobTag};
use crate::state::pending::{Intents, PromptView};
use vstd::prelude::*;

verus! {

/// Post-clear stop set: work actually removed this pass, plus panes
/// owned at the start that no longer hold any work. A successor that
/// survived the clear (still owned) stays out and keeps its typing and
/// stamp; a pane that never owned work never enters.
pub fn global_cancel_stop(removed: &PaneSet, early_owned: &PaneSet, still_owned: &PaneSet) -> (stop:
    PaneSet)
    ensures
        stop@ == removed@.union(early_owned@.difference(still_owned@)),
{
    let mut stop = PaneSet::new();
    stop.union_with(removed);
    let early = early_owned.to_vec();
    let mut i: usize = 0;
    while i < early.len()
        invariant
            i <= early@.len(),
            forall|j: int| 0 <= j < early@.len() ==> early_owned@.contains(#[trigger] early@[j]@),
            forall|k: Seq<char>|
                early_owned@.contains(k) ==> exists|j: int| 0 <= j < early@.len() && (#[trigger] early@[j])@ == k,
            forall|k: Seq<char>|
                #[trigger] stop@.contains(k) == (removed@.contains(k) || (!still_owned@.contains(k)
                    && exists|j: int| 0 <= j < i && (#[trigger] early@[j])@ == k)),
        decreases early@.len() - i,
    {
        if !still_owned.contains(early[i].as_str()) {
            stop.insert(early[i].as_str());
        }
        proof {
            assert forall|k: Seq<char>|
                #[trigger] stop@.contains(k) == (removed@.contains(k) || (!still_owned@.contains(k)
                    && exists|j: int| 0 <= j < i + 1 && (#[trigger] early@[j])@ == k)) by {
                if k == early@[i as int]@ {
                    assert(0 <= i < i + 1 && early@[i as int]@ == k);
                }
                if exists|j: int| 0 <= j < i + 1 && (#[trigger] early@[j])@ == k {
                    let j = choose|j: int| 0 <= j < i + 1 && (#[trigger] early@[j])@ == k;
                    if j < i {
                        assert(exists|j: int| 0 <= j < i && (#[trigger] early@[j])@ == k);
                    }
                }
            }
        }
        i = i + 1;
    }
    proof {
        assert forall|k: Seq<char>| early_owned@.contains(k) implies exists|j: int|
            0 <= j < i && (#[trigger] early@[j])@ == k by {
            let j = choose|j: int| 0 <= j < early@.len() && (#[trigger] early@[j])@ == k;
        }
    }
    assert(stop@ =~= removed@.union(early_owned@.difference(still_owned@)));
    stop
}

/// A global cancel spares its survivors: a pane whose work was not
/// removed and that still owns work keeps its typing and stamp, and a
/// pane that never owned work is never touched.
pub proof fn law_global_cancel_spares_survivors(
    removed: Set<Seq<char>>,
    early_owned: Set<Seq<char>>,
    still_owned: Set<Seq<char>>,
    pane: Seq<char>,
)
    ensures
        !removed.contains(pane) && still_owned.contains(pane) ==> !removed.union(
            early_owned.difference(still_owned),
        ).contains(pane),
        !removed.contains(pane) && !early_owned.contains(pane) ==> !removed.union(
            early_owned.difference(still_owned),
        ).contains(pane),
        removed.contains(pane) ==> removed.union(early_owned.difference(still_owned)).contains(
            pane,
        ),
{
}


/// What a global cancel saw when it began: every job with its
/// generation, and every intent (stamp included).
pub struct GlobalSnapshot {
    pub jobs: PaneMap<JobTag>,
    pub intents: Intents,
}

/// The job of `k` is still the one the snapshot saw (same job, same
/// generation).
pub open spec fn job_taken(cur: Map<Seq<char>, JobTag>, snap: Map<Seq<char>, JobTag>, k: Seq<char>) -> bool {
    cur.contains_key(k) && snap.contains_key(k) && same_job(cur[k], snap[k])
}

/// The intent of `k` is still exactly the one the snapshot saw.
pub open spec fn intent_taken(
    cur: Map<Seq<char>, PromptView>,
    snap: Map<Seq<char>, PromptView>,
    k: Seq<char>,
) -> bool {
    cur.contains_key(k) && snap.contains_key(k) && cur[k] == snap[k]
}

/// `k` still owns work after the clear: a job or an intent that the
/// snapshot did not cover.
pub open spec fn owns_after(
    cj: Map<Seq<char>, JobTag>,
    ci: Map<Seq<char>, PromptView>,
    sj: Map<Seq<char>, JobTag>,
    si: Map<Seq<char>, PromptView>,
    k: Seq<char>,
) -> bool {
    (cj.contains_key(k) && !job_taken(cj, sj, k)) || (ci.contains_key(k) && !intent_taken(ci, si, k))
}

/// The panes a global cancel stops (typing abort and done stamp): work
/// removed this pass, and panes owned at the snapshot that own nothing
/// afterwards.
pub open spec fn global_stop_spec(
    cj: Map<Seq<char>, JobTag>,
    ci: Map<Seq<char>, PromptView>,
    sj: Map<Seq<char>, JobTag>,
    si: Map<Seq<char>, PromptView>,
) -> Set<Seq<char>> {
    Set::new(
        |k: Seq<char>|
            job_taken(cj, sj, k) || intent_taken(ci, si, k) || ((sj.contains_key(k) || si.contains_key(k))
                && !owns_after(cj, ci, sj, si, k)),
    )
}

/// Stamp every pane of `panes` at `now`.
fn stamp_panes(m: &mut PaneMap<u64>, panes: &PaneSet, now: u64)
    ensures
        forall|k: Seq<char>| #[trigger] final(m)@.contains_key(k) == (old(m)@.contains_key(k) || panes@.contains(k)),
        forall|k: Seq<char>|
            #[trigger] final(m)@.contains_key(k) ==> final(m)@[k] == (if panes@.contains(k) {
                now
            } else {
                old(m)@[k]
            }),
{
    let v = panes.to_vec();
    let mut j: usize = 0;
    while j < v.len()
        invariant
            j <= v@.len(),
            forall|a: int| 0 <= a < v@.len() ==> panes@.contains(#[trigger] v@[a]@),
            forall|k: Seq<char>|
                #[trigger] m@.contains_key(k) == (old(m)@.contains_key(k) || listed_before(v@, j as int, k)),
            forall|k: Seq<char>|
                #[trigger] m@.contains_key(k) ==> m@[k] == (if listed_before(v@, j as int, k) {
                    now
                } else {
                    old(m)@[k]
                }),
        decreases v@.len() - j,
    {
        m.insert(v[j].as_str(), now);
        proof {
            assert forall|k: Seq<char>|
                #[trigger] listed_before(v@, j + 1, k) == (listed_before(v@, j as int, k) || k
                    == v@[j as int]@) by {
                if listed_before(v@, j + 1, k) {
                    let a = choose|a: int| 0 <= a < j + 1 && (#[trigger] v@[a])@ == k;
                    if a < j {
                        assert(v@[a]@ == k);
                    }
                }
                if k == v@[j as int]@ {
                    assert(v@[j as int]@ == k);
                }
                if listed_before(v@, j as int, k) {
                    let a = choose|a: int| 0 <= a < j && (#[trigger] v@[a])@ == k;
                    assert(v@[a]@ == k);
                }
            }
        }
        j = j + 1;
    }
    proof {
        assert forall|k: Seq<char>| #[trigger] listed_before(v@, j as int, k) == panes@.contains(k) by {
            if panes@.contains(k) {
                let a = choose|a: int| 0 <= a < v@.len() && (#[trigger] v@[a])@ == k;
            }
            if listed_before(v@, j as int, k) {
                let a = choose|a: int| 0 <= a < j && (#[trigger] v@[a])@ == k;
            }
        }
    }
}

impl Books {
    /// What a global cancel sees when it begins.
    pub fn global_snapshot(&self) -> (s: GlobalSnapshot)
        ensures
            s.jobs@ == self.jobs@,
            s.intents@ == self.intents@,
    {
        let ks = self.jobs.keys();
        let mut jobs: PaneMap<JobTag> = PaneMap::new();
        let mut i: usize = 0;
        while i < ks.len()
            invariant
                i <= ks@.len(),
                forall|j: int| 0 <= j < ks@.len() ==> self.jobs@.contains_key(#[trigger] ks@[j]@),
                forall|k: Seq<char>|
                    #[trigger] jobs@.contains_key(k) == exists|j: int| 0 <= j < i && (#[trigger] ks@[j])@ == k,
                forall|k: Seq<char>| #[trigger] jobs@.contains_key(k) ==> jobs@[k] == self.jobs@[k],
            decreases ks@.len() - i,
        {
            let ghost j0 = jobs@;
            match self.jobs.get(ks[i].as_str()) {
                Some(t) => {
                    jobs.insert(ks[i].as_str(), *t);
                },
                None => {},
            }
            proof {
                assert forall|k: Seq<char>|
                    #[trigger] jobs@.contains_key(k) == exists|j: int| 0 <= j < i + 1 && (#[trigger] ks@[j])@ == k by {
                    if exists|j: int| 0 <= j < i + 1 && (#[trigger] ks@[j])@ == k {
                        let j = choose|j: int| 0 <= j < i + 1 && (#[trigger] ks@[j])@ == k;
                        if j < i {
                            assert(j0.contains_key(k));
                        }
                    }
                    if j0.contains_key(k) {
                        let j = choose|j: int| 0 <= j < i && (#[trigger] ks@[j])@ == k;
                    }
                }
            }
            i = i + 1;
        }
        proof {
            assert forall|k: Seq<char>| self.jobs@.contains_key(k) implies jobs@.contains_key(k) by {
                let j = choose|j: int| 0 <= j < ks@.len() && (#[trigger] ks@[j])@ == k;
            }
            assert(jobs@ =~= self.jobs@);
        }
        GlobalSnapshot { jobs, intents: self.intents.snapshot() }
    }

    /// Global cancel against the snapshot `snap` taken when it began
    /// (work may have landed since): a job leaves only while it is still
    /// the snapshot's job at the same generation, an intent only while it
    /// still equals the snapshot's (stamp included), so an identical
    /// resubmit with a fresh stamp survives. Every waiter, settle arm and
    /// stall episode goes. The stop set (typing abort, done stamp at
    /// `now`) is the work removed this pass plus the snapshot's panes that
    /// own nothing afterwards; a surviving successor keeps both.
    pub fn cancel_all_jobs_from(&mut self, snap: &GlobalSnapshot, now: u64) -> (g: GlobalCancel)
        ensures
            forall|k: Seq<char>|
                #[trigger] final(self).jobs@.contains_key(k) == (old(self).jobs@.contains_key(k) && !job_taken(
                    old(self).jobs@,
                    snap.jobs@,
                    k,
                )),
            forall|k: Seq<char>| #[trigger] final(self).jobs@.contains_key(k) ==> final(self).jobs@[k] == old(self).jobs@[k],
            forall|k: Seq<char>|
                #[trigger] final(self).intents@.contains_key(k) == (old(self).intents@.contains_key(k)
                    && !intent_taken(old(self).intents@, snap.intents@, k)),
            forall|k: Seq<char>|
                #[trigger] final(self).intents@.contains_key(k) ==> final(self).intents@[k] == old(self).intents@[k],
            g.count == g.retired@.len(),
            forall|i: int|
                0 <= i < g.retired@.len() ==> job_taken(old(self).jobs@, snap.jobs@, (#[trigger] g.retired@[i]).0@)
                    && stopped_next(old(self).jobs@[g.retired@[i].0@]) == g.retired@[i].1,
            forall|k: Seq<char>|
                job_taken(old(self).jobs@, snap.jobs@, k) ==> exists|i: int|
                    0 <= i < g.retired@.len() && (#[trigger] g.retired@[i]).0@ == k,
            g.owned@ == global_stop_spec(old(self).jobs@, old(self).intents@, snap.jobs@, snap.intents@),
            final(self).debounce@ == Map::<Seq<char>, (String, u64)>::empty(),
            final(self).limit_alert@ == Map::<Seq<char>, (String, u64)>::empty(),
            final(self).limit_seen@ == Map::<Seq<char>, (String, u64)>::empty(),
            final(self).limit_miss@ == Map::<Seq<char>, u32>::empty(),
            final(self).limit_send_cool@ == Map::<Seq<char>, u64>::empty(),
            final(self).typewait@.len() == 0,
            final(self).keywait@.len() == 0,
            final(self).runwait@.len() == 0,
            forall|k: Seq<char>|
                #[trigger] final(self).last_done@.contains_key(k) == (old(self).last_done@.contains_key(k)
                    || g.owned@.contains(k)),
            forall|k: Seq<char>|
                #[trigger] final(self).last_done@.contains_key(k) ==> final(self).last_done@[k] == (if g.owned@.contains(k) {
                    now
                } else {
                    old(self).last_done@[k]
                }),
    {
        let ghost cj = old(self).jobs@;
        let ghost ci = old(self).intents@;
        let sk = snap.jobs.keys();
        let mut retired: Vec<(String, JobTag)> = Vec::new();
        let mut removed = PaneSet::new();
        let mut i: usize = 0;
        while i < sk.len()
            invariant
                i <= sk@.len(),
                cj == old(self).jobs@,
                self.intents@ == ci,
                self.last_done@ == old(self).last_done@,
                forall|j: int| 0 <= j < sk@.len() ==> snap.jobs@.contains_key(#[trigger] sk@[j]@),
                forall|a: int, b: int|
                    0 <= a < sk@.len() && 0 <= b < sk@.len() && a != b ==> (#[trigger] sk@[a])@ != (
                    #[trigger] sk@[b])@,
                forall|k: Seq<char>|
                    #[trigger] self.jobs@.contains_key(k) == (cj.contains_key(k) && !(job_taken(cj, snap.jobs@, k)
                        && listed_before(sk@, i as int, k))),
                forall|k: Seq<char>| #[trigger] self.jobs@.contains_key(k) ==> self.jobs@[k] == cj[k],
                forall|k: Seq<char>|
                    #[trigger] removed@.contains(k) == (job_taken(cj, snap.jobs@, k) && listed_before(sk@, i as int, k)),
                forall|r: int|
                    0 <= r < retired@.len() ==> job_taken(cj, snap.jobs@, (#[trigger] retired@[r]).0@)
                        && stopped_next(cj[retired@[r].0@]) == retired@[r].1 && listed_before(sk@, i as int, retired@[r].0@),
                forall|j: int|
                    0 <= j < i && job_taken(cj, snap.jobs@, #[trigger] sk@[j]@) ==> exists|r: int|
                        0 <= r < retired@.len() && (#[trigger] retired@[r]).0@ == sk@[j]@,
            decreases sk@.len() - i,
        {
            let k = &sk[i];
            let hit: Option<JobTag> = match (self.jobs.get(k.as_str()), snap.jobs.get(k.as_str())) {
                (Some(c), Some(t)) => if c.id == t.id && c.epoch == t.epoch {
                    Some(*c)
                } else {
                    None
                },
                _ => None,
            };
            let ghost jm0 = self.jobs@;
            let ghost rm0 = removed@;
            let ghost rt0 = retired@;
            proof {
                assert(!listed_before(sk@, i as int, k@)) by {
                    if listed_before(sk@, i as int, k@) {
                        let j = choose|j: int| 0 <= j < i && (#[trigger] sk@[j])@ == k@;
                        assert(sk@[j]@ != sk@[i as int]@);
                    }
                }
            }
            match hit {
                Some(t) => {
                    self.jobs.remove(k.as_str());
                    removed.insert(k.as_str());
                    retired.push((k.clone(), retire_tag(t)));
                },
                None => {},
            }
            proof {
                assert(hit is Some == job_taken(cj, snap.jobs@, k@));
                assert forall|k2: Seq<char>|
                    #[trigger] listed_before(sk@, i + 1, k2) == (listed_before(sk@, i as int, k2) || k2 == k@) by {
                    if listed_before(sk@, i + 1, k2) {
                        let j = choose|j: int| 0 <= j < i + 1 && (#[trigger] sk@[j])@ == k2;
                        if j < i {
                            assert(sk@[j]@ == k2);
                        }
                    }
                    if k2 == k@ {
                        assert(sk@[i as int]@ == k2);
                    }
                    if listed_before(sk@, i as int, k2) {
                        let j = choose|j: int| 0 <= j < i && (#[trigger] sk@[j])@ == k2;
                        assert(sk@[j]@ == k2);
                    }
                }
                assert forall|r: int|
                    0 <= r < retired@.len() implies job_taken(cj, snap.jobs@, (#[trigger] retired@[r]).0@)
                        && stopped_next(cj[retired@[r].0@]) == retired@[r].1 && listed_before(sk@, i + 1, retired@[r].0@) by {
                    if r < rt0.len() {
                        assert(retired@[r] == rt0[r]);
                        let j = choose|j: int| 0 <= j < i && (#[trigger] sk@[j])@ == rt0[r].0@;
                        assert(sk@[j]@ == retired@[r].0@);
                    } else {
                        assert(sk@[i as int]@ == retired@[r].0@);
                    }
                }
                assert forall|j: int|
                    0 <= j < i + 1 && job_taken(cj, snap.jobs@, #[trigger] sk@[j]@) implies exists|r: int|
                        0 <= r < retired@.len() && (#[trigger] retired@[r]).0@ == sk@[j]@ by {
                    if j < i {
                        let r = choose|r: int| 0 <= r < rt0.len() && (#[trigger] rt0[r]).0@ == sk@[j]@;
                        assert(retired@[r] == rt0[r]);
                    } else {
                        assert(retired@[rt0.len() as int].0@ == sk@[j]@);
                    }
                }
            }
            i = i + 1;
        }
        proof {
            assert forall|k: Seq<char>| snap.jobs@.contains_key(k) implies exists|j: int|
                0 <= j < sk@.len() && (#[trigger] sk@[j])@ == k by {
            }
        }
        let count = retired.len();
        let cleared = self.intents.clear_matching_snapshot(&snap.intents);
        removed.insert_all(&cleared);
        proof {
            assert forall|k: Seq<char>|
                #[trigger] removed@.contains(k) == (job_taken(cj, snap.jobs@, k) || intent_taken(ci, snap.intents@, k)) by {
                if intent_taken(ci, snap.intents@, k) {
                    let r = choose|r: int| 0 <= r < cleared@.len() && (#[trigger] cleared@[r])@ == k;
                }
                if exists|j: int| 0 <= j < cleared@.len() && (#[trigger] cleared@[j])@ == k {
                    let j = choose|j: int| 0 <= j < cleared@.len() && (#[trigger] cleared@[j])@ == k;
                }
                if job_taken(cj, snap.jobs@, k) {
                    let j = choose|j: int| 0 <= j < sk@.len() && (#[trigger] sk@[j])@ == k;
                }
            }
        }
        let mut early = PaneSet::new();
        early.insert_all(&sk);
        let sp = snap.intents.panes();
        early.insert_all(&sp);
        let ev = early.to_vec();
        let mut still = PaneSet::new();
        let mut e: usize = 0;
        while e < ev.len()
            invariant
                e <= ev@.len(),
                forall|a: int| 0 <= a < ev@.len() ==> early@.contains(#[trigger] ev@[a]@),
                forall|k: Seq<char>|
                    #[trigger] still@.contains(k) == (!removed@.contains(k) && (self.jobs@.contains_key(k)
                        || self.intents@.contains_key(k)) && exists|a: int| 0 <= a < e && (#[trigger] ev@[a])@ == k),
            decreases ev@.len() - e,
        {
            let k = &ev[e];
            let ghost s0 = still@;
            if !removed.contains(k.as_str()) && (self.jobs.contains_key(k.as_str()) || self.intents.contains(
                k.as_str(),
            )) {
                still.insert(k.as_str());
            }
            proof {
                assert forall|k2: Seq<char>|
                    #[trigger] still@.contains(k2) == (!removed@.contains(k2) && (self.jobs@.contains_key(k2)
                        || self.intents@.contains_key(k2)) && exists|a: int|
                        0 <= a < e + 1 && (#[trigger] ev@[a])@ == k2) by {
                    if exists|a: int| 0 <= a < e + 1 && (#[trigger] ev@[a])@ == k2 {
                        let a = choose|a: int| 0 <= a < e + 1 && (#[trigger] ev@[a])@ == k2;
                        if a < e {
                            assert(exists|a: int| 0 <= a < e && (#[trigger] ev@[a])@ == k2);
                        }
                    }
                    if s0.contains(k2) {
                        let a = choose|a: int| 0 <= a < e && (#[trigger] ev@[a])@ == k2;
                        assert(ev@[a]@ == k2);
                    }
                }
            }
            e = e + 1;
        }
        let stop = global_cancel_stop(&removed, &early, &still);
        proof {
            let gs = global_stop_spec(cj, ci, snap.jobs@, snap.intents@);
            assert forall|k: Seq<char>| #[trigger] early@.contains(k) == (snap.jobs@.contains_key(k)
                || snap.intents@.contains_key(k)) by {
                if snap.jobs@.contains_key(k) {
                    let j = choose|j: int| 0 <= j < sk@.len() && (#[trigger] sk@[j])@ == k;
                }
                if snap.intents@.contains_key(k) {
                    let j = choose|j: int| 0 <= j < sp@.len() && (#[trigger] sp@[j])@ == k;
                }
                if exists|j: int| 0 <= j < sk@.len() && (#[trigger] sk@[j])@ == k {
                    let j = choose|j: int| 0 <= j < sk@.len() && (#[trigger] sk@[j])@ == k;
                }
                if exists|j: int| 0 <= j < sp@.len() && (#[trigger] sp@[j])@ == k {
                    let j = choose|j: int| 0 <= j < sp@.len() && (#[trigger] sp@[j])@ == k;
                }
            }
            assert forall|k: Seq<char>| stop@.contains(k) == gs.contains(k) by {
                assert(self.jobs@.contains_key(k) == (cj.contains_key(k) && !job_taken(cj, snap.jobs@, k))) by {
                    if job_taken(cj, snap.jobs@, k) {
                        let j = choose|j: int| 0 <= j < sk@.len() && (#[trigger] sk@[j])@ == k;
                    }
                }
                if early@.contains(k) {
                    let a = choose|a: int| 0 <= a < ev@.len() && (#[trigger] ev@[a])@ == k;
                    assert(ev@[a]@ == k);
                }
            }
            assert(stop@ =~= gs);
        }
        self.typewait.clear();
        self.keywait.clear();
        self.runwait.clear();
        self.debounce.clear();
        self.clear_all_limit_episodes();
        stamp_panes(&mut self.last_done, &stop, now);
        proof {
            assert forall|k: Seq<char>| #[trigger] self.jobs@.contains_key(k) == (cj.contains_key(k)
                && !job_taken(cj, snap.jobs@, k)) by {
                if job_taken(cj, snap.jobs@, k) {
                    let j = choose|j: int| 0 <= j < sk@.len() && (#[trigger] sk@[j])@ == k;
                }
            }
            assert forall|k: Seq<char>|
                job_taken(cj, snap.jobs@, k) implies exists|r: int|
                    0 <= r < retired@.len() && (#[trigger] retired@[r]).0@ == k by {
                let j = choose|j: int| 0 <= j < sk@.len() && (#[trigger] sk@[j])@ == k;
                assert(job_taken(cj, snap.jobs@, sk@[j]@));
            }
        }
        GlobalCancel { count, retired, owned: stop }
    }
}


/// A snapshot taken with nothing landing before the clear covers every
/// pane: no job or intent survives, and the stop set is every pane that
/// owned work.
pub proof fn law_snapshot_of_now_clears_all(cj: Map<Seq<char>, JobTag>, ci: Map<Seq<char>, PromptView>)
    ensures
        forall|k: Seq<char>| cj.contains_key(k) ==> #[trigger] job_taken(cj, cj, k),
        forall|k: Seq<char>| ci.contains_key(k) ==> #[trigger] intent_taken(ci, ci, k),
        global_stop_spec(cj, ci, cj, ci) == cj.dom().union(ci.dom()),
{
    assert(global_stop_spec(cj, ci, cj, ci) =~= cj.dom().union(ci.dom()));
}

/// An intent that changed after the snapshot (an identical resubmit
/// with a fresh stamp included) survives the global cancel.
pub proof fn law_resubmit_survives_global_cancel(
    ci: Map<Seq<char>, PromptView>,
    si: Map<Seq<char>, PromptView>,
    pane: Seq<char>,
)
    requires
        ci.contains_key(pane),
        si.contains_key(pane) ==> ci[pane].started_unix != si[pane].started_unix,
    ensures
        !intent_taken(ci, si, pane),
{
}

} // verus!
