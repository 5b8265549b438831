//! The per-pane books that the retire paths work on: watcher jobs,
//! prompt intents, settle arms, done stamps, stall episodes and armed
//! waiters. Every retire is last-writer-wins: it removes only the entry
//! (job generation, intent) it saw at entry, so a submit that landed in
//! between keeps its work.
use crate::order::{insert_sorted, lemma_is_sorted_texts, sorted_texts, strictly_sorted, texts};
use crate::pane_map::{PaneMap, PaneSet};
use crate::clock::at_least;
use crate::state::guard::{claim_stale, BLOCKOP_STALE_SECS, MODELOP_STALE_SECS};
use crate::state::jobs::ShellGen;
use crate::state::pending::Intents;
use crate::state::history::{capped_push, history_spec, history_text, record_capped};
use crate::text::{str_eq, trim_str, trimmed};
use std::collections::VecDeque;
use crate::state::waiters::{not_target, Waiters};
use vstd::prelude::*;

verus! {

/// A watcher job as the books hold it: `id` tells jobs apart, `epoch` is
/// its generation (bumped in place when the same job is reused), and
/// `stopped` marks a corpse that is about to leave the books.
#[derive(Clone, Copy, Debug, PartialEq, Eq, Structural)]
pub struct JobTag {
    pub id: u64,
    pub epoch: u64,
    pub stopped: bool,
}

/// The same job at the same generation.
pub open spec fn same_job(a: JobTag, b: JobTag) -> bool {
    a.id == b.id && a.epoch == b.epoch
}

/// The generation after `e` (the counter wraps).
pub open spec fn next_epoch(e: u64) -> u64 {
    if e == u64::MAX {
        0
    } else {
        (e + 1) as u64
    }
}

/// A retired job: stopped, at its next generation (so every in-flight
/// post of the old generation aborts).
pub open spec fn stopped_next(t: JobTag) -> JobTag {
    JobTag { id: t.id, epoch: next_epoch(t.epoch), stopped: true }
}

/// Stop a retired job and move it to its next generation.
pub fn retire_tag(t: JobTag) -> (r: JobTag)
    ensures
        r == stopped_next(t),
{
    let epoch: u64 = if t.epoch == u64::MAX {
        0
    } else {
        t.epoch + 1
    };
    JobTag { id: t.id, epoch, stopped: true }
}

/// What a retire did and what the caller still owes the world: the
/// retired job, already stopped at its next generation, for the watcher
/// to take on (when one was retired), whether its parked
/// watcher gets the cancel notice, and whether the pane's typing task
/// stops.
#[derive(Clone, Copy, Debug, PartialEq, Eq, Structural)]
pub struct Retire {
    pub done: bool,
    pub job: Option<JobTag>,
    pub notify: bool,
    pub stop_typing: bool,
}

/// What a global cancel did: the jobs it retired (each stopped at its
/// next generation, for its watcher to take on and be notified) and the panes that owned work (a job or an
/// intent), whose typing tasks stop.
pub struct GlobalCancel {
    pub count: usize,
    pub retired: Vec<(String, JobTag)>,
    pub owned: PaneSet,
}

/// `k` is among the first `n` panes of `v`.
pub open spec fn listed_before(v: Seq<String>, n: int, k: Seq<char>) -> bool {
    exists|a: int| 0 <= a < n && (#[trigger] v[a])@ == k
}

/// Shared per-pane books.
pub struct Books {
    pub jobs: PaneMap<JobTag>,
    pub intents: Intents,
    pub debounce: PaneMap<(String, u64)>,
    pub last_done: PaneMap<u64>,
    pub limit_alert: PaneMap<(String, u64)>,
    pub limit_seen: PaneMap<(String, u64)>,
    pub limit_miss: PaneMap<u32>,
    pub limit_send_cool: PaneMap<u64>,
    pub typewait: Waiters,
    pub keywait: Waiters,
    pub runwait: Waiters,
}

/// `after`'s stall-episode tables are `before`'s without `pane`.
pub open spec fn episode_dropped(before: &Books, after: &Books, pane: Seq<char>) -> bool {
    &&& after.limit_alert@ == before.limit_alert@.remove(pane)
    &&& after.limit_seen@ == before.limit_seen@.remove(pane)
    &&& after.limit_miss@ == before.limit_miss@.remove(pane)
    &&& after.limit_send_cool@ == before.limit_send_cool@.remove(pane)
}

/// `after`'s stall-episode tables are `before`'s.
pub open spec fn episode_kept(before: &Books, after: &Books) -> bool {
    &&& after.limit_alert@ == before.limit_alert@
    &&& after.limit_seen@ == before.limit_seen@
    &&& after.limit_miss@ == before.limit_miss@
    &&& after.limit_send_cool@ == before.limit_send_cool@
}

/// `after`'s pane-bound waiters (typed input, raw keys) no longer target
/// `pane`; shell-run waiters (workspace-bound) are untouched.
pub open spec fn waiters_dropped(before: &Books, after: &Books, pane: Seq<char>) -> bool {
    &&& after.typewait@ == before.typewait@.filter(not_target(pane))
    &&& after.keywait@ == before.keywait@.filter(not_target(pane))
    &&& after.runwait@ == before.runwait@
}

/// `after`'s waiters are `before`'s.
pub open spec fn waiters_kept(before: &Books, after: &Books) -> bool {
    &&& after.typewait@ == before.typewait@
    &&& after.keywait@ == before.keywait@
    &&& after.runwait@ == before.runwait@
}

impl Books {
    /// Empty books.
    pub fn new() -> (b: Self)
        ensures
            b.jobs@ == Map::<Seq<char>, JobTag>::empty(),
            b.intents@ == Map::<Seq<char>, crate::state::pending::PromptView>::empty(),
            b.debounce@ == Map::<Seq<char>, (String, u64)>::empty(),
            b.last_done@ == Map::<Seq<char>, u64>::empty(),
            b.limit_alert@ == Map::<Seq<char>, (String, u64)>::empty(),
            b.limit_seen@ == Map::<Seq<char>, (String, u64)>::empty(),
            b.limit_miss@ == Map::<Seq<char>, u32>::empty(),
            b.limit_send_cool@ == Map::<Seq<char>, u64>::empty(),
            b.typewait@.len() == 0,
            b.keywait@.len() == 0,
            b.runwait@.len() == 0,
    {
        Books {
            jobs: PaneMap::new(),
            intents: Intents::new(),
            debounce: PaneMap::new(),
            last_done: PaneMap::new(),
            limit_alert: PaneMap::new(),
            limit_seen: PaneMap::new(),
            limit_miss: PaneMap::new(),
            limit_send_cool: PaneMap::new(),
            typewait: Waiters::new(),
            keywait: Waiters::new(),
            runwait: Waiters::new(),
        }
    }

    /// A live (not stopped) watcher owns the pane.
    pub open spec fn live(&self, pane: Seq<char>) -> bool {
        self.jobs@.contains_key(pane) && !self.jobs@[pane].stopped
    }

    /// Whether a live watcher owns `pane` (a stopped corpse does not).
    pub fn job_live(&self, pane: &str) -> (r: bool)
        ensures
            r == self.live(pane@),
    {
        match self.jobs.get(pane) {
            Some(j) => !j.stopped,
            None => false,
        }
    }

    /// The panes with work (a watcher or an intent), each once, sorted.
    pub fn running_panes(&self) -> (r: Vec<String>)
        ensures
            texts(r@) == sorted_texts(self.jobs@.dom().union(self.intents@.dom())),
    {
        let mut r: Vec<String> = Vec::new();
        let jk = self.jobs.keys();
        let mut i: usize = 0;
        assert(texts(r@) =~= Seq::<Seq<char>>::empty());
        while i < jk.len()
            invariant
                i <= jk@.len(),
                strictly_sorted(texts(r@)),
                forall|k: Seq<char>|
                    #[trigger] texts(r@).contains(k) == exists|j: int|
                        0 <= j < i && (#[trigger] jk@[j])@ == k,
            decreases jk@.len() - i,
        {
            let ghost before = texts(r@);
            insert_sorted(&mut r, jk[i].as_str());
            proof {
                assert forall|k: Seq<char>|
                    #[trigger] texts(r@).contains(k) == exists|j: int|
                        0 <= j < i + 1 && (#[trigger] jk@[j])@ == k by {
                    if texts(r@).contains(k) && k != jk@[i as int]@ {
                        assert(before.contains(k));
                        let j = choose|j: int| 0 <= j < i && (#[trigger] jk@[j])@ == k;
                    }
                    if exists|j: int| 0 <= j < i + 1 && (#[trigger] jk@[j])@ == k {
                        let j = choose|j: int| 0 <= j < i + 1 && (#[trigger] jk@[j])@ == k;
                        if j < i {
                            assert(before.contains(k));
                        }
                    }
                }
            }
            i = i + 1;
        }
        let ik = self.intents.panes();
        let mut i: usize = 0;
        proof {
            assert forall|k: Seq<char>|
                #[trigger] texts(r@).contains(k) == (self.jobs@.contains_key(k) || exists|j: int|
                    0 <= j < 0 && (#[trigger] ik@[j])@ == k) by {
                if self.jobs@.contains_key(k) {
                    let j = choose|j: int| 0 <= j < jk@.len() && (#[trigger] jk@[j])@ == k;
                }
                if texts(r@).contains(k) {
                    let j = choose|j: int| 0 <= j < jk@.len() && (#[trigger] jk@[j])@ == k;
                }
            }
        }
        while i < ik.len()
            invariant
                i <= ik@.len(),
                strictly_sorted(texts(r@)),
                forall|k: Seq<char>|
                    #[trigger] texts(r@).contains(k) == (self.jobs@.contains_key(k) || exists|j: int|
                        0 <= j < i && (#[trigger] ik@[j])@ == k),
            decreases ik@.len() - i,
        {
            let ghost before = texts(r@);
            insert_sorted(&mut r, ik[i].as_str());
            proof {
                assert forall|k: Seq<char>|
                    #[trigger] texts(r@).contains(k) == (self.jobs@.contains_key(k) || exists|j: int|
                        0 <= j < i + 1 && (#[trigger] ik@[j])@ == k) by {
                    if texts(r@).contains(k) && k != ik@[i as int]@ {
                        assert(before.contains(k));
                        if !self.jobs@.contains_key(k) {
                            let j = choose|j: int| 0 <= j < i && (#[trigger] ik@[j])@ == k;
                        }
                    }
                    if exists|j: int| 0 <= j < i + 1 && (#[trigger] ik@[j])@ == k {
                        let j = choose|j: int| 0 <= j < i + 1 && (#[trigger] ik@[j])@ == k;
                        if j < i {
                            assert(before.contains(k));
                        }
                    }
                    if self.jobs@.contains_key(k) {
                        assert(before.contains(k));
                    }
                }
            }
            i = i + 1;
        }
        proof {
            let u = self.jobs@.dom().union(self.intents@.dom());
            assert forall|k: Seq<char>| #[trigger] texts(r@).contains(k) == u.contains(k) by {
                if self.intents@.contains_key(k) {
                    let j = choose|j: int| 0 <= j < ik@.len() && (#[trigger] ik@[j])@ == k;
                }
            }
            lemma_is_sorted_texts(texts(r@), u);
        }
        r
    }

    /// Whether the pane's shared typing task is still owned: by a live
    /// watcher (agents) or by an intent (shells).
    pub fn typing_owned(&self, pane: &str) -> (r: bool)
        ensures
            r == (self.live(pane@) || self.intents@.contains_key(pane@)),
    {
        self.job_live(pane) || self.intents.contains(pane)
    }

    /// End one pane's stall episode (alert, first sight, clean streak,
    /// send cool-down).
    pub fn clear_limit_episode(&mut self, pane: &str)
        ensures
            episode_dropped(&*old(self), &*final(self), pane@),
            final(self).jobs@ == old(self).jobs@,
            final(self).intents@ == old(self).intents@,
            final(self).debounce@ == old(self).debounce@,
            final(self).last_done@ == old(self).last_done@,
            waiters_kept(&*old(self), &*final(self)),
    {
        self.limit_alert.remove(pane);
        self.limit_seen.remove(pane);
        self.limit_miss.remove(pane);
        self.limit_send_cool.remove(pane);
    }

    /// End every stall episode.
    pub fn clear_all_limit_episodes(&mut self)
        ensures
            final(self).limit_alert@ == Map::<Seq<char>, (String, u64)>::empty(),
            final(self).limit_seen@ == Map::<Seq<char>, (String, u64)>::empty(),
            final(self).limit_miss@ == Map::<Seq<char>, u32>::empty(),
            final(self).limit_send_cool@ == Map::<Seq<char>, u64>::empty(),
            final(self).jobs@ == old(self).jobs@,
            final(self).intents@ == old(self).intents@,
            final(self).debounce@ == old(self).debounce@,
            final(self).last_done@ == old(self).last_done@,
            waiters_kept(&*old(self), &*final(self)),
    {
        self.limit_alert.clear();
        self.limit_seen.clear();
        self.limit_miss.clear();
        self.limit_send_cool.clear();
    }

    /// Disarm the pane-bound waiters of a dead pane.
    pub fn clear_waiters(&mut self, pane: &str)
        ensures
            waiters_dropped(&*old(self), &*final(self), pane@),
            final(self).jobs@ == old(self).jobs@,
            final(self).intents@ == old(self).intents@,
            final(self).debounce@ == old(self).debounce@,
            final(self).last_done@ == old(self).last_done@,
            episode_kept(&*old(self), &*final(self)),
    {
        self.typewait.drop_target(pane);
        self.keywait.drop_target(pane);
    }

    /// Generation-guarded retire: remove the pane's job and its intent
    /// only while the books still hold this job at this generation.
    pub fn cancel_retire_if_epoch(&mut self, pane: &str, job: JobTag) -> (removed: bool)
        ensures
            removed == (old(self).jobs@.contains_key(pane@) && same_job(old(self).jobs@[pane@], job)),
            final(self).jobs@ == (if removed {
                old(self).jobs@.remove(pane@)
            } else {
                old(self).jobs@
            }),
            final(self).intents@ == (if removed {
                old(self).intents@.remove(pane@)
            } else {
                old(self).intents@
            }),
            final(self).debounce@ == old(self).debounce@,
            final(self).last_done@ == old(self).last_done@,
            episode_kept(&*old(self), &*final(self)),
            waiters_kept(&*old(self), &*final(self)),
    {
        let same = match self.jobs.get(pane) {
            Some(j) => j.id == job.id && j.epoch == job.epoch,
            None => false,
        };
        if !same {
            return false;
        }
        self.jobs.remove(pane);
        self.intents.clear_pending(pane);
        true
    }

    /// Generation-guarded job removal that keeps the intent.
    pub fn remove_job_if_epoch(&mut self, pane: &str, job: JobTag) -> (removed: bool)
        ensures
            removed == (old(self).jobs@.contains_key(pane@) && same_job(old(self).jobs@[pane@], job)),
            final(self).jobs@ == (if removed {
                old(self).jobs@.remove(pane@)
            } else {
                old(self).jobs@
            }),
            final(self).intents@ == old(self).intents@,
            final(self).debounce@ == old(self).debounce@,
            final(self).last_done@ == old(self).last_done@,
            episode_kept(&*old(self), &*final(self)),
            waiters_kept(&*old(self), &*final(self)),
    {
        let same = match self.jobs.get(pane) {
            Some(j) => j.id == job.id && j.epoch == job.epoch,
            None => false,
        };
        if !same {
            return false;
        }
        self.jobs.remove(pane);
        true
    }

    /// Loud retire of one pane's watcher (`/cancel`). With a job: the job
    /// and its intent leave the books, waiters, settle arm and stall
    /// episode are dropped, the pane is done-stamped at `now` (an
    /// in-flight spontaneous post aborts), and the job is handed back to
    /// be stopped, bumped and notified. Without a job: the intent (if any)
    /// is cleared with the same books, and `done` says whether there was
    /// one; the typing task then stops only when no intent owned it.
    pub fn cancel_jobs_for(&mut self, pane: &str, now: u64) -> (r: Retire)
        ensures
            r.notify == old(self).jobs@.contains_key(pane@),
            r.done == (old(self).jobs@.contains_key(pane@) || old(self).intents@.contains_key(pane@)),
            r.job == (if old(self).jobs@.contains_key(pane@) {
                Some(stopped_next(old(self).jobs@[pane@]))
            } else {
                None
            }),
            r.stop_typing == (old(self).jobs@.contains_key(pane@) || !old(self).intents@.contains_key(pane@)),
            final(self).jobs@ == old(self).jobs@.remove(pane@),
            final(self).intents@ == old(self).intents@.remove(pane@),
            final(self).debounce@ == old(self).debounce@.remove(pane@),
            final(self).last_done@ == old(self).last_done@.insert(pane@, now),
            episode_dropped(&*old(self), &*final(self), pane@),
            waiters_dropped(&*old(self), &*final(self), pane@),
    {
        let cur: Option<JobTag> = match self.jobs.get(pane) {
            Some(j) => Some(*j),
            None => None,
        };
        let early_stop = !self.typing_owned(pane);
        match cur {
            None => {
                let had = self.intents.clear_pending(pane);
                self.clear_waiters(pane);
                self.clear_limit_episode(pane);
                self.debounce.remove(pane);
                self.last_done.insert(pane, now);
                proof {
                    assert(self.jobs@ == old(self).jobs@.remove(pane@));
                }
                Retire { done: had, job: None, notify: false, stop_typing: early_stop }
            },
            Some(job) => {
                self.cancel_retire_if_epoch(pane, job);
                self.clear_waiters(pane);
                self.clear_limit_episode(pane);
                self.debounce.remove(pane);
                self.last_done.insert(pane, now);
                Retire { done: true, job: Some(retire_tag(job)), notify: true, stop_typing: true }
            },
        }
    }

    /// Quiet retire for pane-death paths: the loud retire's books, but no
    /// done stamp and no cancel notice (the parked watcher exits
    /// silently). `done` only when a job was retired; the typing task
    /// always stops (nothing owns the pane afterwards).
    pub fn cancel_jobs_for_quiet(&mut self, pane: &str) -> (r: Retire)
        ensures
            !r.notify,
            r.stop_typing,
            r.done == old(self).jobs@.contains_key(pane@),
            r.job == (if old(self).jobs@.contains_key(pane@) {
                Some(stopped_next(old(self).jobs@[pane@]))
            } else {
                None
            }),
            final(self).jobs@ == old(self).jobs@.remove(pane@),
            final(self).intents@ == old(self).intents@.remove(pane@),
            final(self).debounce@ == old(self).debounce@.remove(pane@),
            final(self).last_done@ == old(self).last_done@,
            episode_dropped(&*old(self), &*final(self), pane@),
            waiters_dropped(&*old(self), &*final(self), pane@),
    {
        let cur: Option<JobTag> = match self.jobs.get(pane) {
            Some(j) => Some(*j),
            None => None,
        };
        match cur {
            None => {
                self.intents.clear_pending(pane);
                self.clear_waiters(pane);
                self.clear_limit_episode(pane);
                self.debounce.remove(pane);
                proof {
                    assert(self.jobs@ == old(self).jobs@.remove(pane@));
                }
                Retire { done: false, job: None, notify: false, stop_typing: true }
            },
            Some(job) => {
                self.cancel_retire_if_epoch(pane, job);
                self.clear_waiters(pane);
                self.clear_limit_episode(pane);
                self.debounce.remove(pane);
                Retire { done: true, job: Some(retire_tag(job)), notify: false, stop_typing: true }
            },
        }
    }

    /// Retire only the watcher job of a live shell pane: its intent,
    /// waiters and episode stay; the stale settle arm goes. The typing
    /// task stops unless the intent still owns it.
    pub fn cancel_job_only_for(&mut self, pane: &str) -> (r: Retire)
        ensures
            !r.notify,
            r.done == old(self).jobs@.contains_key(pane@),
            r.job == (if old(self).jobs@.contains_key(pane@) {
                Some(stopped_next(old(self).jobs@[pane@]))
            } else {
                None
            }),
            r.stop_typing == (old(self).jobs@.contains_key(pane@) && !old(self).intents@.contains_key(pane@)),
            final(self).jobs@ == old(self).jobs@.remove(pane@),
            final(self).intents@ == old(self).intents@,
            final(self).debounce@ == old(self).debounce@.remove(pane@),
            final(self).last_done@ == old(self).last_done@,
            episode_kept(&*old(self), &*final(self)),
            waiters_kept(&*old(self), &*final(self)),
    {
        let cur: Option<JobTag> = match self.jobs.get(pane) {
            Some(j) => Some(*j),
            None => None,
        };
        match cur {
            None => {
                self.debounce.remove(pane);
                proof {
                    assert(self.jobs@ == old(self).jobs@.remove(pane@));
                }
                Retire { done: false, job: None, notify: false, stop_typing: false }
            },
            Some(job) => {
                self.remove_job_if_epoch(pane, job);
                self.debounce.remove(pane);
                let stop = !self.typing_owned(pane);
                Retire { done: true, job: Some(retire_tag(job)), notify: false, stop_typing: stop }
            },
        }
    }

    /// Global cancel with nothing landing between its look at the books
    /// and its clear (see [`Books::cancel_all_jobs_from`] for a cancel
    /// against an earlier snapshot): every job and every intent leaves the books, every
    /// waiter, settle arm and stall episode goes, and each pane that owned
    /// work is done-stamped at `now`. A pane that owned nothing (a
    /// spontaneous bystander) is neither stamped nor listed.
    pub fn cancel_all_jobs(&mut self, now: u64) -> (g: GlobalCancel)
        ensures
            g.owned@ == old(self).jobs@.dom().union(old(self).intents@.dom()),
            g.count == old(self).jobs@.dom().len(),
            g.retired@.len() == g.count,
            forall|i: int|
                0 <= i < g.retired@.len() ==> old(self).jobs@.contains_key((#[trigger] g.retired@[i]).0@)
                    && stopped_next(old(self).jobs@[g.retired@[i].0@]) == g.retired@[i].1,
            forall|k: Seq<char>|
                old(self).jobs@.contains_key(k) ==> exists|i: int|
                    0 <= i < g.retired@.len() && (#[trigger] g.retired@[i]).0@ == k,
            final(self).jobs@ == Map::<Seq<char>, JobTag>::empty(),
            final(self).intents@.dom() == Set::<Seq<char>>::empty(),
            final(self).debounce@ == Map::<Seq<char>, (String, u64)>::empty(),
            final(self).limit_alert@ == Map::<Seq<char>, (String, u64)>::empty(),
            final(self).limit_seen@ == Map::<Seq<char>, (String, u64)>::empty(),
            final(self).limit_miss@ == Map::<Seq<char>, u32>::empty(),
            final(self).limit_send_cool@ == Map::<Seq<char>, u64>::empty(),
            final(self).typewait@.len() == 0,
            final(self).keywait@.len() == 0,
            final(self).runwait@.len() == 0,
            forall|k: Seq<char>|
                #[trigger] final(self).last_done@.contains_key(k) == (old(self).last_done@.contains_key(k)
                    || g.owned@.contains(k)),
            forall|k: Seq<char>|
                #[trigger] final(self).last_done@.contains_key(k) ==> final(self).last_done@[k] == (if g.owned@.contains(k) {
                    now
                } else {
                    old(self).last_done@[k]
                }),
    {
        let ks = self.jobs.keys();
        let mut retired: Vec<(String, JobTag)> = Vec::new();
        let mut i: usize = 0;
        while i < ks.len()
            invariant
                i <= ks@.len(),
                self.jobs@ == old(self).jobs@,
                forall|j: int| 0 <= j < ks@.len() ==> self.jobs@.contains_key(#[trigger] ks@[j]@),
                retired@.len() == i,
                forall|j: int|
                    0 <= j < i ==> (#[trigger] retired@[j]).0@ == ks@[j]@ && stopped_next(
                        self.jobs@[ks@[j]@],
                    ) == retired@[j].1,
            decreases ks@.len() - i,
        {
            let tag: JobTag = match self.jobs.get(ks[i].as_str()) {
                Some(t) => *t,
                None => JobTag { id: 0, epoch: 0, stopped: false },
            };
            retired.push((ks[i].clone(), retire_tag(tag)));
            i = i + 1;
        }
        let count = retired.len();
        proof {
            assert forall|k: Seq<char>| old(self).jobs@.contains_key(k) implies exists|i: int|
                0 <= i < retired@.len() && (#[trigger] retired@[i]).0@ == k by {
                let j = choose|j: int| 0 <= j < ks@.len() && (#[trigger] ks@[j])@ == k;
                assert(retired@[j].0@ == k);
            }
        }
        let mut owned = PaneSet::new();
        owned.insert_all(&ks);
        let ps = self.intents.panes();
        owned.insert_all(&ps);
        proof {
            assert forall|k: Seq<char>| owned@.contains(k) == old(self).jobs@.dom().union(
                old(self).intents@.dom(),
            ).contains(k) by {
                if old(self).jobs@.contains_key(k) {
                    let j = choose|j: int| 0 <= j < ks@.len() && (#[trigger] ks@[j])@ == k;
                }
                if old(self).intents@.contains_key(k) {
                    let j = choose|j: int| 0 <= j < ps@.len() && (#[trigger] ps@[j])@ == k;
                }
            }
            assert(owned@ =~= old(self).jobs@.dom().union(old(self).intents@.dom()));
            assert(count == old(self).jobs@.dom().len());
        }
        self.jobs.clear();
        self.intents.clear_all_pending();
        self.typewait.clear();
        self.keywait.clear();
        self.runwait.clear();
        self.debounce.clear();
        self.clear_all_limit_episodes();
        let ov = owned.to_vec();
        proof {
            assert forall|k: Seq<char>| owned@.contains(k) == listed_before(ov@, ov@.len() as int, k) by {
                if listed_before(ov@, ov@.len() as int, k) {
                    let a = choose|a: int| 0 <= a < ov@.len() && (#[trigger] ov@[a])@ == k;
                    assert(owned@.contains(ov@[a]@));
                }
            }
        }
        let ghost ld0 = self.last_done@;
        let mut j: usize = 0;
        while j < ov.len()
            invariant
                j <= ov@.len(),
                ld0 == old(self).last_done@,
                self.jobs@ == Map::<Seq<char>, JobTag>::empty(),
                self.intents@.dom() == Set::<Seq<char>>::empty(),
                self.debounce@ == Map::<Seq<char>, (String, u64)>::empty(),
                self.limit_alert@ == Map::<Seq<char>, (String, u64)>::empty(),
                self.limit_seen@ == Map::<Seq<char>, (String, u64)>::empty(),
                self.limit_miss@ == Map::<Seq<char>, u32>::empty(),
                self.limit_send_cool@ == Map::<Seq<char>, u64>::empty(),
                self.typewait@.len() == 0,
                self.keywait@.len() == 0,
                self.runwait@.len() == 0,
                forall|k: Seq<char>| owned@.contains(k) == listed_before(ov@, ov@.len() as int, k),
                forall|k: Seq<char>|
                    #[trigger] self.last_done@.contains_key(k) == (ld0.contains_key(k) || listed_before(
                        ov@,
                        j as int,
                        k,
                    )),
                forall|k: Seq<char>|
                    #[trigger] self.last_done@.contains_key(k) ==> self.last_done@[k] == (if listed_before(
                        ov@,
                        j as int,
                        k,
                    ) {
                        now
                    } else {
                        ld0[k]
                    }),
            decreases ov@.len() - j,
        {
            self.last_done.insert(ov[j].as_str(), now);
            proof {
                assert forall|k: Seq<char>|
                    #[trigger] listed_before(ov@, j + 1, k) == (listed_before(ov@, j as int, k) || k
                        == ov@[j as int]@) by {
                    if listed_before(ov@, j + 1, k) {
                        let a = choose|a: int| 0 <= a < j + 1 && (#[trigger] ov@[a])@ == k;
                        if a < j {
                            assert(ov@[a]@ == k);
                        }
                    }
                    if k == ov@[j as int]@ {
                        assert(ov@[j as int]@ == k);
                    }
                    if listed_before(ov@, j as int, k) {
                        let a = choose|a: int| 0 <= a < j && (#[trigger] ov@[a])@ == k;
                        assert(ov@[a]@ == k);
                    }
                }
            }
            j = j + 1;
        }
        GlobalCancel { count, retired, owned }
    }
}

/// What each pane shows and holds besides its work: last status, screen
/// baseline, last status change, blocked dialog (signature and posted
/// cards), prompt history, op guards, shell generations, and the DM
/// routing focus.
pub struct PaneState {
    pub status: PaneMap<String>,
    pub seen: PaneMap<Vec<String>>,
    pub last_change: PaneMap<u64>,
    pub blocked_sig: PaneMap<String>,
    pub blocked_card: PaneMap<Vec<(i64, i64)>>,
    pub history: PaneMap<VecDeque<String>>,
    pub modelop: PaneMap<u64>,
    pub blockop: PaneMap<u64>,
    pub shell_gen: ShellGen,
    pub focus: Option<String>,
}

impl PaneState {
    /// Nothing observed, no focus.
    pub fn new(focus: Option<String>) -> (p: Self)
        ensures
            p.status@ == Map::<Seq<char>, String>::empty(),
            p.seen@ == Map::<Seq<char>, Vec<String>>::empty(),
            p.last_change@ == Map::<Seq<char>, u64>::empty(),
            p.blocked_sig@ == Map::<Seq<char>, String>::empty(),
            p.blocked_card@ == Map::<Seq<char>, Vec<(i64, i64)>>::empty(),
            p.history@ == Map::<Seq<char>, VecDeque<String>>::empty(),
            p.modelop@ == Map::<Seq<char>, u64>::empty(),
            p.blockop@ == Map::<Seq<char>, u64>::empty(),
            p.shell_gen@ == Map::<Seq<char>, u64>::empty(),
            p.focus == focus,
    {
        PaneState {
            status: PaneMap::new(),
            seen: PaneMap::new(),
            last_change: PaneMap::new(),
            blocked_sig: PaneMap::new(),
            blocked_card: PaneMap::new(),
            history: PaneMap::new(),
            modelop: PaneMap::new(),
            blockop: PaneMap::new(),
            shell_gen: ShellGen::new(),
            focus,
        }
    }

    /// Record owner→pane text after a delivery: trimmed, blank text
    /// skipped, the pane's log bounded by the history cap.
    pub fn push_history(&mut self, pane: &str, text: &str)
        ensures
            trimmed(text@).len() == 0 ==> final(self).history@ == old(self).history@,
            trimmed(text@).len() > 0 ==> {
                &&& final(self).history@.dom() == old(self).history@.dom().insert(pane@)
                &&& final(self).history@.remove(pane@) == old(self).history@.remove(pane@)
                &&& texts_of(final(self).history@[pane@]@) == capped_push(
                    texts_of(logged(old(self).history@, pane@)),
                    trimmed(text@),
                )
            },
            final(self).status == old(self).status,
            final(self).seen == old(self).seen,
            final(self).focus == old(self).focus,
    {
        let t = trim_str(text);
        if t.as_str().is_empty() {
            return;
        }
        let mut log = match self.history.remove(pane) {
            Some(l) => l,
            None => VecDeque::new(),
        };
        let ghost before = log@;
        record_capped(&mut log, t);
        proof {
            assert(texts_of(log@) =~= capped_push(texts_of(before), trimmed(text@)));
        }
        self.history.insert(pane, log);
        assert(self.history@.remove(pane@) =~= old(self).history@.remove(pane@));
        assert(self.history@.dom() =~= old(self).history@.dom().insert(pane@));
    }

    /// The last `n` owner texts of `pane` for `/history`, oldest first;
    /// a placeholder when nothing was recorded.
    pub fn history_render(&self, pane: &str, n: usize) -> (text: String)
        ensures
            text@ == if logged(self.history@, pane@).len() == 0 {
                "(no history yet)"@
            } else {
                history_spec(logged(self.history@, pane@), n as int)
            },
    {
        match self.history.get(pane) {
            Some(log) => {
                if log.len() == 0 {
                    "(no history yet)".to_string()
                } else {
                    history_text(log, n)
                }
            },
            None => {
                "(no history yet)".to_string()
            },
        }
    }
}

/// The log recorded for `pane` (empty when none).
pub open spec fn logged(m: Map<Seq<char>, VecDeque<String>>, pane: Seq<char>) -> Seq<String> {
    if m.contains_key(pane) {
        m[pane]@
    } else {
        Seq::empty()
    }
}

/// The texts of a log.
pub open spec fn texts_of(log: Seq<String>) -> Seq<Seq<char>> {
    log.map_values(|s: String| s@)
}

/// A guard table after a dead pane's retire: a fresh claim survives (its
/// holder's release frees it), a stale one goes.
pub open spec fn guard_after_death(m: Map<Seq<char>, u64>, pane: Seq<char>, now: u64, limit_secs: u64) -> Map<
    Seq<char>,
    u64,
> {
    if m.contains_key(pane) && !at_least(m[pane], now, limit_secs) {
        m
    } else {
        m.remove(pane)
    }
}

/// The focus is on `pane`.
pub open spec fn focused_on(focus: Option<String>, pane: Seq<char>) -> bool {
    match focus {
        Some(f) => f@ == pane,
        None => false,
    }
}

/// What a pane retire leaves to the caller: stop the typing task, and
/// delete the focus file when the focus was cleared.
#[derive(Clone, Copy, Debug, PartialEq, Eq, Structural)]
pub struct ClearPane {
    pub stop_typing: bool,
    pub focus_cleared: bool,
}

fn remove_stale_guard(m: &mut PaneMap<u64>, pane: &str, now: u64, limit_secs: u64)
    ensures
        final(m)@ == guard_after_death(old(m)@, pane@, now, limit_secs),
{
    let stale = match m.get(pane) {
        Some(at) => claim_stale(*at, now, limit_secs),
        None => true,
    };
    if stale {
        m.remove(pane);
    }
}

/// Retire a dead pane's books: its waiters, focus, status, done stamp,
/// baseline, change stamp, settle arm, stall episode, dialog state,
/// history and shell generation go; its op guards go only when stale (a
/// fresh claim may belong to a tap still in flight); reply routes and
/// intents stay. The typing task stops unless a live watcher owns it.
pub fn clear_pane(books: &mut Books, ps: &mut PaneState, pane: &str, now: u64) -> (r: ClearPane)
    ensures
        r.stop_typing == !old(books).live(pane@),
        r.focus_cleared == focused_on(old(ps).focus, pane@),
        final(ps).focus == (if r.focus_cleared {
            None
        } else {
            old(ps).focus
        }),
        waiters_dropped(&*old(books), &*final(books), pane@),
        episode_dropped(&*old(books), &*final(books), pane@),
        final(books).jobs@ == old(books).jobs@,
        final(books).intents@ == old(books).intents@,
        final(books).debounce@ == old(books).debounce@.remove(pane@),
        final(books).last_done@ == old(books).last_done@.remove(pane@),
        final(ps).status@ == old(ps).status@.remove(pane@),
        final(ps).seen@ == old(ps).seen@.remove(pane@),
        final(ps).last_change@ == old(ps).last_change@.remove(pane@),
        final(ps).blocked_sig@ == old(ps).blocked_sig@.remove(pane@),
        final(ps).blocked_card@ == old(ps).blocked_card@.remove(pane@),
        final(ps).history@ == old(ps).history@.remove(pane@),
        final(ps).modelop@ == guard_after_death(old(ps).modelop@, pane@, now, MODELOP_STALE_SECS),
        final(ps).blockop@ == guard_after_death(old(ps).blockop@, pane@, now, BLOCKOP_STALE_SECS),
        final(ps).shell_gen@ == old(ps).shell_gen@.remove(pane@),
{
    let stop_typing = !books.job_live(pane);
    books.clear_waiters(pane);
    let focus_cleared = match &ps.focus {
        Some(f) => str_eq(f.as_str(), pane),
        None => false,
    };
    if focus_cleared {
        ps.focus = None;
    }
    ps.status.remove(pane);
    books.last_done.remove(pane);
    ps.seen.remove(pane);
    ps.last_change.remove(pane);
    books.debounce.remove(pane);
    books.clear_limit_episode(pane);
    ps.blocked_sig.remove(pane);
    ps.blocked_card.remove(pane);
    ps.history.remove(pane);
    remove_stale_guard(&mut ps.modelop, pane, now, MODELOP_STALE_SECS);
    remove_stale_guard(&mut ps.blockop, pane, now, BLOCKOP_STALE_SECS);
    ps.shell_gen.remove(pane);
    ClearPane { stop_typing, focus_cleared }
}

} // verus!
