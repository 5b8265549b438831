//! Dead-pane reap on the watchdog tick: every pane the books still pin
//! (work, focus, waiters, guards, dialogs) that the confirmed live list
//! no longer shows is retired, and every per-pane table is pruned to the
//! live panes. An empty live list is an outage: nothing is touched.
use crate::pane_map::PaneSet;
use crate::state::books::{retire_tag, stopped_next, Books, JobTag, PaneState};
use crate::state::guard::{fresh_only, reap_stale, BLOCKOP_STALE_SECS, MODELOP_STALE_SECS};
use crate::state::waiters::{target_in, WaiterView};
use crate::state::pending::recoverable_only;
use vstd::prelude::*;

verus! {

/// The targets of a list of waiters.
pub open spec fn waiter_targets(w: Seq<WaiterView>) -> Set<Seq<char>> {
    Set::new(|t: Seq<char>| exists|i: int| 0 <= i < w.len() && (#[trigger] w[i]).target == t)
}

/// The focus as a set of at most one pane.
pub open spec fn focus_set(focus: Option<String>) -> Set<Seq<char>> {
    match focus {
        Some(f) => set![f@],
        None => Set::empty(),
    }
}

/// Panes the books pin: work (jobs, intents), the focus, pane-bound
/// waiters, op guards and blocked dialogs. (Shell-run waiters hold
/// workspaces, never panes.)
pub open spec fn known_spec(b: &Books, ps: &PaneState) -> Set<Seq<char>> {
    b.jobs@.dom() + b.intents@.dom() + focus_set(ps.focus) + waiter_targets(b.keywait@)
        + waiter_targets(b.typewait@) + ps.blockop@.dom() + ps.modelop@.dom() + ps.blocked_sig@.dom()
        + ps.blocked_card@.dom()
}

fn add_listed(set: &mut PaneSet, ks: &Vec<String>, Ghost(dom): Ghost<Set<Seq<char>>>)
    requires
        forall|k: Seq<char>| dom.contains(k) == exists|j: int| 0 <= j < ks@.len() && (#[trigger] ks@[j])@ == k,
    ensures
        final(set)@ == old(set)@ + dom,
{
    set.insert_all(ks);
    assert(set@ =~= old(set)@ + dom);
}

/// The panes the books pin.
pub fn known_panes(b: &Books, ps: &PaneState) -> (k: PaneSet)
    ensures
        k@ == known_spec(b, ps),
{
    let mut k = PaneSet::new();
    let ks = b.jobs.keys();
    add_listed(&mut k, &ks, Ghost(b.jobs@.dom()));
    let ks = b.intents.panes();
    add_listed(&mut k, &ks, Ghost(b.intents@.dom()));
    match &ps.focus {
        Some(f) => {
            k.insert(f.as_str());
        },
        None => {},
    }
    let ks = b.keywait.targets();
    proof {
        assert forall|t: Seq<char>| waiter_targets(b.keywait@).contains(t) == exists|j: int|
            0 <= j < ks@.len() && (#[trigger] ks@[j])@ == t by {
            if waiter_targets(b.keywait@).contains(t) {
                let i = choose|i: int| 0 <= i < b.keywait@.len() && (#[trigger] b.keywait@[i]).target == t;
                assert(ks@[i]@ == t);
            }
        }
    }
    add_listed(&mut k, &ks, Ghost(waiter_targets(b.keywait@)));
    let ks = b.typewait.targets();
    proof {
        assert forall|t: Seq<char>| waiter_targets(b.typewait@).contains(t) == exists|j: int|
            0 <= j < ks@.len() && (#[trigger] ks@[j])@ == t by {
            if waiter_targets(b.typewait@).contains(t) {
                let i = choose|i: int| 0 <= i < b.typewait@.len() && (#[trigger] b.typewait@[i]).target == t;
                assert(ks@[i]@ == t);
            }
        }
    }
    add_listed(&mut k, &ks, Ghost(waiter_targets(b.typewait@)));
    let ks = ps.blockop.keys();
    add_listed(&mut k, &ks, Ghost(ps.blockop@.dom()));
    let ks = ps.modelop.keys();
    add_listed(&mut k, &ks, Ghost(ps.modelop@.dom()));
    let ks = ps.blocked_sig.keys();
    add_listed(&mut k, &ks, Ghost(ps.blocked_sig@.dom()));
    let ks = ps.blocked_card.keys();
    add_listed(&mut k, &ks, Ghost(ps.blocked_card@.dom()));
    assert(k@ =~= known_spec(b, ps));
    k
}

/// What a reap retired: the dead panes (their blocked cards get
/// resolved) and the watcher jobs that died with them (each to be
/// stopped and bumped).
pub struct Reap {
    pub dying: Vec<String>,
    pub retired: Vec<(String, JobTag)>,
}

/// Reap against the confirmed live panes. Dead pinned panes are retired
/// (job only: intents stay for boot recovery); jobs, waiters, settle
/// arms, done stamps, stall episodes, statuses, baselines, change
/// stamps, dialogs, histories and shell generations keep only live
/// panes; the focus goes when its pane is dead; op guards keep only live
/// and fresh claims. Intents are not tied to liveness (a dead pane's
/// intent is boot recovery's report), but every intent that can no
/// longer be recovered at `now_unix` goes, on live and dead panes alike.
/// Shell-run waiters and reply routes are never pruned here. An empty
/// live list changes nothing.
pub fn reap_dead(b: &mut Books, ps: &mut PaneState, live: &PaneSet, now: u64, now_unix: u64) -> (r: Reap)
    ensures
        live@.len() == 0 ==> r.dying@.len() == 0 && r.retired@.len() == 0 && final(b).jobs@
            == old(b).jobs@ && final(b).debounce@ == old(b).debounce@ && final(b).last_done@ == old(
            b,
        ).last_done@ && final(b).typewait@ == old(b).typewait@ && final(b).keywait@ == old(
            b,
        ).keywait@ && final(b).limit_alert@ == old(b).limit_alert@ && final(b).limit_seen@ == old(
            b,
        ).limit_seen@ && final(b).limit_miss@ == old(b).limit_miss@ && final(b).limit_send_cool@
            == old(b).limit_send_cool@ && final(ps).status@ == old(ps).status@ && final(ps).seen@
            == old(ps).seen@ && final(ps).last_change@ == old(ps).last_change@
            && final(ps).blocked_sig@ == old(ps).blocked_sig@ && final(ps).blocked_card@ == old(
            ps,
        ).blocked_card@ && final(ps).history@ == old(ps).history@ && final(ps).modelop@ == old(
            ps,
        ).modelop@ && final(ps).blockop@ == old(ps).blockop@ && final(ps).shell_gen@ == old(
            ps,
        ).shell_gen@ && final(ps).focus == old(ps).focus,
        live@.len() > 0 ==> (forall|i: int|
                0 <= i < r.dying@.len() ==> known_spec(&*old(b), &*old(ps)).contains(
                    (#[trigger] r.dying@[i])@,
                ) && !live@.contains(r.dying@[i]@)),
        live@.len() > 0 ==> (forall|k: Seq<char>|
                known_spec(&*old(b), &*old(ps)).contains(k) && !live@.contains(k) ==> exists|i: int|
                    0 <= i < r.dying@.len() && (#[trigger] r.dying@[i])@ == k),
        live@.len() > 0 ==> (forall|i: int|
                0 <= i < r.retired@.len() ==> old(b).jobs@.contains_key((#[trigger] r.retired@[i]).0@)
                    && !live@.contains(r.retired@[i].0@) && stopped_next(old(b).jobs@[r.retired@[i].0@])
                    == r.retired@[i].1),
        live@.len() > 0 ==> (forall|k: Seq<char>|
                old(b).jobs@.contains_key(k) && !live@.contains(k) ==> exists|i: int|
                    0 <= i < r.retired@.len() && (#[trigger] r.retired@[i]).0@ == k),
        live@.len() > 0 ==> (final(b).jobs@ == old(b).jobs@.restrict(live@)),
        live@.len() > 0 ==> (final(b).debounce@ == old(b).debounce@.restrict(live@)),
        live@.len() > 0 ==> (final(b).last_done@ == old(b).last_done@.restrict(live@)),
        live@.len() > 0 ==> (final(b).limit_alert@ == old(b).limit_alert@.restrict(live@)),
        live@.len() > 0 ==> (final(b).limit_seen@ == old(b).limit_seen@.restrict(live@)),
        live@.len() > 0 ==> (final(b).limit_miss@ == old(b).limit_miss@.restrict(live@)),
        live@.len() > 0 ==> (final(b).limit_send_cool@ == old(b).limit_send_cool@.restrict(live@)),
        live@.len() > 0 ==> (final(b).typewait@ == old(b).typewait@.filter(target_in(live@))),
        live@.len() > 0 ==> (final(b).keywait@ == old(b).keywait@.filter(target_in(live@))),
        live@.len() > 0 ==> (final(ps).status@ == old(ps).status@.restrict(live@)),
        live@.len() > 0 ==> (final(ps).seen@ == old(ps).seen@.restrict(live@)),
        live@.len() > 0 ==> (final(ps).last_change@ == old(ps).last_change@.restrict(live@)),
        live@.len() > 0 ==> (final(ps).blocked_sig@ == old(ps).blocked_sig@.restrict(live@)),
        live@.len() > 0 ==> (final(ps).blocked_card@ == old(ps).blocked_card@.restrict(live@)),
        live@.len() > 0 ==> (final(ps).history@ == old(ps).history@.restrict(live@)),
        live@.len() > 0 ==> (final(ps).shell_gen@ == old(ps).shell_gen@.restrict(live@)),
        live@.len() > 0 ==> (final(ps).blockop@ == old(ps).blockop@.restrict(
                live@.intersect(fresh_only(old(ps).blockop@, now, BLOCKOP_STALE_SECS)),
            )),
        live@.len() > 0 ==> (final(ps).modelop@ == old(ps).modelop@.restrict(
                live@.intersect(fresh_only(old(ps).modelop@, now, MODELOP_STALE_SECS)),
            )),
        live@.len() > 0 ==> (final(ps).focus == (match old(ps).focus {
                Some(f) => if live@.contains(f@) {
                    old(ps).focus
                } else {
                    None
                },
                None => None,
            })),
        live@.len() == 0 ==> final(b).intents@ == old(b).intents@,
        live@.len() > 0 ==> final(b).intents@ == recoverable_only(old(b).intents@, now_unix),
        final(b).runwait@ == old(b).runwait@,
{
    let mut dying: Vec<String> = Vec::new();
    let mut retired: Vec<(String, JobTag)> = Vec::new();
    if live.len() == 0 {
        return Reap { dying, retired };
    }
    let known = known_panes(b, ps);
    let kv = known.to_vec();
    let mut i: usize = 0;
    while i < kv.len()
        invariant
            i <= kv@.len(),
            forall|j: int| 0 <= j < kv@.len() ==> known@.contains(#[trigger] kv@[j]@),
            forall|j: int|
                0 <= j < dying@.len() ==> known@.contains((#[trigger] dying@[j])@) && !live@.contains(
                    dying@[j]@,
                ),
            forall|j: int|
                0 <= j < i && !live@.contains(#[trigger] kv@[j]@) ==> exists|a: int|
                    0 <= a < dying@.len() && (#[trigger] dying@[a])@ == kv@[j]@,
        decreases kv@.len() - i,
    {
        let ghost d0 = dying@;
        if !live.contains(kv[i].as_str()) {
            dying.push(kv[i].clone());
            proof {
                assert(dying@[dying@.len() - 1]@ == kv@[i as int]@);
            }
        }
        proof {
            assert forall|j: int|
                0 <= j < i + 1 && !live@.contains(#[trigger] kv@[j]@) implies exists|a: int|
                    0 <= a < dying@.len() && (#[trigger] dying@[a])@ == kv@[j]@ by {
                if j < i {
                    let a = choose|a: int| 0 <= a < d0.len() && (#[trigger] d0[a])@ == kv@[j]@;
                    assert(dying@[a] == d0[a]);
                } else {
                    assert(dying@[dying@.len() - 1]@ == kv@[j]@);
                }
            }
        }
        i = i + 1;
    }
    proof {
        assert forall|k: Seq<char>| known@.contains(k) && !live@.contains(k) implies exists|a: int|
            0 <= a < dying@.len() && (#[trigger] dying@[a])@ == k by {
            let j = choose|j: int| 0 <= j < kv@.len() && (#[trigger] kv@[j])@ == k;
        }
    }
    let jk = b.jobs.keys();
    let mut j: usize = 0;
    while j < jk.len()
        invariant
            j <= jk@.len(),
            b.jobs@ == old(b).jobs@,
            forall|a: int| 0 <= a < jk@.len() ==> b.jobs@.contains_key(#[trigger] jk@[a]@),
            forall|a: int|
                0 <= a < retired@.len() ==> b.jobs@.contains_key((#[trigger] retired@[a]).0@)
                    && !live@.contains(retired@[a].0@) && stopped_next(b.jobs@[retired@[a].0@]) == retired@[a].1,
            forall|a: int|
                0 <= a < j && !live@.contains(#[trigger] jk@[a]@) ==> exists|c: int|
                    0 <= c < retired@.len() && (#[trigger] retired@[c]).0@ == jk@[a]@,
        decreases jk@.len() - j,
    {
        let ghost r0 = retired@;
        if !live.contains(jk[j].as_str()) {
            let tag: JobTag = match b.jobs.get(jk[j].as_str()) {
                Some(t) => *t,
                None => JobTag { id: 0, epoch: 0, stopped: false },
            };
            retired.push((jk[j].clone(), retire_tag(tag)));
            proof {
                assert(retired@[retired@.len() - 1].0@ == jk@[j as int]@);
            }
        }
        proof {
            assert forall|a: int|
                0 <= a < j + 1 && !live@.contains(#[trigger] jk@[a]@) implies exists|c: int|
                    0 <= c < retired@.len() && (#[trigger] retired@[c]).0@ == jk@[a]@ by {
                if a < j {
                    let c = choose|c: int| 0 <= c < r0.len() && (#[trigger] r0[c]).0@ == jk@[a]@;
                    assert(retired@[c] == r0[c]);
                } else {
                    assert(retired@[retired@.len() - 1].0@ == jk@[a]@);
                }
            }
        }
        j = j + 1;
    }
    proof {
        assert forall|k: Seq<char>| old(b).jobs@.contains_key(k) && !live@.contains(k) implies exists|c: int|
            0 <= c < retired@.len() && (#[trigger] retired@[c]).0@ == k by {
            let a = choose|a: int| 0 <= a < jk@.len() && (#[trigger] jk@[a])@ == k;
        }
    }
    b.jobs.retain_keys(live);
    b.debounce.retain_keys(live);
    b.last_done.retain_keys(live);
    b.limit_alert.retain_keys(live);
    b.limit_seen.retain_keys(live);
    b.limit_miss.retain_keys(live);
    b.limit_send_cool.retain_keys(live);
    b.typewait.keep_targets(live);
    b.keywait.keep_targets(live);
    let focus_dead = match &ps.focus {
        Some(f) => !live.contains(f.as_str()),
        None => false,
    };
    if focus_dead {
        ps.focus = None;
    }
    ps.status.retain_keys(live);
    ps.seen.retain_keys(live);
    ps.last_change.retain_keys(live);
    ps.blocked_sig.retain_keys(live);
    ps.blocked_card.retain_keys(live);
    ps.history.retain_keys(live);
    ps.shell_gen.retain_panes(live);
    reap_stale(&mut ps.blockop, live, now, BLOCKOP_STALE_SECS);
    reap_stale(&mut ps.modelop, live, now, MODELOP_STALE_SECS);
    b.intents.retain_recoverable(now_unix);
    let ghost dv = dying@;
    let ghost rv = retired@;
    let r = Reap { dying, retired };
    assert(r.dying@ == dv && r.retired@ == rv);
    r
}

} // verus!
