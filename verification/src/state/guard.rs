//! Single-flight op guards: one tap or model switch owns a pane until it
//! lands. Claims carry their instant, and stale claims self-evict on the
//! next claim or peek, so a wedged holder never bricks a pane.
use crate::clock::{aged, at_least};
use crate::pane_map::{PaneMap, PaneSet};
use vstd::prelude::*;

verus! {

/// Corpse threshold for tap claims.
pub const BLOCKOP_STALE_SECS: u64 = 300;

/// Corpse threshold for model switches (their worst pile-up runs longer).
pub const MODELOP_STALE_SECS: u64 = 900;

/// Armed shell-run waiter lifetime.
pub const RUNWAIT_STALE_SECS: u64 = 900;

/// Armed raw-keys waiter lifetime.
pub const KEYWAIT_STALE_SECS: u64 = 900;

/// Armed typed-answer waiter lifetime.
pub const TYPEWAIT_STALE_SECS: u64 = 3600;

/// Corpse predicate: the claim made at `since` is at least `limit_secs`
/// old at `now`.
pub fn claim_stale(since: u64, now: u64, limit_secs: u64) -> (r: bool)
    ensures
        r == at_least(since, now, limit_secs),
{
    aged(since, now, limit_secs)
}

/// A claim that owns one pane of a guard table, stamped with its instant.
pub struct OpGuard {
    pub pane: String,
    pub at: u64,
}

impl OpGuard {
    /// Claim `pane` with the tap threshold; `None` when a fresh claim
    /// already holds it.
    pub fn claim(set: &mut PaneMap<u64>, pane: &str, now: u64) -> (g: Option<OpGuard>)
        ensures
            Self::claimed(old(set)@, final(set)@, pane@, BLOCKOP_STALE_SECS, now, g),
    {
        Self::claim_limited(set, pane, BLOCKOP_STALE_SECS, now)
    }

    /// What a claim does: refuse (read-only) while a fresh claim holds
    /// the pane; otherwise evict any stale one and stamp `now`.
    pub open spec fn claimed(
        before: Map<Seq<char>, u64>,
        after: Map<Seq<char>, u64>,
        pane: Seq<char>,
        limit_secs: u64,
        now: u64,
        g: Option<OpGuard>,
    ) -> bool {
        if before.contains_key(pane) && !at_least(before[pane], now, limit_secs) {
            g is None && after == before
        } else {
            g matches Some(guard) && guard.pane@ == pane && guard.at == now && after
                == before.insert(pane, now)
        }
    }

    /// Claim with an explicit corpse threshold (check-then-insert in one
    /// step; a refused claim never re-stamps the live claim).
    pub fn claim_limited(set: &mut PaneMap<u64>, pane: &str, limit_secs: u64, now: u64) -> (g:
        Option<OpGuard>)
        ensures
            Self::claimed(old(set)@, final(set)@, pane@, limit_secs, now, g),
    {
        match set.get(pane) {
            Some(since) => {
                if !claim_stale(*since, now, limit_secs) {
                    return None;
                }
            },
            None => {},
        }
        set.insert(pane, now);
        Some(OpGuard { pane: pane.to_owned(), at: now })
    }

    /// Self-healing peek: true only while a fresh claim holds the pane;
    /// a stale claim is evicted here, a fresh one is left untouched.
    pub fn is_held(set: &mut PaneMap<u64>, pane: &str, limit_secs: u64, now: u64) -> (held: bool)
        ensures
            held == (old(set)@.contains_key(pane@) && !at_least(old(set)@[pane@], now, limit_secs)),
            final(set)@ == if old(set)@.contains_key(pane@) && at_least(
                old(set)@[pane@],
                now,
                limit_secs,
            ) {
                old(set)@.remove(pane@)
            } else {
                old(set)@
            },
    {
        let stale = match set.get(pane) {
            None => return false,
            Some(since) => claim_stale(*since, now, limit_secs),
        };
        if stale {
            set.remove(pane);
            false
        } else {
            true
        }
    }

    /// The table after this claim's release: its own slot removed, any
    /// other holder's left in place.
    pub open spec fn released(&self, before: Map<Seq<char>, u64>) -> Map<Seq<char>, u64> {
        if before.contains_key(self.pane@) && before[self.pane@] == self.at {
            before.remove(self.pane@)
        } else {
            before
        }
    }

    /// Release on completion, generation-checked: only our own instant is
    /// removed, so a successor that evicted us keeps its claim.
    pub fn release(&self, set: &mut PaneMap<u64>)
        ensures
            final(set)@ == self.released(old(set)@),
    {
        let mine = match set.get(self.pane.as_str()) {
            Some(at) => *at == self.at,
            None => false,
        };
        if mine {
            set.remove(self.pane.as_str());
        }
    }
}

/// Single flight: while a claim is fresh, a second claim on the same pane
/// is refused and leaves the table as it was.
pub proof fn law_claim_single_flight(
    before: Map<Seq<char>, u64>,
    mid: Map<Seq<char>, u64>,
    after: Map<Seq<char>, u64>,
    pane: Seq<char>,
    limit_secs: u64,
    t1: u64,
    t2: u64,
    g1: Option<OpGuard>,
    g2: Option<OpGuard>,
)
    requires
        OpGuard::claimed(before, mid, pane, limit_secs, t1, g1),
        g1 is Some,
        OpGuard::claimed(mid, after, pane, limit_secs, t2, g2),
        !at_least(t1, t2, limit_secs),
    ensures
        g2 is None,
        after == mid,
{
}

/// Releasing one's own claim frees the pane: the next claim wins.
pub proof fn law_release_then_claim(
    before: Map<Seq<char>, u64>,
    mid: Map<Seq<char>, u64>,
    after: Map<Seq<char>, u64>,
    pane: Seq<char>,
    limit_secs: u64,
    t1: u64,
    t2: u64,
    g: OpGuard,
    g2: Option<OpGuard>,
)
    requires
        OpGuard::claimed(before, mid, pane, limit_secs, t1, Some(g)),
        OpGuard::claimed(g.released(mid), after, pane, limit_secs, t2, g2),
    ensures
        !g.released(mid).contains_key(pane),
        g2 is Some,
{
    assert(g.released(mid) == mid.remove(pane));
}

/// A stale claim never bricks the pane: the next claim evicts it, and the
/// evicted holder's late release leaves the successor's claim in place.
pub proof fn law_late_release_keeps_successor(
    before: Map<Seq<char>, u64>,
    mid: Map<Seq<char>, u64>,
    after: Map<Seq<char>, u64>,
    pane: Seq<char>,
    limit_secs: u64,
    t1: u64,
    t2: u64,
    g1: OpGuard,
    g2: Option<OpGuard>,
)
    requires
        OpGuard::claimed(before, mid, pane, limit_secs, t1, Some(g1)),
        at_least(t1, t2, limit_secs),
        t1 != t2,
        OpGuard::claimed(mid, after, pane, limit_secs, t2, g2),
    ensures
        g2 is Some,
        g1.released(after) == after,
        after.contains_key(pane) && after[pane] == t2,
{
}

/// Drop the claims that are at least `limit_secs` old at `now`.
pub open spec fn fresh_only(m: Map<Seq<char>, u64>, now: u64, limit_secs: u64) -> Set<Seq<char>> {
    m.dom().filter(|k: Seq<char>| !at_least(m[k], now, limit_secs))
}

/// Reap dead panes and corpse claims: keep only live, fresh entries.
/// Returns the stale panes (live or dead) for logging.
pub fn reap_stale(map: &mut PaneMap<u64>, live: &PaneSet, now: u64, limit_secs: u64) -> (reaped:
    Vec<String>)
    ensures
        final(map)@ == old(map)@.restrict(live@.intersect(fresh_only(old(map)@, now, limit_secs))),
        forall|i: int|
            0 <= i < reaped@.len() ==> old(map)@.contains_key(#[trigger] reaped@[i]@) && at_least(
                old(map)@[reaped@[i]@],
                now,
                limit_secs,
            ),
        forall|k: Seq<char>|
            old(map)@.contains_key(k) && at_least(old(map)@[k], now, limit_secs) ==> exists|i: int|
                0 <= i < reaped@.len() && (#[trigger] reaped@[i])@ == k,
        forall|i: int, j: int|
            0 <= i < reaped@.len() && 0 <= j < reaped@.len() && i != j ==> (#[trigger] reaped@[i])@
                != (#[trigger] reaped@[j])@,
{
    let ghost m0 = map@;
    let ks = map.keys();
    let mut reaped: Vec<String> = Vec::new();
    let mut i: usize = 0;
    while i < ks.len()
        invariant
            i <= ks@.len(),
            forall|j: int| 0 <= j < ks@.len() ==> m0.contains_key(#[trigger] ks@[j]@),
            forall|k: Seq<char>|
                m0.contains_key(k) ==> exists|j: int| 0 <= j < ks@.len() && (#[trigger] ks@[j])@ == k,
            forall|a: int, b: int|
                0 <= a < ks@.len() && 0 <= b < ks@.len() && a != b ==> (#[trigger] ks@[a])@ != (
                #[trigger] ks@[b])@,
            forall|k: Seq<char>|
                #[trigger] map@.contains_key(k) == (m0.contains_key(k) && ((live@.contains(k)
                    && !at_least(m0[k], now, limit_secs)) || !exists|j: int|
                    0 <= j < i && (#[trigger] ks@[j])@ == k)),
            forall|k: Seq<char>| #[trigger] map@.contains_key(k) ==> map@[k] == m0[k],
            forall|j: int|
                0 <= j < reaped@.len() ==> m0.contains_key(#[trigger] reaped@[j]@) && at_least(
                    m0[reaped@[j]@],
                    now,
                    limit_secs,
                ),
            forall|j: int|
                0 <= j < i && at_least(m0[#[trigger] ks@[j]@], now, limit_secs) ==> exists|r: int|
                    0 <= r < reaped@.len() && (#[trigger] reaped@[r])@ == ks@[j]@,
            forall|r: int|
                0 <= r < reaped@.len() ==> exists|j: int|
                    0 <= j < i && (#[trigger] ks@[j])@ == (#[trigger] reaped@[r])@,
            forall|a: int, b: int|
                0 <= a < reaped@.len() && 0 <= b < reaped@.len() && a != b ==> (
                #[trigger] reaped@[a])@ != (#[trigger] reaped@[b])@,
        decreases ks@.len() - i,
    {
        let k = &ks[i];
        let at: u64 = match map.get(k.as_str()) {
            Some(a) => *a,
            None => 0,
        };
        proof {
            assert(map@.contains_key(k@)) by {
                assert(!exists|j: int| 0 <= j < i && (#[trigger] ks@[j])@ == k@);
            }
        }
        let stale = claim_stale(at, now, limit_secs);
        let ghost reaped_before = reaped@;
        if stale {
            reaped.push(k.clone());
        }
        if stale || !live.contains(k.as_str()) {
            map.remove(k.as_str());
        }
        proof {
            assert forall|k2: Seq<char>|
                #[trigger] map@.contains_key(k2) == (m0.contains_key(k2) && ((live@.contains(k2)
                    && !at_least(m0[k2], now, limit_secs)) || !exists|j: int|
                    0 <= j < i + 1 && (#[trigger] ks@[j])@ == k2)) by {
                if exists|j: int| 0 <= j < i + 1 && (#[trigger] ks@[j])@ == k2 {
                    let j = choose|j: int| 0 <= j < i + 1 && (#[trigger] ks@[j])@ == k2;
                    if j < i {
                        assert(exists|j: int| 0 <= j < i && (#[trigger] ks@[j])@ == k2);
                    }
                } else {
                    assert(!exists|j: int| 0 <= j < i && (#[trigger] ks@[j])@ == k2);
                }
            }
            assert forall|j: int|
                0 <= j < i + 1 && at_least(m0[#[trigger] ks@[j]@], now, limit_secs) implies exists|
                r: int,
            | 0 <= r < reaped@.len() && (#[trigger] reaped@[r])@ == ks@[j]@ by {
                if j == i {
                    assert(reaped@[reaped@.len() - 1]@ == ks@[j]@);
                } else {
                    let r = choose|r: int|
                        0 <= r < reaped_before.len() && (#[trigger] reaped_before[r])@ == ks@[j]@;
                    assert(reaped@[r] == reaped_before[r]);
                }
            }
        }
        proof {
            assert forall|r: int|
                0 <= r < reaped@.len() implies exists|j: int|
                    0 <= j < i + 1 && (#[trigger] ks@[j])@ == (#[trigger] reaped@[r])@ by {
                if r < reaped_before.len() {
                    assert(reaped@[r] == reaped_before[r]);
                    let j = choose|j: int| 0 <= j < i && (#[trigger] ks@[j])@ == reaped_before[r]@;
                    assert(ks@[j]@ == reaped@[r]@);
                } else {
                    assert(ks@[i as int]@ == reaped@[r]@);
                }
            }
            assert forall|a: int, b: int|
                0 <= a < reaped@.len() && 0 <= b < reaped@.len() && a != b implies (
                #[trigger] reaped@[a])@ != (#[trigger] reaped@[b])@ by {
                if a < reaped_before.len() && b < reaped_before.len() {
                    assert(reaped@[a] == reaped_before[a]);
                    assert(reaped@[b] == reaped_before[b]);
                } else if a < reaped_before.len() {
                    assert(reaped@[a] == reaped_before[a]);
                    let j = choose|j: int| 0 <= j < i && (#[trigger] ks@[j])@ == reaped_before[a]@;
                    assert(ks@[j]@ != ks@[i as int]@);
                } else if b < reaped_before.len() {
                    assert(reaped@[b] == reaped_before[b]);
                    let j = choose|j: int| 0 <= j < i && (#[trigger] ks@[j])@ == reaped_before[b]@;
                    assert(ks@[j]@ != ks@[i as int]@);
                }
            }
        }
        i = i + 1;
    }
    proof {
        let keep = live@.intersect(fresh_only(m0, now, limit_secs));
        assert forall|k: Seq<char>| m0.contains_key(k) implies exists|j: int|
            0 <= j < i && (#[trigger] ks@[j])@ == k by {
            let j = choose|j: int| 0 <= j < ks@.len() && (#[trigger] ks@[j])@ == k;
        }
        assert forall|k: Seq<char>|
            m0.contains_key(k) && at_least(m0[k], now, limit_secs) implies exists|r: int|
            0 <= r < reaped@.len() && (#[trigger] reaped@[r])@ == k by {
            let j = choose|j: int| 0 <= j < ks@.len() && (#[trigger] ks@[j])@ == k;
            assert(at_least(m0[ks@[j]@], now, limit_secs));
        }
        assert(map@ =~= m0.restrict(keep));
    }
    reaped
}

} // verus!
