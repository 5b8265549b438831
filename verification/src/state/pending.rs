//! Durable prompt intents: one slot per pane records the prompt owed a
//! reply (who asked, where, what, when). Waiters only serve and clear
//! their own intent; restores go through check-and-set so a submit that
//! raced in is never overwritten.
use crate::pane_map::{PaneMap, PaneSet};
use crate::text::str_eq;
use vstd::prelude::*;

verus! {

/// A prompt owed a reply.
#[derive(Clone, Debug)]
pub struct PendingPrompt {
    pub chat: i64,
    pub thread: Option<i64>,
    pub prompt: String,
    pub started_unix: u64,
}

/// What a pending prompt says.
pub struct PromptView {
    pub chat: i64,
    pub thread: Option<i64>,
    pub prompt: Seq<char>,
    pub started_unix: u64,
}

impl View for PendingPrompt {
    type V = PromptView;

    open spec fn view(&self) -> PromptView {
        PromptView {
            chat: self.chat,
            thread: self.thread,
            prompt: self.prompt@,
            started_unix: self.started_unix,
        }
    }
}

/// The submit identity of an intent: (chat, thread, prompt).
pub type Triple<'a> = (i64, Option<i64>, &'a str);

/// The intent `v` is the submit (`chat`, `thread`, `prompt`).
pub open spec fn is_triple(v: PromptView, chat: i64, thread: Option<i64>, prompt: Seq<char>) -> bool {
    v.chat == chat && v.thread == thread && v.prompt == prompt
}

/// The slot of `pane` holds the submit (`chat`, `thread`, `prompt`).
pub open spec fn slot_is(
    m: Map<Seq<char>, PromptView>,
    pane: Seq<char>,
    chat: i64,
    thread: Option<i64>,
    prompt: Seq<char>,
) -> bool {
    m.contains_key(pane) && is_triple(m[pane], chat, thread, prompt)
}

/// Check-and-set outcome: `None` when refused; otherwise the new book.
/// A vacant slot (when allowed) takes `set` stamped `started` or `now`;
/// a slot still holding `check` takes `set` and keeps its own stamp.
pub open spec fn cas_outcome(
    m: Map<Seq<char>, PromptView>,
    pane: Seq<char>,
    check: (i64, Option<i64>, Seq<char>),
    set: (i64, Option<i64>, Seq<char>),
    started: Option<u64>,
    now: u64,
    allow_vacant: bool,
) -> Option<Map<Seq<char>, PromptView>> {
    if !m.contains_key(pane) {
        if allow_vacant {
            Some(
                m.insert(
                    pane,
                    PromptView {
                        chat: set.0,
                        thread: set.1,
                        prompt: set.2,
                        started_unix: match started {
                            Some(t) => t,
                            None => now,
                        },
                    },
                ),
            )
        } else {
            None
        }
    } else if is_triple(m[pane], check.0, check.1, check.2) {
        Some(
            m.insert(
                pane,
                PromptView {
                    chat: set.0,
                    thread: set.1,
                    prompt: set.2,
                    started_unix: m[pane].started_unix,
                },
            ),
        )
    } else {
        None
    }
}

fn triple_matches(p: &PendingPrompt, chat: i64, thread: Option<i64>, prompt: &str) -> (r: bool)
    ensures
        r == is_triple(p@, chat, thread, prompt@),
{
    p.chat == chat && p.thread == thread && str_eq(p.prompt.as_str(), prompt)
}

/// Full equality of two intents (stamp included).
pub fn same_intent(a: &PendingPrompt, b: &PendingPrompt) -> (r: bool)
    ensures
        r == (a@ == b@),
{
    a.chat == b.chat && a.thread == b.thread && str_eq(a.prompt.as_str(), b.prompt.as_str())
        && a.started_unix == b.started_unix
}

/// Global-cancel clear rule: clear only a slot that still holds
/// exactly the snapshotted intent — an identical resubmit carries a
/// fresh stamp and survives.
pub fn global_cancel_clears(cur: Option<&PendingPrompt>, snap: &PendingPrompt) -> (r: bool)
    ensures
        r == match cur {
            Some(c) => c@ == snap@,
            None => false,
        },
{
    match cur {
        Some(c) => same_intent(c, snap),
        None => false,
    }
}

/// An intent older than this can no longer be recovered (seconds).
pub const INTENT_STALE_SECS: u64 = 86400;

/// An intent stamped further than this in the future is corrupt
/// (seconds).
pub const INTENT_FUTURE_SECS: u64 = 3600;

/// An intent stamped `started` can still be recovered at `now`: at most
/// a day old and at most an hour in the future.
pub open spec fn recoverable(started: u64, now: u64) -> bool {
    now <= started + INTENT_STALE_SECS && started <= now + INTENT_FUTURE_SECS
}

/// The intents that can still be recovered at `now`.
pub open spec fn recoverable_only(m: Map<Seq<char>, PromptView>, now: u64) -> Map<Seq<char>, PromptView> {
    m.restrict(Set::new(|k: Seq<char>| m.contains_key(k) && recoverable(m[k].started_unix, now)))
}

/// The intent slots of every pane.
pub struct Intents {
    slots: PaneMap<PendingPrompt>,
}

impl View for Intents {
    type V = Map<Seq<char>, PromptView>;

    closed spec fn view(&self) -> Map<Seq<char>, PromptView> {
        self.slots@.map_values(|p: PendingPrompt| p@)
    }
}

impl Intents {
    /// No intents.
    pub fn new() -> (b: Self)
        ensures
            b@ == Map::<Seq<char>, PromptView>::empty(),
    {
        let b = Intents { slots: PaneMap::new() };
        assert(b@ =~= Map::<Seq<char>, PromptView>::empty());
        b
    }

    /// The intent owed on `pane`, if any.
    pub fn get(&self, pane: &str) -> (r: Option<&PendingPrompt>)
        ensures
            match r {
                Some(p) => self@.contains_key(pane@) && p@ == self@[pane@],
                None => !self@.contains_key(pane@),
            },
    {
        self.slots.get(pane)
    }

    /// Whether `pane` owes a reply.
    pub fn contains(&self, pane: &str) -> (b: bool)
        ensures
            b == self@.contains_key(pane@),
    {
        self.slots.contains_key(pane)
    }

    /// Panes that owe a reply, each once.
    pub fn panes(&self) -> (ks: Vec<String>)
        ensures
            forall|i: int| 0 <= i < ks@.len() ==> self@.contains_key(#[trigger] ks@[i]@),
            forall|k: Seq<char>|
                self@.contains_key(k) ==> exists|i: int| 0 <= i < ks@.len() && (#[trigger] ks@[i])@ == k,
            forall|i: int, j: int|
                0 <= i < ks@.len() && 0 <= j < ks@.len() && i != j ==> (#[trigger] ks@[i])@ != (
                #[trigger] ks@[j])@,
    {
        self.slots.keys()
    }

    /// Number of panes owing a reply.
    pub fn len(&self) -> (n: usize)
        ensures
            n == self@.dom().len(),
    {
        let n = self.slots.len();
        assert(self@.dom() =~= self.slots@.dom());
        n
    }

    fn put(&mut self, pane: &str, p: PendingPrompt)
        ensures
            final(self)@ == old(self)@.insert(pane@, p@),
    {
        let ghost pv = p@;
        self.slots.insert(pane, p);
        assert(self@ =~= old(self)@.insert(pane@, pv));
    }

    /// Record a submitted prompt (stamped `now_unix`), replacing any
    /// earlier intent of the pane (last writer wins).
    pub fn remember_pending(
        &mut self,
        pane: &str,
        chat: i64,
        thread: Option<i64>,
        prompt: &str,
        now_unix: u64,
    )
        ensures
            final(self)@ == old(self)@.insert(
                pane@,
                PromptView { chat, thread, prompt: prompt@, started_unix: now_unix },
            ),
    {
        self.put(
            pane,
            PendingPrompt { chat, thread, prompt: prompt.to_owned(), started_unix: now_unix },
        );
    }

    /// Drop the pane's intent; true when one was removed.
    pub fn clear_pending(&mut self, pane: &str) -> (removed: bool)
        ensures
            removed == old(self)@.contains_key(pane@),
            final(self)@ == old(self)@.remove(pane@),
    {
        let r = self.slots.remove(pane);
        assert(self@ =~= old(self)@.remove(pane@));
        r.is_some()
    }

    /// Clear only while the slot still holds this exact submit: a
    /// resubmit that landed in between keeps its intent.
    pub fn clear_pending_if_matches(
        &mut self,
        pane: &str,
        chat: i64,
        thread: Option<i64>,
        prompt: &str,
    ) -> (removed: bool)
        ensures
            removed == slot_is(old(self)@, pane@, chat, thread, prompt@),
            final(self)@ == if removed {
                old(self)@.remove(pane@)
            } else {
                old(self)@
            },
    {
        if !self.pending_matches(pane, chat, thread, prompt) {
            return false;
        }
        self.clear_pending(pane)
    }

    /// Drop every intent that can no longer be recovered at `now_unix`
    /// (more than a day old, or more than an hour in the future), on
    /// live and dead panes alike. True when any was dropped.
    pub fn retain_recoverable(&mut self, now_unix: u64) -> (changed: bool)
        ensures
            final(self)@ == recoverable_only(old(self)@, now_unix),
            changed == (final(self)@.dom() != old(self)@.dom()),
    {
        let ks = self.slots.keys();
        let mut keep = PaneSet::new();
        let mut dropped = false;
        let mut i: usize = 0;
        while i < ks.len()
            invariant
                i <= ks@.len(),
                self@ == old(self)@,
                dropped == exists|j: int|
                    0 <= j < i && !recoverable(self@[#[trigger] ks@[j]@].started_unix, now_unix),
                forall|j: int| 0 <= j < ks@.len() ==> self@.contains_key(#[trigger] ks@[j]@),
                forall|k: Seq<char>|
                    #[trigger] keep@.contains(k) == exists|j: int|
                        0 <= j < i && (#[trigger] ks@[j])@ == k && recoverable(
                            self@[k].started_unix,
                            now_unix,
                        ),
            decreases ks@.len() - i,
        {
            let ok = match self.slots.get(ks[i].as_str()) {
                Some(p) => (now_unix as u128) <= (p.started_unix as u128) + (INTENT_STALE_SECS as u128)
                    && (p.started_unix as u128) <= (now_unix as u128) + (INTENT_FUTURE_SECS as u128),
                None => false,
            };
            let ghost k0 = keep@;
            let ghost d0 = dropped;
            if ok {
                keep.insert(ks[i].as_str());
            } else {
                dropped = true;
            }
            proof {
                assert(self@.contains_key(ks@[i as int]@));
                if d0 {
                    let j = choose|j: int|
                        0 <= j < i && !recoverable(self@[#[trigger] ks@[j]@].started_unix, now_unix);
                }
                assert(dropped == exists|j: int|
                    0 <= j < i + 1 && !recoverable(self@[#[trigger] ks@[j]@].started_unix, now_unix));
                assert forall|k: Seq<char>|
                    #[trigger] keep@.contains(k) == exists|j: int|
                        0 <= j < i + 1 && (#[trigger] ks@[j])@ == k && recoverable(
                            self@[k].started_unix,
                            now_unix,
                        ) by {
                    if exists|j: int|
                        0 <= j < i + 1 && (#[trigger] ks@[j])@ == k && recoverable(
                            self@[k].started_unix,
                            now_unix,
                        ) {
                        let j = choose|j: int|
                            0 <= j < i + 1 && (#[trigger] ks@[j])@ == k && recoverable(
                                self@[k].started_unix,
                                now_unix,
                            );
                        if j < i {
                            assert(k0.contains(k));
                        }
                    }
                    if k0.contains(k) {
                        let j = choose|j: int|
                            0 <= j < i && (#[trigger] ks@[j])@ == k && recoverable(
                                self@[k].started_unix,
                                now_unix,
                            );
                    }
                }
            }
            i = i + 1;
        }
        self.slots.retain_keys(&keep);
        proof {
            let r = recoverable_only(old(self)@, now_unix);
            assert forall|k: Seq<char>| (#[trigger] keep@.contains(k) && old(self)@.contains_key(k)) == (
            old(self)@.contains_key(k) && recoverable(old(self)@[k].started_unix, now_unix)) by {
                if old(self)@.contains_key(k) {
                    let j = choose|j: int| 0 <= j < ks@.len() && (#[trigger] ks@[j])@ == k;
                }
            }
            assert(self@ =~= r);
            if dropped {
                let j = choose|j: int|
                    0 <= j < ks@.len() && !recoverable(old(self)@[#[trigger] ks@[j]@].started_unix, now_unix);
                assert(!self@.dom().contains(ks@[j]@));
                assert(old(self)@.dom().contains(ks@[j]@));
            } else {
                assert forall|k: Seq<char>| old(self)@.contains_key(k) implies recoverable(
                    old(self)@[k].started_unix,
                    now_unix,
                ) by {
                    let j = choose|j: int| 0 <= j < ks@.len() && (#[trigger] ks@[j])@ == k;
                }
                assert(self@.dom() =~= old(self)@.dom());
            }
        }
        dropped
    }

    /// A copy of the intents as they stand (the snapshot a global cancel
    /// clears against).
    pub fn snapshot(&self) -> (c: Intents)
        ensures
            c@ == self@,
    {
        let ks = self.slots.keys();
        let mut c = Intents::new();
        let mut i: usize = 0;
        while i < ks.len()
            invariant
                i <= ks@.len(),
                forall|j: int| 0 <= j < ks@.len() ==> self@.contains_key(#[trigger] ks@[j]@),
                forall|k: Seq<char>|
                    #[trigger] c@.contains_key(k) == exists|j: int| 0 <= j < i && (#[trigger] ks@[j])@ == k,
                forall|k: Seq<char>| #[trigger] c@.contains_key(k) ==> c@[k] == self@[k],
            decreases ks@.len() - i,
        {
            let k = &ks[i];
            match self.slots.get(k.as_str()) {
                Some(p) => {
                    let q = PendingPrompt {
                        chat: p.chat,
                        thread: p.thread,
                        prompt: p.prompt.clone(),
                        started_unix: p.started_unix,
                    };
                    let ghost c0 = c@;
                    c.put(k.as_str(), q);
                    proof {
                        assert forall|k2: Seq<char>|
                            #[trigger] c@.contains_key(k2) == exists|j: int|
                                0 <= j < i + 1 && (#[trigger] ks@[j])@ == k2 by {
                            if exists|j: int| 0 <= j < i + 1 && (#[trigger] ks@[j])@ == k2 {
                                let j = choose|j: int| 0 <= j < i + 1 && (#[trigger] ks@[j])@ == k2;
                                if j < i {
                                    assert(c0.contains_key(k2));
                                }
                            }
                            if c0.contains_key(k2) {
                                let j = choose|j: int| 0 <= j < i && (#[trigger] ks@[j])@ == k2;
                            }
                        }
                    }
                },
                None => {},
            }
            i = i + 1;
        }
        proof {
            assert forall|k: Seq<char>| self@.contains_key(k) implies c@.contains_key(k) by {
                let j = choose|j: int| 0 <= j < ks@.len() && (#[trigger] ks@[j])@ == k;
            }
            assert(c@ =~= self@);
        }
        c
    }

    /// Drop every intent; true when there was any.
    pub fn clear_all_pending(&mut self) -> (changed: bool)
        ensures
            changed == (old(self)@.dom().len() > 0),
            final(self)@ == Map::<Seq<char>, PromptView>::empty(),
    {
        let n = self.len();
        self.slots.clear();
        assert(self@ =~= Map::<Seq<char>, PromptView>::empty());
        n > 0
    }

    /// The slot still belongs to this exact submit.
    pub fn pending_matches(&self, pane: &str, chat: i64, thread: Option<i64>, prompt: &str) -> (r:
        bool)
        ensures
            r == slot_is(self@, pane@, chat, thread, prompt@),
    {
        match self.slots.get(pane) {
            Some(p) => triple_matches(p, chat, thread, prompt),
            None => false,
        }
    }

    /// Stamp-pinned match: the triple AND the original stamp (tells an
    /// identical re-prompt apart from the owed turn).
    pub fn pending_matches_stamp(
        &self,
        pane: &str,
        chat: i64,
        thread: Option<i64>,
        prompt: &str,
        started_unix: u64,
    ) -> (r: bool)
        ensures
            r == (slot_is(self@, pane@, chat, thread, prompt@) && self@[pane@].started_unix
                == started_unix),
    {
        match self.slots.get(pane) {
            Some(p) => triple_matches(p, chat, thread, prompt) && p.started_unix == started_unix,
            None => false,
        }
    }

    fn remember_pending_cas_inner(
        &mut self,
        pane: &str,
        check: Triple,
        set: Triple,
        started_unix: Option<u64>,
        now_unix: u64,
        allow_vacant: bool,
    ) -> (written: bool)
        ensures
            match cas_outcome(
                old(self)@,
                pane@,
                (check.0, check.1, check.2@),
                (set.0, set.1, set.2@),
                started_unix,
                now_unix,
                allow_vacant,
            ) {
                Some(m) => written && final(self)@ == m,
                None => !written && final(self)@ == old(self)@,
            },
    {
        let started: u64 = match self.slots.get(pane) {
            None => {
                if !allow_vacant {
                    return false;
                }
                match started_unix {
                    Some(t) => t,
                    None => now_unix,
                }
            },
            Some(p) => {
                if !triple_matches(p, check.0, check.1, check.2) {
                    return false;
                }
                p.started_unix
            },
        };
        self.put(
            pane,
            PendingPrompt {
                chat: set.0,
                thread: set.1,
                prompt: set.2.to_owned(),
                started_unix: started,
            },
        );
        true
    }

    /// Check-and-set remember: write `set` only when the slot is vacant
    /// (stamped `now_unix`) or still holds `check` (keeping the live
    /// stamp). True when written.
    pub fn remember_pending_cas(&mut self, pane: &str, check: Triple, set: Triple, now_unix: u64) -> (
        written: bool)
        ensures
            match cas_outcome(
                old(self)@,
                pane@,
                (check.0, check.1, check.2@),
                (set.0, set.1, set.2@),
                None,
                now_unix,
                true,
            ) {
                Some(m) => written && final(self)@ == m,
                None => !written && final(self)@ == old(self)@,
            },
    {
        self.remember_pending_cas_inner(pane, check, set, None, now_unix, true)
    }

    /// Check-and-set restore: write `set` only when the slot is vacant
    /// (stamped `started_unix`, else `now_unix`) or still holds `check`
    /// (keeping the live stamp). True when written.
    pub fn remember_pending_cas_with_time(
        &mut self,
        pane: &str,
        check: Triple,
        set: Triple,
        started_unix: Option<u64>,
        now_unix: u64,
    ) -> (written: bool)
        ensures
            match cas_outcome(
                old(self)@,
                pane@,
                (check.0, check.1, check.2@),
                (set.0, set.1, set.2@),
                started_unix,
                now_unix,
                true,
            ) {
                Some(m) => written && final(self)@ == m,
                None => !written && final(self)@ == old(self)@,
            },
    {
        self.remember_pending_cas_inner(pane, check, set, started_unix, now_unix, true)
    }

    /// Migration-only variant: rewrite an occupied slot that still
    /// holds `check`; a vacant slot (cancelled or settled) is never
    /// resurrected.
    pub fn migrate_pending_cas(&mut self, pane: &str, check: Triple, set: Triple) -> (written:
        bool)
        ensures
            match cas_outcome(
                old(self)@,
                pane@,
                (check.0, check.1, check.2@),
                (set.0, set.1, set.2@),
                None,
                0,
                false,
            ) {
                Some(m) => written && final(self)@ == m,
                None => !written && final(self)@ == old(self)@,
            },
    {
        self.remember_pending_cas_inner(pane, check, set, None, 0, false)
    }

    /// Clear only when the slot still holds what the caller saw at entry
    /// (a submit racing a no-job cancel owns the changed slot). True
    /// when an intent was removed.
    pub fn clear_pending_if_unchanged(&mut self, pane: &str, old_seen: Option<&PendingPrompt>) -> (
        removed: bool)
        ensures
            removed == (old(self)@.contains_key(pane@) && match old_seen {
                Some(o) => old(self)@[pane@] == o@,
                None => false,
            }),
            final(self)@ == if removed {
                old(self)@.remove(pane@)
            } else {
                old(self)@
            },
    {
        let unchanged = match (self.slots.get(pane), old_seen) {
            (None, None) => true,
            (Some(c), Some(o)) => same_intent(c, o),
            _ => false,
        };
        if !unchanged {
            return false;
        }
        self.clear_pending(pane)
    }

    /// Global-cancel clear: drop every slot that still holds exactly the
    /// intent of the snapshot `snap` (stamp included); anything that
    /// changed since the snapshot survives. Returns the cleared panes.
    pub fn clear_matching_snapshot(&mut self, snap: &Intents) -> (cleared: Vec<String>)
        ensures
            forall|k: Seq<char>|
                #[trigger] final(self)@.contains_key(k) == (old(self)@.contains_key(k) && !(
                snap@.contains_key(k) && old(self)@[k] == snap@[k])),
            forall|k: Seq<char>| #[trigger] final(self)@.contains_key(k) ==> final(self)@[k] == old(self)@[k],
            forall|i: int|
                0 <= i < cleared@.len() ==> old(self)@.contains_key(#[trigger] cleared@[i]@)
                    && snap@.contains_key(cleared@[i]@) && old(self)@[cleared@[i]@]
                    == snap@[cleared@[i]@],
            forall|k: Seq<char>|
                old(self)@.contains_key(k) && snap@.contains_key(k) && old(self)@[k] == snap@[k]
                    ==> exists|i: int| 0 <= i < cleared@.len() && (#[trigger] cleared@[i])@ == k,
    {
        let ghost m0 = self@;
        let ks = snap.panes();
        let mut cleared: Vec<String> = Vec::new();
        let mut i: usize = 0;
        while i < ks.len()
            invariant
                i <= ks@.len(),
                forall|j: int| 0 <= j < ks@.len() ==> snap@.contains_key(#[trigger] ks@[j]@),
                forall|k: Seq<char>|
                    snap@.contains_key(k) ==> exists|j: int| 0 <= j < ks@.len() && (#[trigger] ks@[j])@ == k,
                forall|a: int, b: int|
                    0 <= a < ks@.len() && 0 <= b < ks@.len() && a != b ==> (#[trigger] ks@[a])@ != (
                    #[trigger] ks@[b])@,
                forall|k: Seq<char>|
                    #[trigger] self@.contains_key(k) == (m0.contains_key(k) && !(snap@.contains_key(k)
                        && m0[k] == snap@[k] && exists|j: int| 0 <= j < i && (#[trigger] ks@[j])@ == k)),
                forall|k: Seq<char>| #[trigger] self@.contains_key(k) ==> self@[k] == m0[k],
                forall|j: int|
                    0 <= j < cleared@.len() ==> m0.contains_key(#[trigger] cleared@[j]@)
                        && snap@.contains_key(cleared@[j]@) && m0[cleared@[j]@] == snap@[cleared@[j]@],
                forall|j: int|
                    0 <= j < i && m0.contains_key(#[trigger] ks@[j]@) && m0[ks@[j]@] == snap@[ks@[j]@]
                        ==> exists|r: int| 0 <= r < cleared@.len() && (#[trigger] cleared@[r])@ == ks@[j]@,
            decreases ks@.len() - i,
        {
            let k = &ks[i];
            let hit = match (self.slots.get(k.as_str()), snap.get(k.as_str())) {
                (Some(c), Some(o)) => same_intent(c, o),
                _ => false,
            };
            let ghost before = cleared@;
            proof {
                assert(!exists|j2: int| 0 <= j2 < i && (#[trigger] ks@[j2])@ == k@);
                if m0.contains_key(k@) && m0[k@] == snap@[k@] {
                    assert(self@.contains_key(k@));
                    assert(hit);
                }
            }
            if hit {
                self.clear_pending(k.as_str());
                cleared.push(k.clone());
            }
            proof {
                assert forall|k2: Seq<char>|
                    #[trigger] self@.contains_key(k2) == (m0.contains_key(k2) && !(snap@.contains_key(k2)
                        && m0[k2] == snap@[k2] && exists|j: int| 0 <= j < i + 1 && (#[trigger] ks@[j])@ == k2)) by {
                    if exists|j: int| 0 <= j < i + 1 && (#[trigger] ks@[j])@ == k2 {
                        let j = choose|j: int| 0 <= j < i + 1 && (#[trigger] ks@[j])@ == k2;
                        if j < i {
                            assert(exists|j: int| 0 <= j < i && (#[trigger] ks@[j])@ == k2);
                        }
                    } else {
                        assert(!exists|j: int| 0 <= j < i && (#[trigger] ks@[j])@ == k2);
                    }
                }
                assert forall|j: int|
                    0 <= j < i + 1 && m0.contains_key(#[trigger] ks@[j]@) && m0[ks@[j]@] == snap@[ks@[j]@]
                        implies exists|r: int| 0 <= r < cleared@.len() && (#[trigger] cleared@[r])@ == ks@[j]@ by {
                    if j == i {
                        assert(cleared@[cleared@.len() - 1]@ == ks@[j]@);
                    } else {
                        let r = choose|r: int| 0 <= r < before.len() && (#[trigger] before[r])@ == ks@[j]@;
                        assert(cleared@[r] == before[r]);
                    }
                }
            }
            i = i + 1;
        }
        proof {
            assert forall|k: Seq<char>| snap@.contains_key(k) implies exists|j: int|
                0 <= j < i && (#[trigger] ks@[j])@ == k by {
                let j = choose|j: int| 0 <= j < ks@.len() && (#[trigger] ks@[j])@ == k;
            }
            assert forall|k: Seq<char>|
                m0.contains_key(k) && snap@.contains_key(k) && m0[k] == snap@[k] implies exists|r: int|
                0 <= r < cleared@.len() && (#[trigger] cleared@[r])@ == k by {
                let j = choose|j: int| 0 <= j < ks@.len() && (#[trigger] ks@[j])@ == k;
                assert(m0.contains_key(ks@[j]@));
            }
        }
        cleared
    }
}

/// A remembered intent matches its own submit, and clearing by that
/// submit removes it.
pub proof fn law_remember_then_match_and_clear(
    m: Map<Seq<char>, PromptView>,
    pane: Seq<char>,
    chat: i64,
    thread: Option<i64>,
    prompt: Seq<char>,
    now_unix: u64,
)
    ensures
        slot_is(
            m.insert(pane, PromptView { chat, thread, prompt, started_unix: now_unix }),
            pane,
            chat,
            thread,
            prompt,
        ),
        !m.insert(pane, PromptView { chat, thread, prompt, started_unix: now_unix }).remove(
            pane,
        ).contains_key(pane),
{
}

/// Check-and-set never clobbers a foreign intent: a slot holding some
/// other submit than the checked one is refused and left as it was.
pub proof fn law_cas_never_clobbers_foreign(
    m: Map<Seq<char>, PromptView>,
    pane: Seq<char>,
    check: (i64, Option<i64>, Seq<char>),
    set: (i64, Option<i64>, Seq<char>),
    started: Option<u64>,
    now: u64,
    allow_vacant: bool,
)
    requires
        m.contains_key(pane),
        !is_triple(m[pane], check.0, check.1, check.2),
    ensures
        cas_outcome(m, pane, check, set, started, now, allow_vacant) is None,
{
}

/// A migration never resurrects a vacant slot: a cleared intent stays
/// cleared.
pub proof fn law_migrate_never_resurrects_vacant(
    m: Map<Seq<char>, PromptView>,
    pane: Seq<char>,
    check: (i64, Option<i64>, Seq<char>),
    set: (i64, Option<i64>, Seq<char>),
)
    requires
        !m.contains_key(pane),
    ensures
        cas_outcome(m, pane, check, set, None, 0, false) is None,
{
}

/// A restore onto the still-held submit keeps the live slot's original
/// stamp (the caller's stamp is used only to refill a vacant slot), and
/// touches no other pane.
pub proof fn law_cas_keeps_live_stamp(
    m: Map<Seq<char>, PromptView>,
    pane: Seq<char>,
    check: (i64, Option<i64>, Seq<char>),
    set: (i64, Option<i64>, Seq<char>),
    started: Option<u64>,
    now: u64,
)
    requires
        m.contains_key(pane),
        is_triple(m[pane], check.0, check.1, check.2),
    ensures
        cas_outcome(m, pane, check, set, started, now, true) matches Some(n) && n[pane].started_unix
            == m[pane].started_unix && is_triple(n[pane], set.0, set.1, set.2) && n.remove(pane)
            == m.remove(pane),
{
    let n = cas_outcome(m, pane, check, set, started, now, true).unwrap();
    assert(n.remove(pane) =~= m.remove(pane));
}

} // verus!
