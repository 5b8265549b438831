//! Armed input waiters: the next message in a chat (and topic) is routed
//! as raw keys, typed input or a shell command to the pane (or
//! workspace) that armed it. One waiter per chat and topic; each carries
//! its arm instant for age expiry.
use crate::clock::at_least;
use crate::pane_map::PaneSet;
use crate::text::str_eq;
use vstd::prelude::*;

verus! {

/// One armed waiter: chat, topic, target, arm instant.
#[derive(Clone, Debug)]
pub struct Waiter {
    pub chat: i64,
    pub thread: Option<i64>,
    pub target: String,
    pub at: u64,
}

/// What a waiter says.
pub struct WaiterView {
    pub chat: i64,
    pub thread: Option<i64>,
    pub target: Seq<char>,
    pub at: u64,
}

impl View for Waiter {
    type V = WaiterView;

    open spec fn view(&self) -> WaiterView {
        WaiterView { chat: self.chat, thread: self.thread, target: self.target@, at: self.at }
    }
}

fn copy_waiter(w: &Waiter) -> (c: Waiter)
    ensures
        c@ == w@,
{
    Waiter { chat: w.chat, thread: w.thread, target: w.target.clone(), at: w.at }
}

/// Waiters that do not target `target`.
pub open spec fn not_target(target: Seq<char>) -> spec_fn(WaiterView) -> bool {
    |w: WaiterView| w.target != target
}

/// Waiters that are not armed in (`chat`, `thread`).
pub open spec fn not_chat(chat: i64, thread: Option<i64>) -> spec_fn(WaiterView) -> bool {
    |w: WaiterView| !(w.chat == chat && w.thread == thread)
}

/// Waiters whose target is in `live`.
pub open spec fn target_in(live: Set<Seq<char>>) -> spec_fn(WaiterView) -> bool {
    |w: WaiterView| live.contains(w.target)
}

/// Waiters still younger than `limit_secs` at `now`.
pub open spec fn fresh_waiter(now: u64, limit_secs: u64) -> spec_fn(WaiterView) -> bool {
    |w: WaiterView| !at_least(w.at, now, limit_secs)
}

/// The armed waiters of one kind, oldest arm first.
pub struct Waiters {
    items: Vec<Waiter>,
}

impl View for Waiters {
    type V = Seq<WaiterView>;

    closed spec fn view(&self) -> Seq<WaiterView> {
        self.items@.map_values(|w: Waiter| w@)
    }
}

impl Waiters {
    /// No waiter armed.
    pub fn new() -> (w: Self)
        ensures
            w@ == Seq::<WaiterView>::empty(),
    {
        let w = Waiters { items: Vec::new() };
        assert(w@ =~= Seq::<WaiterView>::empty());
        w
    }

    /// Number of armed waiters.
    pub fn len(&self) -> (n: usize)
        ensures
            n == self@.len(),
    {
        self.items.len()
    }

    /// Disarm every waiter.
    pub fn clear(&mut self)
        ensures
            final(self)@ == Seq::<WaiterView>::empty(),
    {
        self.items = Vec::new();
        assert(self@ =~= Seq::<WaiterView>::empty());
    }

    /// Disarm the waiters that target `target` (a dead pane).
    pub fn drop_target(&mut self, target: &str)
        ensures
            final(self)@ == old(self)@.filter(not_target(target@)),
    {
        let ghost keep = not_target(target@);
        let ghost s0 = self@;
        let mut kept: Vec<Waiter> = Vec::new();
        let mut i: usize = 0;
        while i < self.items.len()
            invariant
                i <= self.items@.len(),
                s0 == self.items@.map_values(|w: Waiter| w@),
                keep == not_target(target@),
                kept@.map_values(|w: Waiter| w@) == s0.take(i as int).filter(keep),
            decreases self.items@.len() - i,
        {
            proof {
                assert(s0.take(i + 1) =~= s0.take(i as int).push(s0[i as int]));
                s0.take(i as int).lemma_filter_push(s0[i as int], keep);
            }
            if !str_eq(self.items[i].target.as_str(), target) {
                kept.push(copy_waiter(&self.items[i]));
                assert(kept@.map_values(|w: Waiter| w@) =~= s0.take(i as int).filter(keep).push(
                    s0[i as int],
                ));
            }
            i = i + 1;
        }
        assert(s0.take(self.items@.len() as int) =~= s0);
        self.items = kept;
    }

    /// Disarm the waiter of (`chat`, `thread`), if any.
    pub fn disarm(&mut self, chat: i64, thread: Option<i64>)
        ensures
            final(self)@ == old(self)@.filter(not_chat(chat, thread)),
    {
        let ghost keep = not_chat(chat, thread);
        let ghost s0 = self@;
        let mut kept: Vec<Waiter> = Vec::new();
        let mut i: usize = 0;
        while i < self.items.len()
            invariant
                i <= self.items@.len(),
                s0 == self.items@.map_values(|w: Waiter| w@),
                keep == not_chat(chat, thread),
                kept@.map_values(|w: Waiter| w@) == s0.take(i as int).filter(keep),
            decreases self.items@.len() - i,
        {
            proof {
                assert(s0.take(i + 1) =~= s0.take(i as int).push(s0[i as int]));
                s0.take(i as int).lemma_filter_push(s0[i as int], keep);
            }
            if !(self.items[i].chat == chat && self.items[i].thread == thread) {
                kept.push(copy_waiter(&self.items[i]));
                assert(kept@.map_values(|w: Waiter| w@) =~= s0.take(i as int).filter(keep).push(
                    s0[i as int],
                ));
            }
            i = i + 1;
        }
        assert(s0.take(self.items@.len() as int) =~= s0);
        self.items = kept;
    }

    /// Arm a waiter in (`chat`, `thread`), replacing the one armed there.
    pub fn arm(&mut self, chat: i64, thread: Option<i64>, target: &str, at: u64)
        ensures
            final(self)@ == old(self)@.filter(not_chat(chat, thread)).push(
                WaiterView { chat, thread, target: target@, at },
            ),
    {
        self.disarm(chat, thread);
        let ghost s1 = self@;
        self.items.push(Waiter { chat, thread, target: target.to_owned(), at });
        assert(self@ =~= s1.push(WaiterView { chat, thread, target: target@, at }));
    }

    /// Target and arm instant of the waiter of (`chat`, `thread`), if any
    /// (the latest armed there).
    pub fn get(&self, chat: i64, thread: Option<i64>) -> (r: Option<(String, u64)>)
        ensures
            match r {
                Some((t, at)) => exists|i: int|
                    0 <= i < self@.len() && (#[trigger] self@[i]).chat == chat && self@[i].thread
                        == thread && self@[i].target == t@ && self@[i].at == at,
                None => forall|i: int|
                    0 <= i < self@.len() ==> !((#[trigger] self@[i]).chat == chat && self@[i].thread
                        == thread),
            },
    {
        let mut i: usize = self.items.len();
        while i > 0
            invariant
                i <= self@.len(),
                self@.len() == self.items@.len(),
                forall|j: int|
                    i <= j < self@.len() ==> !((#[trigger] self@[j]).chat == chat && self@[j].thread
                        == thread),
            decreases i,
        {
            let w = &self.items[i - 1];
            if w.chat == chat && w.thread == thread {
                proof {
                    assert(self@[i - 1] == self.items@[i - 1]@);
                }
                return Some((w.target.clone(), w.at));
            }
            i = i - 1;
        }
        None
    }

    /// Expire the waiters that are at least `limit_secs` old at `now`.
    pub fn expire(&mut self, now: u64, limit_secs: u64)
        ensures
            final(self)@ == old(self)@.filter(fresh_waiter(now, limit_secs)),
    {
        let ghost keep = fresh_waiter(now, limit_secs);
        let ghost s0 = self@;
        let mut kept: Vec<Waiter> = Vec::new();
        let mut i: usize = 0;
        while i < self.items.len()
            invariant
                i <= self.items@.len(),
                s0 == self.items@.map_values(|w: Waiter| w@),
                keep == fresh_waiter(now, limit_secs),
                kept@.map_values(|w: Waiter| w@) == s0.take(i as int).filter(keep),
            decreases self.items@.len() - i,
        {
            proof {
                assert(s0.take(i + 1) =~= s0.take(i as int).push(s0[i as int]));
                s0.take(i as int).lemma_filter_push(s0[i as int], keep);
            }
            if !crate::clock::aged(self.items[i].at, now, limit_secs) {
                kept.push(copy_waiter(&self.items[i]));
                assert(kept@.map_values(|w: Waiter| w@) =~= s0.take(i as int).filter(keep).push(
                    s0[i as int],
                ));
            }
            i = i + 1;
        }
        assert(s0.take(self.items@.len() as int) =~= s0);
        self.items = kept;
    }

    /// The targets of the armed waiters, in arm order.
    pub fn targets(&self) -> (ts: Vec<String>)
        ensures
            ts@.len() == self@.len(),
            forall|i: int| 0 <= i < ts@.len() ==> (#[trigger] ts@[i])@ == self@[i].target,
    {
        let mut ts: Vec<String> = Vec::new();
        let mut i: usize = 0;
        while i < self.items.len()
            invariant
                i <= self.items@.len(),
                ts@.len() == i,
                forall|j: int| 0 <= j < i ==> (#[trigger] ts@[j])@ == self.items@[j].target@,
            decreases self.items@.len() - i,
        {
            ts.push(self.items[i].target.clone());
            i = i + 1;
        }
        ts
    }

    /// Keep only the waiters whose target is in `live` (pane-bound
    /// waiters of dead panes die with them).
    pub fn keep_targets(&mut self, live: &PaneSet)
        ensures
            final(self)@ == old(self)@.filter(target_in(live@)),
    {
        let ghost keep = target_in(live@);
        let ghost s0 = self@;
        let mut kept: Vec<Waiter> = Vec::new();
        let mut i: usize = 0;
        while i < self.items.len()
            invariant
                i <= self.items@.len(),
                s0 == self.items@.map_values(|w: Waiter| w@),
                keep == target_in(live@),
                kept@.map_values(|w: Waiter| w@) == s0.take(i as int).filter(keep),
            decreases self.items@.len() - i,
        {
            proof {
                assert(s0.take(i + 1) =~= s0.take(i as int).push(s0[i as int]));
                s0.take(i as int).lemma_filter_push(s0[i as int], keep);
            }
            if live.contains(self.items[i].target.as_str()) {
                kept.push(copy_waiter(&self.items[i]));
                assert(kept@.map_values(|w: Waiter| w@) =~= s0.take(i as int).filter(keep).push(
                    s0[i as int],
                ));
            }
            i = i + 1;
        }
        assert(s0.take(self.items@.len() as int) =~= s0);
        self.items = kept;
    }
}

} // verus!
