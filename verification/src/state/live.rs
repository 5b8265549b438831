//! The transient working message of each pane: one silent message per
//! pane, edited across turns, owned by the turn that last claimed it;
//! posting is single-flight per pane.
use crate::pane_map::{PaneMap, PaneSet};
use vstd::prelude::*;

verus! {

/// Where a pane's working message lives, what it shows, and which turn
/// owns it.
pub struct LiveSlot {
    pub chat: i64,
    pub thread: Option<i64>,
    pub mid: i64,
    pub text: String,
    pub at: Option<u64>,
    pub turn: u64,
}

/// The slot of `pane` still holds message `mid` of turn `turn`.
pub open spec fn holds(m: Map<Seq<char>, LiveSlot>, pane: Seq<char>, mid: i64, turn: u64) -> bool {
    m.contains_key(pane) && m[pane].mid == mid && m[pane].turn == turn
}

/// The working messages and the panes with a post in flight.
pub struct LiveSlots {
    pub slots: PaneMap<LiveSlot>,
    pub sending: PaneSet,
}

impl LiveSlots {
    /// No working messages, nothing in flight.
    pub fn new() -> (l: Self)
        ensures
            l.slots@ == Map::<Seq<char>, LiveSlot>::empty(),
            l.sending@ == Set::<Seq<char>>::empty(),
    {
        LiveSlots { slots: PaneMap::new(), sending: PaneSet::new() }
    }

    /// The pane's working message, if any.
    pub fn live_get(&self, pane: &str) -> (r: Option<&LiveSlot>)
        ensures
            match r {
                Some(s) => self.slots@.contains_key(pane@) && *s == self.slots@[pane@],
                None => !self.slots@.contains_key(pane@),
            },
    {
        self.slots.get(pane)
    }

    /// Record the pane's working message.
    pub fn live_put(&mut self, pane: &str, slot: LiveSlot)
        ensures
            final(self).slots@ == old(self).slots@.insert(pane@, slot),
            final(self).sending@ == old(self).sending@,
    {
        self.slots.insert(pane, slot);
    }

    /// Take the pane's working message.
    pub fn live_take(&mut self, pane: &str) -> (r: Option<LiveSlot>)
        ensures
            final(self).slots@ == old(self).slots@.remove(pane@),
            final(self).sending@ == old(self).sending@,
            match r {
                Some(s) => old(self).slots@.contains_key(pane@) && s == old(self).slots@[pane@],
                None => !old(self).slots@.contains_key(pane@),
            },
    {
        self.slots.remove(pane)
    }

    /// Compare-and-take: only while the slot still holds message `mid` of
    /// turn `turn` (a successor's message or claim survives).
    pub fn live_take_if(&mut self, pane: &str, mid: i64, turn: u64) -> (r: Option<LiveSlot>)
        ensures
            final(self).sending@ == old(self).sending@,
            if holds(old(self).slots@, pane@, mid, turn) {
                r == Some(old(self).slots@[pane@]) && final(self).slots@ == old(self).slots@.remove(
                    pane@,
                )
            } else {
                r is None && final(self).slots@ == old(self).slots@
            },
    {
        let mine = match self.slots.get(pane) {
            Some(s) => s.mid == mid && s.turn == turn,
            None => false,
        };
        if mine {
            self.slots.remove(pane)
        } else {
            None
        }
    }

    /// Claim the post flight for `pane`: false when a post is already in
    /// flight (the loser skips; its next tick sees the slot).
    pub fn live_claim(&mut self, pane: &str) -> (won: bool)
        ensures
            won == !old(self).sending@.contains(pane@),
            final(self).sending@ == old(self).sending@.insert(pane@),
            final(self).slots@ == old(self).slots@,
    {
        self.sending.insert(pane)
    }

    /// End the pane's post flight.
    pub fn live_unclaim(&mut self, pane: &str)
        ensures
            final(self).sending@ == old(self).sending@.remove(pane@),
            final(self).slots@ == old(self).slots@,
    {
        self.sending.remove(pane);
    }
}

/// A stale turn never takes a successor's message: once another message
/// or turn took the slot, a compare-and-take with the old pair finds
/// nothing to take.
pub proof fn law_stale_turn_spares_successor(
    m: Map<Seq<char>, LiveSlot>,
    pane: Seq<char>,
    succ: LiveSlot,
    mid: i64,
    turn: u64,
)
    requires
        succ.mid != mid || succ.turn != turn,
    ensures
        !holds(m.insert(pane, succ), pane, mid, turn),
{
}

/// Posting is single-flight per pane: after any claim a second claim on
/// the same pane loses until the flight ends, and after the end the next
/// claim wins.
pub proof fn law_post_single_flight(sending: Set<Seq<char>>, pane: Seq<char>)
    ensures
        sending.insert(pane).contains(pane),
        !sending.insert(pane).remove(pane).contains(pane),
{
}

} // verus!
