//! Shell submit generations: one submit, one generation, so a settle
//! serves (and clears) only its own submit even when an identical
//! command was re-sent.
use crate::pane_map::{PaneMap, PaneSet};
use crate::state::pending::{slot_is, Intents};
use vstd::prelude::*;

verus! {

/// Generation after `n` (wrapping).
pub open spec fn next_gen(n: u64) -> u64 {
    if n == u64::MAX {
        0
    } else {
        (n + 1) as u64
    }
}

/// Latest shell submit generation per pane.
pub struct ShellGen {
    gens: PaneMap<u64>,
}

impl View for ShellGen {
    type V = Map<Seq<char>, u64>;

    closed spec fn view(&self) -> Map<Seq<char>, u64> {
        self.gens@
    }
}

impl ShellGen {
    /// No generations yet.
    pub fn new() -> (g: Self)
        ensures
            g@ == Map::<Seq<char>, u64>::empty(),
    {
        ShellGen { gens: PaneMap::new() }
    }

    /// Start a new submit generation for `pane` (0 → 1 on first use).
    pub fn bump_shell_epoch(&mut self, pane: &str) -> (n: u64)
        ensures
            n == next_gen(if old(self)@.contains_key(pane@) {
                old(self)@[pane@]
            } else {
                0
            }),
            final(self)@ == old(self)@.insert(pane@, n),
    {
        let cur: u64 = match self.gens.get(pane) {
            Some(n) => *n,
            None => 0,
        };
        let n = if cur == u64::MAX {
            0
        } else {
            cur + 1
        };
        self.gens.insert(pane, n);
        n
    }

    /// `epoch` is still the pane's latest submit.
    pub fn shell_epoch_is(&self, pane: &str, epoch: u64) -> (r: bool)
        ensures
            r == (self@.contains_key(pane@) && self@[pane@] == epoch),
    {
        match self.gens.get(pane) {
            Some(n) => *n == epoch,
            None => false,
        }
    }

    /// Keep only the generations of live panes.
    pub fn retain_panes(&mut self, live: &PaneSet)
        ensures
            final(self)@ == old(self)@.restrict(live@),
    {
        self.gens.retain_keys(live);
    }

    /// Forget a pane's generation (pane gone).
    pub fn remove(&mut self, pane: &str)
        ensures
            final(self)@ == old(self)@.remove(pane@),
    {
        self.gens.remove(pane);
    }
}

/// Clear the shell intent only for our own generation and our own
/// submit: a resubmit racing the send owns the slot, even byte-identical.
pub fn clear_shell_if_matches(
    gens: &ShellGen,
    intents: &mut Intents,
    pane: &str,
    chat: i64,
    thread: Option<i64>,
    prompt: &str,
    epoch: u64,
) -> (removed: bool)
    ensures
        removed == (gens@.contains_key(pane@) && gens@[pane@] == epoch && slot_is(
            old(intents)@,
            pane@,
            chat,
            thread,
            prompt@,
        )),
        final(intents)@ == if removed {
            old(intents)@.remove(pane@)
        } else {
            old(intents)@
        },
{
    if !gens.shell_epoch_is(pane, epoch) {
        return false;
    }
    intents.clear_pending_if_matches(pane, chat, thread, prompt)
}

/// A new submit owns the slot: once the pane's generation is bumped, the
/// previous submit's generation is no longer current, so its settle can
/// no longer clear the intent, even for a byte-identical command.
pub proof fn law_bump_retires_previous_generation(gens: Map<Seq<char>, u64>, pane: Seq<char>)
    requires
        gens.contains_key(pane),
    ensures
        ({
            let n = next_gen(gens[pane]);
            &&& gens.insert(pane, n)[pane] == n
            &&& gens.insert(pane, n)[pane] != gens[pane]
        }),
{
}

} // verus!
