//! Single flight for the watchdog reconcile scan: the periodic tick and
//! the reconnect scan never run a full scan at the same time; the loser
//! skips and the next tick covers.
use crate::order::texts;
use crate::pane_map::PaneSet;
use vstd::prelude::*;

verus! {

/// One claim of the flight: it wins exactly when no scan was running,
/// and a scan is running afterwards.
pub open spec fn began(before: bool, after: bool, won: bool) -> bool {
    won == !before && after
}

/// Whether a reconcile scan is in flight.
pub struct ReconcileFlight {
    busy: bool,
}

impl ReconcileFlight {
    /// A scan is running.
    pub closed spec fn in_flight(&self) -> bool {
        self.busy
    }

    /// No scan running.
    pub fn new() -> (f: Self)
        ensures
            !f.in_flight(),
    {
        ReconcileFlight { busy: false }
    }

    /// Claim the flight: wins (true) exactly when no scan was running;
    /// either way a scan is running afterwards.
    pub fn try_begin_reconcile(&mut self) -> (won: bool)
        ensures
            began(old(self).in_flight(), final(self).in_flight(), won),
    {
        if self.busy {
            false
        } else {
            self.busy = true;
            true
        }
    }

    /// Run `scan` under the flight: while another scan runs it returns
    /// at once without running (the flight stays held); otherwise it
    /// claims the flight, runs the scan, and releases the flight when the
    /// scan returns.
    pub fn run_exclusive<R, F: FnOnce() -> R>(&mut self, scan: F) -> (r: Option<R>)
        requires
            call_requires(scan, ()),
        ensures
            old(self).in_flight() ==> r is None && final(self).in_flight(),
            !old(self).in_flight() ==> !final(self).in_flight(),
            !old(self).in_flight() ==> (r matches Some(v) && call_ensures(scan, (), v)),
    {
        if !self.try_begin_reconcile() {
            return None;
        }
        let v = scan();
        self.finish();
        Some(v)
    }

    /// The winner's scan ended: the flight is free again.
    pub fn finish(&mut self)
        ensures
            !final(self).in_flight(),
    {
        self.busy = false;
    }
}

/// Single flight: of two claims in a row the second loses (the scan
/// stays in flight), and once the winner finished the next claim wins.
pub proof fn law_reconcile_single_flight(
    before: bool,
    mid: bool,
    after: bool,
    won_first: bool,
    won_second: bool,
)
    requires
        began(before, mid, won_first),
        began(mid, after, won_second),
    ensures
        !won_second,
        after,
        !before ==> won_first,
{
}


/// What re-asking herdr about a suspected vanished agent returned.
#[derive(Clone, Copy, Debug, PartialEq, Eq, Structural)]
pub enum AgentProbe {
    /// The agent answered: it is alive.
    Found,
    /// herdr says there is no such agent.
    NotFound,
    /// No answer (timeout, unreachable): proves nothing.
    Blip,
}

/// The suspects whose probe came back not-found, in order.
pub open spec fn confirmed_spec(probes: Seq<(String, AgentProbe)>) -> Seq<Seq<char>>
    decreases probes.len(),
{
    if probes.len() == 0 {
        Seq::empty()
    } else {
        let rest = confirmed_spec(probes.drop_last());
        if probes.last().1 == AgentProbe::NotFound {
            rest.push(probes.last().0@)
        } else {
            rest
        }
    }
}

/// Vanish confirmation (fail-closed): a stored pane missing from the
/// agent list is confirmed gone only when re-asking herdr answers
/// not-found; a found agent or a blip keeps it live.
pub fn confirm_vanished(probes: &Vec<(String, AgentProbe)>) -> (confirmed: Vec<String>)
    ensures
        texts(confirmed@) == confirmed_spec(probes@),
{
    let mut confirmed: Vec<String> = Vec::new();
    let mut i: usize = 0;
    while i < probes.len()
        invariant
            i <= probes@.len(),
            texts(confirmed@) == confirmed_spec(probes@.subrange(0, i as int)),
        decreases probes@.len() - i,
    {
        assert(probes@.subrange(0, i + 1).drop_last() =~= probes@.subrange(0, i as int));
        if probes[i].1 == AgentProbe::NotFound {
            confirmed.push(probes[i].0.clone());
        }
        assert(texts(confirmed@) =~= confirmed_spec(probes@.subrange(0, i + 1)));
        i = i + 1;
    }
    assert(probes@.subrange(0, i as int) =~= probes@);
    confirmed
}

/// Confirmed-gone agents split by the pane list: a pane still listed is
/// a shell (its agent quit), an unlisted one is dead (closed). A failed
/// or empty pane list never reads as "everything dead": nothing is split.
pub fn split_vanished(confirmed: &Vec<String>, panes: Option<&PaneSet>) -> (r: (Vec<String>, Vec<String>))
    ensures
        match panes {
            Some(p) => if p@.len() > 0 {
                &&& texts(r.0@) == texts(confirmed@).filter(|k: Seq<char>| p@.contains(k))
                &&& texts(r.1@) == texts(confirmed@).filter(|k: Seq<char>| !p@.contains(k))
            } else {
                r.0@.len() == 0 && r.1@.len() == 0
            },
            None => r.0@.len() == 0 && r.1@.len() == 0,
        },
{
    let mut shells: Vec<String> = Vec::new();
    let mut dead: Vec<String> = Vec::new();
    let p = match panes {
        Some(p) => p,
        None => return (shells, dead),
    };
    if p.len() == 0 {
        return (shells, dead);
    }
    let ghost t = texts(confirmed@);
    proof {
        reveal(Seq::filter);
    }
    let mut i: usize = 0;
    while i < confirmed.len()
        invariant
            i <= confirmed@.len(),
            t == texts(confirmed@),
            texts(shells@) == t.subrange(0, i as int).filter(|k: Seq<char>| p@.contains(k)),
            texts(dead@) == t.subrange(0, i as int).filter(|k: Seq<char>| !p@.contains(k)),
        decreases confirmed@.len() - i,
    {
        proof {
            reveal(Seq::filter);
        }
        assert(t.subrange(0, i + 1).drop_last() =~= t.subrange(0, i as int));
        assert(t.subrange(0, i + 1).last() == confirmed@[i as int]@);
        if p.contains(confirmed[i].as_str()) {
            shells.push(confirmed[i].clone());
        } else {
            dead.push(confirmed[i].clone());
        }
        assert(texts(shells@) =~= t.subrange(0, i + 1).filter(|k: Seq<char>| p@.contains(k)));
        assert(texts(dead@) =~= t.subrange(0, i + 1).filter(|k: Seq<char>| !p@.contains(k)));
        i = i + 1;
    }
    assert(t.subrange(0, i as int) =~= t);
    (shells, dead)
}

} // verus!
