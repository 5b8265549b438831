//! Pre-send claim for one limit-stall alert: the claim is recorded before
//! the send so a concurrent tick stays silent, and released (if still
//! ours) when the send fails or is abandoned.
use crate::notifier::limit_decide::{alert_suppressed, LIMIT_REMIND_SECS};
use crate::clock::elapsed;
use crate::pane_map::PaneMap;
use crate::text::str_eq;
use vstd::prelude::*;

verus! {

/// One claimed alert: (pane, kind, instant).
pub struct LimitClaim {
    pub pane: String,
    pub kind: String,
    pub at: u64,
}

/// Same kind alerted within the remind window at `now`.
pub open spec fn suppressed_by(prev: (Seq<char>, u64), kind: Seq<char>, now: u64) -> bool {
    prev.0 == kind && elapsed(prev.1, now) < LIMIT_REMIND_SECS * 1000
}

/// Last alert per pane, as (kind, instant) views.
pub open spec fn alert_views(m: Map<Seq<char>, (String, u64)>) -> Map<Seq<char>, (Seq<char>, u64)> {
    m.map_values(|e: (String, u64)| (e.0@, e.1))
}

/// Atomic check-and-claim: the same kind within the remind window stays
/// silent (`None`, nothing written); otherwise the pane's slot is set to
/// (`kind`, `now`) and the claim returned.
pub fn try_claim(alerts: &mut PaneMap<(String, u64)>, pane: &str, kind: &str, now: u64) -> (c:
    Option<LimitClaim>)
    ensures
        if alert_views(old(alerts)@).contains_key(pane@) && suppressed_by(
            alert_views(old(alerts)@)[pane@],
            kind@,
            now,
        ) {
            c is None && final(alerts)@ == old(alerts)@
        } else {
            c matches Some(cl) && cl.pane@ == pane@ && cl.kind@ == kind@ && cl.at == now
                && alert_views(final(alerts)@) == alert_views(old(alerts)@).insert(
                pane@,
                (kind@, now),
            )
        },
{
    let dup = match alerts.get(pane) {
        Some(prev) => alert_suppressed(kind, Some((prev.0.as_str(), prev.1)), now, LIMIT_REMIND_SECS),
        None => false,
    };
    if dup {
        return None;
    }
    let k = kind.to_owned();
    alerts.insert(pane, (k, now));
    assert(alert_views(alerts@) =~= alert_views(old(alerts)@).insert(pane@, (kind@, now)));
    Some(LimitClaim { pane: pane.to_owned(), kind: kind.to_owned(), at: now })
}

impl LimitClaim {
    /// Delivered: keep the claim (arms the remind suppress).
    pub fn keep(self) {
    }

    /// Send failed or abandoned: release iff the slot still holds this
    /// claim (a concurrent success survives).
    pub fn release(&self, alerts: &mut PaneMap<(String, u64)>)
        ensures
            final(alerts)@ == if alert_views(old(alerts)@).contains_key(self.pane@) && alert_views(
                old(alerts)@,
            )[self.pane@] == (self.kind@, self.at) {
                old(alerts)@.remove(self.pane@)
            } else {
                old(alerts)@
            },
    {
        let mine = match alerts.get(self.pane.as_str()) {
            Some(cur) => str_eq(cur.0.as_str(), self.kind.as_str()) && cur.1 == self.at,
            None => false,
        };
        if mine {
            alerts.remove(self.pane.as_str());
        }
    }
}

} // verus!
