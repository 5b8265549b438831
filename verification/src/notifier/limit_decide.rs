//! Stall-alert decisions shared by the watcher and watchdog paths.
use crate::clock::elapsed;
use crate::text::str_eq;
use vstd::prelude::*;

verus! {

/// Recent lines that count as "fresh" on settled panes.
pub const SCAN_TAIL_LINES: usize = 80;

/// Failed sends back off this long before either path retries.
pub const SEND_FAIL_COOL_SECS: u64 = 60;

/// Re-remind window while a limit stall persists.
pub const LIMIT_REMIND_SECS: u64 = 1800;

/// Fresh tail of a wide limit-scan read: the last [`SCAN_TAIL_LINES`]
/// lines, or the whole screen when shorter.
pub fn scan_tail(screen: &[String]) -> (tail: &[String])
    ensures
        tail@ == if screen@.len() > SCAN_TAIL_LINES {
            screen@.subrange(screen@.len() - SCAN_TAIL_LINES, screen@.len() as int)
        } else {
            screen@
        },
{
    if screen.len() > SCAN_TAIL_LINES {
        let (_, tail) = screen.split_at(screen.len() - SCAN_TAIL_LINES);
        tail
    } else {
        screen
    }
}

/// Same-kind recent-alert suppress: the same kind within `remind_secs`
/// stays silent; another kind (a provider blip vs. a quota stall) never
/// hides.
pub fn alert_suppressed(kind: &str, prev: Option<(&str, u64)>, now: u64, remind_secs: u64) -> (r:
    bool)
    ensures
        r == match prev {
            Some((k, t)) => k@ == kind@ && elapsed(t, now) < remind_secs * 1000,
            None => false,
        },
{
    match prev {
        Some((k, t)) => {
            let e: u64 = if now >= t {
                now - t
            } else {
                0
            };
            str_eq(k, kind) && (e as u128) < (remind_secs as u128) * 1000
        },
        None => false,
    }
}

/// Kind-flip damping: a changed kind skips one tick.
pub fn kind_flipped(prev_kind: Option<&str>, kind: &str) -> (r: bool)
    ensures
        r == match prev_kind {
            Some(p) => p@ != kind@,
            None => false,
        },
{
    match prev_kind {
        Some(p) => !str_eq(p, kind),
        None => false,
    }
}

/// A recent failed send is still cooling down.
pub fn send_cooled(last_fail: Option<u64>, now: u64) -> (r: bool)
    ensures
        r == match last_fail {
            Some(t) => elapsed(t, now) < SEND_FAIL_COOL_SECS * 1000,
            None => false,
        },
{
    match last_fail {
        Some(t) => {
            let e: u64 = if now >= t {
                now - t
            } else {
                0
            };
            e < SEND_FAIL_COOL_SECS * 1000
        },
        None => false,
    }
}

/// No-destination skip: with no owner to broadcast to, or in forum mode
/// (an unmapped pane is a remint in flight), skip without claiming.
pub fn no_dest_skip(has_forum: bool, owners_empty: bool) -> (r: bool)
    ensures
        r == (owners_empty || has_forum),
{
    owners_empty || has_forum
}

/// Winner of the tail ranking between the best strong hit and the best
/// weak hit, each as (line index in the tail, kind priority; lower
/// ranks first): a weak hit only counts with error context somewhere on
/// screen; the better priority wins, then the fresher (later) line, and
/// a tie stays with the strong hit. Returns (index, priority, strong).
pub open spec fn ranked_hit(strong: Option<(usize, u8)>, weak: Option<(usize, u8)>, context: bool) -> Option<
    (usize, u8, bool),
> {
    let w = if context {
        weak
    } else {
        None
    };
    match (strong, w) {
        (None, None) => None,
        (Some(s), None) => Some((s.0, s.1, true)),
        (None, Some(k)) => Some((k.0, k.1, false)),
        (Some(s), Some(k)) => if k.1 < s.1 || (k.1 == s.1 && k.0 > s.0) {
            Some((k.0, k.1, false))
        } else {
            Some((s.0, s.1, true))
        },
    }
}

/// Rank the tail's tier hits (see [`ranked_hit`]).
pub fn rank_tail_hits(strong: Option<(usize, u8)>, weak: Option<(usize, u8)>, context: bool) -> (r:
    Option<(usize, u8, bool)>)
    ensures
        r == ranked_hit(strong, weak, context),
{
    let mut best: Option<(usize, u8, bool)> = None;
    match strong {
        Some(s) => {
            best = Some((s.0, s.1, true));
        },
        None => {},
    }
    if context {
        match weak {
            Some(k) => {
                let better = match best {
                    None => true,
                    Some(b) => k.1 < b.1 || (k.1 == b.1 && k.0 > b.0),
                };
                if better {
                    best = Some((k.0, k.1, false));
                }
            },
            None => {},
        }
    }
    best
}

} // verus!
