//! Watchdog limit-stall scan, one pane per tick: quota and provider
//! stalls never transition, so the watchdog reads the screen and keeps a
//! per-pane episode (first sight, clean-read streak, last alert, send
//! cool-down). Buzz once per episode; outages change nothing; a banner
//! must stay away for [`LIMIT_CLEAR_MISSES`] clean reads before the
//! episode ends; gated kinds must persist [`LIMIT_STUCK_SECS`] on a
//! working pane; immediate kinds damp one tick on a kind flip.
use crate::clock::elapsed;
use crate::notifier::limit_claim::{alert_views, suppressed_by, try_claim, LimitClaim};
use crate::notifier::limit_decide::{send_cooled, LIMIT_REMIND_SECS, SEND_FAIL_COOL_SECS};
use crate::state::books::{waiters_kept, Books};
use crate::text::str_eq;
use vstd::prelude::*;

verus! {

/// Clean reads in a row that end an episode.
pub const LIMIT_CLEAR_MISSES: u32 = 3;

/// How long a gated banner must persist on a working pane before it pages.
pub const LIMIT_STUCK_SECS: u64 = 90;

/// First-sight table after seeing `kind`: kept when it already records
/// that kind, else restarted at `now`.
pub open spec fn seen_after(
    seen: Map<Seq<char>, (Seq<char>, u64)>,
    pane: Seq<char>,
    kind: Seq<char>,
    now: u64,
) -> Map<Seq<char>, (Seq<char>, u64)> {
    if seen.contains_key(pane) && seen[pane].0 == kind {
        seen
    } else {
        seen.insert(pane, (kind, now))
    }
}

/// A banner of `kind` gets as far as the claim: not a gated banner on a
/// settled pane; a gated one only once it has stood [`LIMIT_STUCK_SECS`]
/// under the same kind; an immediate one unless its kind just flipped;
/// and never into a pane that has gone to shell, with nowhere to send,
/// or while a failed send cools down.
pub open spec fn reaches_claim(
    b: &Books,
    pane: Seq<char>,
    kind: Seq<char>,
    gated: bool,
    working: bool,
    shell_now: bool,
    has_dest: bool,
    now: u64,
) -> bool {
    let seen = alert_views(b.limit_seen@);
    &&& !(gated && !working)
    &&& (gated ==> seen.contains_key(pane) && seen[pane].0 == kind && elapsed(seen[pane].1, now)
        >= LIMIT_STUCK_SECS * 1000)
    &&& (!gated ==> !(seen.contains_key(pane) && seen[pane].0 != kind))
    &&& !shell_now
    &&& has_dest
    &&& !(b.limit_send_cool@.contains_key(pane) && elapsed(b.limit_send_cool@[pane], now)
        < SEND_FAIL_COOL_SECS * 1000)
}

/// One watchdog read of `pane`. `status` is the pane's sampled status;
/// `outage` a read that returned nothing; `hit` the detected banner
/// (kind, whether it is gated); `shell_now` the status re-read before
/// sending; `has_dest` whether any destination exists. Returns the claim
/// to page with (the card must be sent now, then [`limit_delivered`]).
pub fn limit_tick(
    b: &mut Books,
    pane: &str,
    status: &str,
    outage: bool,
    hit: Option<(&str, bool)>,
    shell_now: bool,
    has_dest: bool,
    now: u64,
) -> (page: Option<LimitClaim>)
    ensures
        final(b).jobs@ == old(b).jobs@,
        final(b).intents@ == old(b).intents@,
        final(b).debounce@ == old(b).debounce@,
        final(b).last_done@ == old(b).last_done@,
        waiters_kept(&*old(b), &*final(b)),
        status@ == "shell"@ || outage ==> page is None && final(b).limit_alert@ == old(b).limit_alert@
            && final(b).limit_seen@ == old(b).limit_seen@ && final(b).limit_miss@ == old(
            b,
        ).limit_miss@ && final(b).limit_send_cool@ == old(b).limit_send_cool@,
        status@ != "shell"@ && !outage && hit is None ==> {
            let n: int = if old(b).limit_miss@.contains_key(pane@) {
                old(b).limit_miss@[pane@] + 1
            } else {
                1
            };
            &&& page is None
            &&& if n >= LIMIT_CLEAR_MISSES {
                &&& final(b).limit_miss@ == old(b).limit_miss@.remove(pane@)
                &&& final(b).limit_alert@ == old(b).limit_alert@.remove(pane@)
                &&& final(b).limit_seen@ == old(b).limit_seen@.remove(pane@)
                &&& final(b).limit_send_cool@ == old(b).limit_send_cool@.remove(pane@)
            } else {
                &&& final(b).limit_miss@ == old(b).limit_miss@.insert(pane@, n as u32)
                &&& final(b).limit_alert@ == old(b).limit_alert@
                &&& final(b).limit_seen@ == old(b).limit_seen@
                &&& final(b).limit_send_cool@ == old(b).limit_send_cool@
            }
        },
        status@ != "shell"@ && !outage && hit is Some ==> {
            let kind = hit.unwrap().0@;
            let gated = hit.unwrap().1;
            let go = reaches_claim(
                &*old(b),
                pane@,
                kind,
                gated,
                status@ == "working"@,
                shell_now,
                has_dest,
                now,
            );
            let alerts = alert_views(old(b).limit_alert@);
            &&& final(b).limit_miss@ == old(b).limit_miss@.remove(pane@)
            &&& alert_views(final(b).limit_seen@) == seen_after(
                alert_views(old(b).limit_seen@),
                pane@,
                kind,
                now,
            )
            &&& final(b).limit_send_cool@ == old(b).limit_send_cool@
            &&& if go && !(alerts.contains_key(pane@) && suppressed_by(alerts[pane@], kind, now)) {
                &&& page matches Some(c) && c.pane@ == pane@ && c.kind@ == kind && c.at == now
                &&& alert_views(final(b).limit_alert@) == alerts.insert(pane@, (kind, now))
            } else {
                page is None && final(b).limit_alert@ == old(b).limit_alert@
            }
        },
{
    if str_eq(status, "shell") || outage {
        return None;
    }
    match hit {
        None => {
            let cur: u32 = match b.limit_miss.get(pane) {
                Some(n) => *n,
                None => 0,
            };
            if cur >= LIMIT_CLEAR_MISSES - 1 {
                b.limit_miss.remove(pane);
                b.limit_alert.remove(pane);
                b.limit_seen.remove(pane);
                b.limit_send_cool.remove(pane);
            } else {
                b.limit_miss.insert(pane, cur + 1);
            }
            None
        },
        Some((kind, gated)) => {
            b.limit_miss.remove(pane);
            let working = str_eq(status, "working");
            let prev: Option<(bool, u64)> = match b.limit_seen.get(pane) {
                Some(e) => Some((str_eq(e.0.as_str(), kind), e.1)),
                None => None,
            };
            let same_kind = match prev {
                Some((same, _)) => same,
                None => false,
            };
            if !same_kind {
                let k = kind.to_owned();
                b.limit_seen.insert(pane, (k, now));
                proof {
                    assert(alert_views(b.limit_seen@) =~= alert_views(old(b).limit_seen@).insert(
                        pane@,
                        (kind@, now),
                    ));
                }
            }
            if gated && !working {
                return None;
            }
            if gated {
                let stuck = match prev {
                    Some((true, t)) => {
                        let e: u64 = if now >= t {
                            now - t
                        } else {
                            0
                        };
                        e >= LIMIT_STUCK_SECS * 1000
                    },
                    _ => false,
                };
                if !stuck {
                    return None;
                }
            } else {
                let flipped = match prev {
                    Some((same, _)) => !same,
                    None => false,
                };
                if flipped {
                    return None;
                }
            }
            if shell_now || !has_dest {
                return None;
            }
            let cool: Option<u64> = match b.limit_send_cool.get(pane) {
                Some(t) => Some(*t),
                None => None,
            };
            if send_cooled(cool, now) {
                return None;
            }
            try_claim(&mut b.limit_alert, pane, kind, now)
        },
    }
}

/// After the page's send: a delivered card keeps its claim (the remind
/// window suppresses the same kind) and clears the cool-down; a failed
/// one releases the claim if it is still ours and cools the pane down
/// from `now`.
pub fn limit_delivered(b: &mut Books, claim: LimitClaim, delivered: bool, now: u64)
    ensures
        final(b).jobs@ == old(b).jobs@,
        final(b).intents@ == old(b).intents@,
        final(b).limit_seen@ == old(b).limit_seen@,
        final(b).limit_miss@ == old(b).limit_miss@,
        delivered ==> final(b).limit_alert@ == old(b).limit_alert@ && final(b).limit_send_cool@
            == old(b).limit_send_cool@.remove(claim.pane@),
        !delivered ==> final(b).limit_send_cool@ == old(b).limit_send_cool@.insert(claim.pane@, now)
            && final(b).limit_alert@ == (if alert_views(old(b).limit_alert@).contains_key(claim.pane@)
            && alert_views(old(b).limit_alert@)[claim.pane@] == (claim.kind@, claim.at) {
            old(b).limit_alert@.remove(claim.pane@)
        } else {
            old(b).limit_alert@
        }),
{
    if delivered {
        b.limit_send_cool.remove(claim.pane.as_str());
        claim.keep();
    } else {
        claim.release(&mut b.limit_alert);
        b.limit_send_cool.insert(claim.pane.as_str(), now);
    }
}

/// Once per window: a delivered alert of a kind suppresses every later
/// page of that same kind for the remind window, and never another kind.
pub proof fn law_delivered_alert_suppresses_same_kind(
    alerts: Map<Seq<char>, (Seq<char>, u64)>,
    pane: Seq<char>,
    kind: Seq<char>,
    other: Seq<char>,
    at: u64,
    later: u64,
)
    requires
        at <= later,
        later - at < LIMIT_REMIND_SECS * 1000,
        other != kind,
    ensures
        suppressed_by(alerts.insert(pane, (kind, at))[pane], kind, later),
        !suppressed_by(alerts.insert(pane, (kind, at))[pane], other, later),
{
}

} // verus!
