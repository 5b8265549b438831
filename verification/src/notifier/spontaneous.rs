//! Spontaneous-push gates: delivery completeness, pane liveness and
//! settle-arm currency.
use crate::notifier::retry_guard::{is_settle, moved_on};
use crate::state::books::{Books, PaneState};
use crate::text::str_eq;
use vstd::prelude::*;

verus! {

/// Per-owner completion for DM multi-owner pushes: complete when at
/// least one owner received every part (one blocked owner must not hold
/// the healthy ones hostage), and never for an empty push.
pub fn dm_complete(per_owner_landed: &[usize], parts: usize) -> (ok: bool)
    ensures
        ok == (parts > 0 && exists|i: int|
            0 <= i < per_owner_landed@.len() && #[trigger] per_owner_landed@[i] >= parts),
{
    if parts == 0 {
        return false;
    }
    let mut i: usize = 0;
    while i < per_owner_landed.len()
        invariant
            i <= per_owner_landed@.len(),
            parts > 0,
            forall|j: int| 0 <= j < i ==> #[trigger] per_owner_landed@[j] < parts,
        decreases per_owner_landed@.len() - i,
    {
        if per_owner_landed[i] >= parts {
            assert(exists|j: int|
                0 <= j < per_owner_landed@.len() && #[trigger] per_owner_landed@[j] >= parts) by {
                assert(per_owner_landed@[i as int] >= parts);
            }
            return true;
        }
        i = i + 1;
    }
    false
}

/// Liveness call before any topic sync or post.
#[derive(Debug, PartialEq, Eq, Structural, Clone, Copy)]
pub enum Liveness {
    Allow,
    Dead,
    Ambiguous,
}

/// Fail-closed liveness: a failed (`None`) or empty pane list is
/// ambiguous and posts nothing; a listed pane may post; an unlisted one
/// is dead and must never re-mint its topic.
pub fn liveness(live: Option<&Vec<String>>, pane: &str) -> (v: Liveness)
    ensures
        v == match live {
            None => Liveness::Ambiguous,
            Some(l) => if l@.len() == 0 {
                Liveness::Ambiguous
            } else if exists|i: int| 0 <= i < l@.len() && (#[trigger] l@[i])@ == pane@ {
                Liveness::Allow
            } else {
                Liveness::Dead
            },
        },
{
    match live {
        None => Liveness::Ambiguous,
        Some(l) => {
            if l.len() == 0 {
                return Liveness::Ambiguous;
            }
            let mut i: usize = 0;
            while i < l.len()
                invariant
                    i <= l@.len(),
                    l@.len() > 0,
                    live == Some(l),
                    forall|j: int| 0 <= j < i ==> (#[trigger] l@[j])@ != pane@,
                decreases l@.len() - i,
            {
                if str_eq(l[i].as_str(), pane) {
                    assert(exists|j: int| 0 <= j < l@.len() && (#[trigger] l@[j])@ == pane@) by {
                        assert(l@[i as int]@ == pane@);
                    }
                    return Liveness::Allow;
                }
                i = i + 1;
            }
            Liveness::Dead
        },
    }
}

/// Settle-arm currency (forum): a missing arm means cancelled, any
/// status or instant mismatch means superseded.
pub fn arm_superseded(cur: Option<(&str, u64)>, settled: &str, armed_at: u64) -> (r: bool)
    ensures
        r == match cur {
            None => true,
            Some((st, at)) => st@ != settled@ || at != armed_at,
        },
{
    match cur {
        None => true,
        Some((st, at)) => !str_eq(st, settled) || at != armed_at,
    }
}

/// DM arm currency: DM mode never arms a debounce, so a missing arm
/// proceeds; only a present-but-stale arm blocks.
pub fn dm_arm_blocks(cur: Option<(&str, u64)>, settled: &str, armed_at: u64) -> (r: bool)
    ensures
        r == match cur {
            None => false,
            Some((st, at)) => st@ != settled@ || at != armed_at,
        },
{
    match cur {
        None => false,
        Some((st, at)) => !str_eq(st, settled) || at != armed_at,
    }
}

/// Per-part stale-tail check: any retarget sign (live job, blocked
/// arm, newer final, moved-on pane) stops the remaining parts.
pub fn part_stale(jobs_active: bool, arm_blocked: bool, done_after: bool, moved_on: bool) -> (r:
    bool)
    ensures
        r == (jobs_active || arm_blocked || done_after || moved_on),
{
    jobs_active || arm_blocked || done_after || moved_on
}

/// The arm of `pane` as (status, instant) views.
pub open spec fn arm_of(b: &Books, pane: Seq<char>) -> Option<(Seq<char>, u64)> {
    if b.debounce@.contains_key(pane) {
        Some((b.debounce@[pane].0@, b.debounce@[pane].1))
    } else {
        None
    }
}

/// The arm no longer stands for the settle armed at `armed_at`: forum
/// mode treats a missing arm as cancelled; DM mode (which never arms)
/// lets a missing arm through.
pub open spec fn arm_stale(arm: Option<(Seq<char>, u64)>, settled: Seq<char>, armed_at: u64, dm: bool) -> bool {
    match arm {
        None => !dm,
        Some((st, at)) => st != settled || at != armed_at,
    }
}

/// The pane moved on from the settle (no status at all counts as moved).
pub open spec fn moved_from(ps: &PaneState, pane: Seq<char>, settled: Seq<char>) -> bool {
    if ps.status@.contains_key(pane) {
        let st = ps.status@[pane]@;
        st != settled && !(is_settle(settled) && is_settle(st))
    } else {
        true
    }
}

/// A final was delivered after `armed_at`.
pub open spec fn done_after(b: &Books, pane: Seq<char>, armed_at: Option<u64>) -> bool {
    match armed_at {
        Some(at) => b.last_done@.contains_key(pane) && b.last_done@[pane] > at,
        None => false,
    }
}

fn gate_parts(b: &Books, ps: &PaneState, pane: &str, settled: &str, armed_at: Option<u64>, dm: bool) -> (r: (
    bool,
    bool,
    bool,
))
    ensures
        r.0 == (match armed_at {
            Some(at) => arm_stale(arm_of(b, pane@), settled@, at, dm),
            None => false,
        }),
        r.1 == done_after(b, pane@, armed_at),
        r.2 == moved_from(ps, pane@, settled@),
{
    let (blocked, after) = match armed_at {
        Some(at) => {
            let blocked = match b.debounce.get(pane) {
                Some(a) => if dm {
                    dm_arm_blocks(Some((a.0.as_str(), a.1)), settled, at)
                } else {
                    arm_superseded(Some((a.0.as_str(), a.1)), settled, at)
                },
                None => !dm,
            };
            let after = match b.last_done.get(pane) {
                Some(t) => *t > at,
                None => false,
            };
            (blocked, after)
        },
        None => (false, false),
    };
    let moved = match ps.status.get(pane) {
        Some(st) => moved_on(Some(st.as_str()), settled),
        None => moved_on(None, settled),
    };
    (blocked, after, moved)
}

/// Per-part send gate of a spontaneous push: a part must not post while
/// a live watcher owns the pane, the settle's arm is stale, a newer final
/// landed, or the pane moved on.
pub fn part_blocked(b: &Books, ps: &PaneState, pane: &str, settled: &str, armed_at: Option<u64>, dm: bool) -> (r:
    bool)
    ensures
        r == (b.live(pane@) || (match armed_at {
            Some(at) => arm_stale(arm_of(b, pane@), settled@, at, dm),
            None => false,
        }) || done_after(b, pane@, armed_at) || moved_from(ps, pane@, settled@)),
{
    let (blocked, after, moved) = gate_parts(b, ps, pane, settled, armed_at, dm);
    part_stale(b.job_live(pane), blocked, after, moved)
}

/// Pre-send gate of a spontaneous push (right before the first part):
/// like [`part_blocked`], but any job entry owns the pane, a stopped one
/// included.
pub fn post_blocked(b: &Books, ps: &PaneState, pane: &str, settled: &str, armed_at: Option<u64>, dm: bool) -> (r:
    bool)
    ensures
        r == (b.jobs@.contains_key(pane@) || (match armed_at {
            Some(at) => arm_stale(arm_of(b, pane@), settled@, at, dm),
            None => false,
        }) || done_after(b, pane@, armed_at) || moved_from(ps, pane@, settled@)),
{
    let (blocked, after, moved) = gate_parts(b, ps, pane, settled, armed_at, dm);
    part_stale(b.jobs.contains_key(pane), blocked, after, moved)
}

/// Text of a spontaneous push: the body alone, except that a blocked
/// dialog leads with its badge and says where to answer.
pub open spec fn push_text_spec(settled: Seq<char>, body: Seq<char>, forum: bool) -> Seq<char> {
    if settled == "blocked"@ {
        if forum {
            "⛔ "@ + body + "\n↩️ reply or type in topic to answer"@
        } else {
            "⛔ "@ + body + "\n↩️ reply here to answer"@
        }
    } else {
        body
    }
}

/// Render a spontaneous push.
pub fn push_text(settled: &str, body: &str, forum: bool) -> (t: String)
    ensures
        t@ == push_text_spec(settled@, body@, forum),
{
    let mut t = String::new();
    if str_eq(settled, "blocked") {
        t.append("⛔ ");
        t.append(body);
        if forum {
            t.append("\n↩️ reply or type in topic to answer");
        } else {
            t.append("\n↩️ reply here to answer");
        }
    } else {
        t.append(body);
    }
    t
}

/// Forum push completion: all parts landed (a partial push must not
/// stamp the done time; the retry reposts the whole body).
pub fn forum_complete(landed: usize, expected: usize) -> (ok: bool)
    ensures
        ok == (expected > 0 && landed >= expected),
{
    expected > 0 && landed >= expected
}

/// A push of `parts` parts is complete for DM owners when some owner
/// received every part (and the push is not empty).
pub open spec fn dm_complete_spec(per_owner_landed: Seq<usize>, parts: usize) -> bool {
    parts > 0 && exists|i: int| 0 <= i < per_owner_landed.len() && #[trigger] per_owner_landed[i] >= parts
}

/// The done stamps after a push: a complete delivery stamps the pane's
/// done time at `now`; an incomplete one (a drop, a partial multi-part
/// push) leaves it, so the retry and the next settle are not suppressed.
pub open spec fn delivery_stamped(
    before: Map<Seq<char>, u64>,
    pane: Seq<char>,
    complete: bool,
    now: u64,
) -> Map<Seq<char>, u64> {
    if complete {
        before.insert(pane, now)
    } else {
        before
    }
}

/// End of a forum push: complete when all `expected` parts landed, and
/// then the pane's done time is stamped. Returns whether it was complete.
pub fn forum_delivered(b: &mut Books, pane: &str, landed: usize, expected: usize, now: u64) -> (complete:
    bool)
    ensures
        complete == (expected > 0 && landed >= expected),
        final(b).last_done@ == delivery_stamped(old(b).last_done@, pane@, complete, now),
        final(b).jobs@ == old(b).jobs@,
        final(b).intents@ == old(b).intents@,
        final(b).debounce@ == old(b).debounce@,
{
    let complete = forum_complete(landed, expected);
    if complete {
        b.last_done.insert(pane, now);
    }
    complete
}

/// End of a DM push to every owner: complete when some owner received
/// every part, and then the pane's done time is stamped. Returns whether
/// it was complete.
pub fn dm_delivered(b: &mut Books, pane: &str, per_owner_landed: &[usize], parts: usize, now: u64) -> (
    complete: bool)
    ensures
        complete == dm_complete_spec(per_owner_landed@, parts),
        final(b).last_done@ == delivery_stamped(old(b).last_done@, pane@, complete, now),
        final(b).jobs@ == old(b).jobs@,
        final(b).intents@ == old(b).intents@,
        final(b).debounce@ == old(b).debounce@,
{
    let complete = dm_complete(per_owner_landed, parts);
    if complete {
        b.last_done.insert(pane, now);
    }
    complete
}

/// What a DM-mode settle does once its fresh body is extracted.
#[derive(Clone, Copy, Debug, PartialEq, Eq, Structural)]
pub enum DmPush {
    /// A live watcher owns the pane: do nothing.
    Owned,
    /// Post the body (the baseline anchors only on delivery).
    Post,
    /// Nothing fresh: anchor the baseline on the screen read, silently.
    Anchor,
    /// Nothing fresh and nothing readable: leave the baseline alone.
    Keep,
}

/// The DM settle decision (see [`dm_push`]).
pub open spec fn dm_push_spec(job_live: bool, body_empty: bool, stale: bool, blocked: bool, screen_empty: bool) -> DmPush {
    if job_live {
        DmPush::Owned
    } else if screen_empty {
        DmPush::Keep
    } else if !body_empty && !(stale && !blocked) {
        DmPush::Post
    } else {
        DmPush::Anchor
    }
}

/// DM settle decision: a live watcher owns the pane; an unreadable
/// (empty) screen yields no body, never posts and never wipes the
/// baseline; a fresh body that is not a re-extraction of an already
/// delivered final posts (blocked dialogs always re-post); an empty or
/// stale one anchors the readable screen and never buzzes.
pub fn dm_push(job_live: bool, body_empty: bool, stale: bool, blocked: bool, screen_empty: bool) -> (p: DmPush)
    ensures
        p == dm_push_spec(job_live, body_empty, stale, blocked, screen_empty),
{
    if job_live {
        DmPush::Owned
    } else if screen_empty {
        DmPush::Keep
    } else if !body_empty && !(stale && !blocked) {
        DmPush::Post
    } else {
        DmPush::Anchor
    }
}

/// The baselines after a DM settle decided `p`: a delivered post or a
/// quiet anchor sets the pane's baseline to the screen read; everything
/// else leaves it.
pub open spec fn dm_baseline(
    seen: Map<Seq<char>, Vec<String>>,
    pane: Seq<char>,
    p: DmPush,
    delivered: bool,
    screen: Vec<String>,
) -> Map<Seq<char>, Vec<String>> {
    if (p == DmPush::Post && delivered) || p == DmPush::Anchor {
        seen.insert(pane, screen)
    } else {
        seen
    }
}

/// Carry out a DM settle decision on the baseline (`delivered`: the post
/// landed for some owner).
pub fn apply_dm_push(ps: &mut PaneState, pane: &str, p: DmPush, delivered: bool, screen: Vec<String>)
    ensures
        final(ps).seen@ == dm_baseline(old(ps).seen@, pane@, p, delivered, screen),
        final(ps).status@ == old(ps).status@,
        final(ps).focus == old(ps).focus,
{
    let anchor = match p {
        DmPush::Post => delivered,
        DmPush::Anchor => true,
        _ => false,
    };
    if anchor {
        ps.seen.insert(pane, screen);
    }
}

/// An empty screen (outage or unknown read) or a live watcher never
/// posts a DM card and never moves the pane's baseline.
pub proof fn law_dm_empty_screen_never_posts(
    seen: Map<Seq<char>, Vec<String>>,
    pane: Seq<char>,
    job_live: bool,
    body_empty: bool,
    stale: bool,
    blocked: bool,
    screen_empty: bool,
    delivered: bool,
    screen: Vec<String>,
)
    requires
        screen_empty || job_live,
    ensures
        dm_push_spec(job_live, body_empty, stale, blocked, screen_empty) != DmPush::Post,
        dm_baseline(
            seen,
            pane,
            dm_push_spec(job_live, body_empty, stale, blocked, screen_empty),
            delivered,
            screen,
        ) == seen,
{
}

} // verus!
