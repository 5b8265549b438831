use herdr_telegram::notifier::hygiene::flip_confirmed;
use herdr_telegram::notifier::reconcile::AgentProbe;
use herdr_telegram::notifier::reap::{known_panes, reap_dead};
use herdr_telegram::pane_map::PaneSet;
use herdr_telegram::state::books::{Books, JobTag, PaneState};
use herdr_telegram::state::guard::{BLOCKOP_STALE_SECS, MODELOP_STALE_SECS};
use herdr_telegram::state::live::{LiveSlot, LiveSlots};

/// A fixed "now" in milliseconds, far enough from zero for every window.
const NOW: u64 = 10_000_000;

fn set(items: &[&str]) -> PaneSet {
    let mut s = PaneSet::new();
    for i in items {
        s.insert(i);
    }
    s
}

fn slot(mid: i64, turn: u64) -> LiveSlot {
    LiveSlot { chat: 7, thread: None, mid, text: "t".to_string(), at: None, turn }
}

#[test]
fn test_live_slot_roundtrip() {
    let mut l = LiveSlots::new();
    assert!(l.live_get("w1:p1").is_none());
    l.live_put("w1:p1", slot(11, 1));
    assert_eq!(l.live_get("w1:p1").unwrap().mid, 11);
    assert!(l.live_take_if("w1:p1", 99, 1).is_none());
    assert!(l.live_take_if("w1:p1", 11, 2).is_none());
    assert!(l.live_get("w1:p1").is_some());
    assert_eq!(l.live_take_if("w1:p1", 11, 1).unwrap().turn, 1);
    assert!(l.live_take("w1:p1").is_none());
}

#[test]
fn test_live_claim_single_flight() {
    let mut l = LiveSlots::new();
    assert!(l.live_claim("w1:p1"));
    assert!(!l.live_claim("w1:p1"));
    l.live_unclaim("w1:p1");
    assert!(l.live_claim("w1:p1"));
    l.live_unclaim("w1:p1");
}

#[test]
fn test_reap_keeps_live_clears_dead() {
    let mut b = Books::new();
    let mut ps = PaneState::new(None);
    b.jobs.insert("dead:p1", JobTag { id: 1, epoch: 0, stopped: false });
    b.jobs.insert("live:p1", JobTag { id: 2, epoch: 0, stopped: false });
    ps.status.insert("dead:p1", "working".to_string());
    ps.status.insert("live:p1", "working".to_string());
    let r = reap_dead(&mut b, &mut ps, &set(&["live:p1"]), NOW, 10);
    assert!(!b.jobs.contains_key("dead:p1"));
    assert_eq!(r.retired.len(), 1);
    assert_eq!(r.retired[0].1.id, 1, "the dead job is handed back to stop");
    assert!(b.jobs.contains_key("live:p1"));
    assert!(!ps.status.contains_key("dead:p1"));
    assert!(ps.status.contains_key("live:p1"));
}

#[test]
fn reap_retires_pinned_dead_pane_keeps_intent() {
    let mut b = Books::new();
    let mut ps = PaneState::new(Some("dead:p1".to_string()));
    b.jobs.insert("live:p1", JobTag { id: 1, epoch: 0, stopped: false });
    b.jobs.insert("dead:p1", JobTag { id: 2, epoch: 0, stopped: false });
    b.intents.remember_pending("dead:p1", 1, None, "hi", 5);
    b.typewait.arm(1, None, "dead:p1", NOW);
    let r = reap_dead(&mut b, &mut ps, &set(&["live:p1"]), NOW, 10);
    assert_eq!(r.dying, vec!["dead:p1".to_string()]);
    // The intent stays for boot recovery; routing state goes.
    assert!(b.intents.contains("dead:p1"));
    assert!(ps.focus.is_none());
    assert_eq!(b.typewait.len(), 0);
}

#[test]
fn test_reap_empty_list_is_fail_open() {
    let mut b = Books::new();
    let mut ps = PaneState::new(None);
    b.jobs.insert("w:p1", JobTag { id: 1, epoch: 0, stopped: false });
    ps.status.insert("w:p1", "idle".to_string());
    let r = reap_dead(&mut b, &mut ps, &PaneSet::new(), NOW, 10);
    assert!(r.dying.is_empty() && r.retired.is_empty());
    assert!(b.jobs.contains_key("w:p1") && ps.status.contains_key("w:p1"));
}

#[test]
fn test_reap_clears_stale_guards_keeps_fresh() {
    let mut b = Books::new();
    let mut ps = PaneState::new(None);
    let old_tap = NOW - (BLOCKOP_STALE_SECS + 60) * 1000;
    let old_model = NOW - (MODELOP_STALE_SECS + 60) * 1000;
    ps.blockop.insert("live:p1", old_tap);
    ps.blockop.insert("live:p2", NOW);
    ps.modelop.insert("live:p1", old_model);
    ps.modelop.insert("live:p2", NOW);
    ps.blockop.insert("dead:p9", NOW);
    ps.modelop.insert("dead:p9", NOW);
    reap_dead(&mut b, &mut ps, &set(&["live:p1", "live:p2"]), NOW, 10);
    assert!(!ps.blockop.contains_key("live:p1"));
    assert!(ps.blockop.contains_key("live:p2"));
    assert!(!ps.modelop.contains_key("live:p1"));
    assert!(ps.modelop.contains_key("live:p2"));
    assert!(!ps.blockop.contains_key("dead:p9"));
    assert!(!ps.modelop.contains_key("dead:p9"));
}

#[test]
fn test_reap_keeps_armed_runwait() {
    // Shell-run waiters hold workspaces: pane liveness never reaps them.
    let mut b = Books::new();
    let mut ps = PaneState::new(None);
    b.runwait.arm(1, None, "ws1", NOW);
    b.jobs.insert("live:p1", JobTag { id: 1, epoch: 0, stopped: false });
    reap_dead(&mut b, &mut ps, &set(&["live:p1"]), NOW, 10);
    assert_eq!(b.runwait.len(), 1);
}

#[test]
fn test_reap_prunes_live_maps_when_idle() {
    // No job, intent, waiter or guard pins anything, yet live-only maps
    // still prune dead panes.
    let mut b = Books::new();
    let mut ps = PaneState::new(None);
    ps.seen.insert("dead:p1", vec!["x".to_string()]);
    ps.seen.insert("live:p1", vec!["y".to_string()]);
    b.last_done.insert("dead:p1", NOW);
    let k = known_panes(&b, &ps);
    assert_eq!(k.len(), 0);
    let r = reap_dead(&mut b, &mut ps, &set(&["live:p1"]), NOW, 10);
    assert!(r.dying.is_empty());
    assert!(!ps.seen.contains_key("dead:p1") && ps.seen.contains_key("live:p1"));
    assert!(!b.last_done.contains_key("dead:p1"));
}

#[test]
fn known_panes_pins() {
    let mut b = Books::new();
    let mut ps = PaneState::new(Some("f:p".to_string()));
    b.keywait.arm(1, None, "k:p", NOW);
    b.runwait.arm(1, None, "ws1", NOW);
    ps.blocked_card.insert("c:p", vec![(1, 2)]);
    let k = known_panes(&b, &ps);
    assert!(k.contains("f:p") && k.contains("k:p") && k.contains("c:p"));
    assert!(!k.contains("ws1"), "shell-run waiters hold workspaces");
    assert_eq!(k.len(), 3);
}

#[test]
fn test_reap_prunes_stale_intent_and_persists() {
    // Unrecoverable intents (over a day old, over an hour ahead) drop,
    // dead or alive; recoverable ones stay, dead or alive.
    let now: u64 = 1_700_000_000;
    let mut b = Books::new();
    let mut ps = PaneState::new(None);
    b.intents.remember_pending("dead:old", 1, None, "hi", now - 90000);
    b.intents.remember_pending("dead:future", 1, None, "hi", now + 7200);
    b.intents.remember_pending("dead:fresh", 1, None, "hi", now);
    b.intents.remember_pending("live:old", 1, None, "hi", now - 90000);
    b.intents.remember_pending("live:fresh", 1, None, "hi", now);
    reap_dead(&mut b, &mut ps, &set(&["live:old", "live:fresh"]), NOW, now);
    assert!(!b.intents.contains("dead:old"));
    assert!(!b.intents.contains("dead:future"));
    assert!(b.intents.contains("dead:fresh"));
    assert!(!b.intents.contains("live:old"));
    assert!(b.intents.contains("live:fresh"));
    // An empty live list is fail-open: nothing prunes.
    b.intents.remember_pending("dead:old", 1, None, "hi", now - 90000);
    reap_dead(&mut b, &mut ps, &PaneSet::new(), NOW, now);
    assert!(b.intents.contains("dead:old"));
}

#[test]
fn retain_recoverable_bounds() {
    let now: u64 = 1_700_000_000;
    let mut b = Books::new();
    b.intents.remember_pending("a", 1, None, "x", now - 86400);
    b.intents.remember_pending("b", 1, None, "x", now + 3600);
    assert!(!b.intents.retain_recoverable(now));
    b.intents.remember_pending("c", 1, None, "x", now - 86401);
    b.intents.remember_pending("d", 1, None, "x", now + 3601);
    assert!(b.intents.retain_recoverable(now));
    assert!(b.intents.contains("a") && b.intents.contains("b"));
    assert!(!b.intents.contains("c") && !b.intents.contains("d"));
}

#[test]
fn dm_flip_needs_not_found_and_listed_pane() {
    let live = set(&["w:p1"]);
    assert!(flip_confirmed(AgentProbe::NotFound, Some(&live), "w:p1"));
    assert!(!flip_confirmed(AgentProbe::Blip, Some(&live), "w:p1"));
    assert!(!flip_confirmed(AgentProbe::Found, Some(&live), "w:p1"));
    assert!(!flip_confirmed(AgentProbe::NotFound, Some(&live), "w:p9"), "unlisted: dead, not a shell");
    assert!(!flip_confirmed(AgentProbe::NotFound, Some(&PaneSet::new()), "w:p1"));
    assert!(!flip_confirmed(AgentProbe::NotFound, None, "w:p1"));
}
