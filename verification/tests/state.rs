use herdr_telegram::pane_map::{PaneMap, PaneSet};
use herdr_telegram::state::cancel_all::global_cancel_stop;
use herdr_telegram::state::guard::{claim_stale, reap_stale, OpGuard, BLOCKOP_STALE_SECS};
use herdr_telegram::state::history::{history_text, parse_history_n, record_capped, HISTORY_CAP};
use herdr_telegram::state::jobs::{clear_shell_if_matches, ShellGen};
use herdr_telegram::state::pending::{global_cancel_clears, Intents, PendingPrompt};
use herdr_telegram::state::persist_paths::{focus_file, offset_file, state_dir};
use herdr_telegram::state::targets::{should_record_msg, ReplyTargets};
use std::collections::VecDeque;

/// A fixed "now" in milliseconds, far enough from zero for every window.
const NOW: u64 = 10_000_000;

fn secs(n: u64) -> u64 {
    n * 1000
}

fn keys(items: &[&str]) -> PaneSet {
    let mut s = PaneSet::new();
    for i in items {
        s.insert(i);
    }
    s
}

fn prompt(chat: i64) -> PendingPrompt {
    PendingPrompt { chat, thread: None, prompt: "hi".to_string(), started_unix: 0 }
}

fn log(items: &[&str]) -> VecDeque<String> {
    items.iter().map(|s| s.to_string()).collect()
}

#[test]
fn test_post_cas_stop_set_successor_keeps_typing_and_stamp() {
    let removed = keys(&["t:a"]);
    let early = keys(&["t:a", "t:b", "t:c"]);
    let still_owned = keys(&["t:b"]);
    let stop = global_cancel_stop(&removed, &early, &still_owned);
    assert!(stop.contains("t:a"), "removed work must stop");
    assert!(!stop.contains("t:b"), "surviving successor must keep typing/stamp");
    assert!(stop.contains("t:c"), "early + unowned must stop");
    assert!(!stop.contains("t:by"), "bystander never enters stop");
    let stop = global_cancel_stop(&removed, &early, &keys(&["t:b", "t:a"]));
    assert!(stop.contains("t:a"));
}

#[test]
fn test_global_cancel_clears_stamp_pinned() {
    let old = prompt(1);
    let mut resub = prompt(1);
    resub.started_unix = 99;
    assert!(!global_cancel_clears(Some(&resub), &old));
    assert!(global_cancel_clears(Some(&old), &old));
    assert!(!global_cancel_clears(None, &old));
    let mut other = prompt(2);
    other.started_unix = 0;
    assert!(!global_cancel_clears(Some(&other), &old));
}

fn claim_stale_threshold() {
    let now = NOW;
    let old = now - secs(BLOCKOP_STALE_SECS + 1);
    assert!(claim_stale(old, now, BLOCKOP_STALE_SECS));
    assert!(!claim_stale(now, now, BLOCKOP_STALE_SECS));
    assert!(!claim_stale(now - secs(3), now, BLOCKOP_STALE_SECS));
}

#[test]
fn guard_test_claim_stale_threshold() {
    claim_stale_threshold();
}

#[test]
fn guard_tests_test_claim_stale_threshold() {
    claim_stale_threshold();
}

fn claim_drop_reclaims() {
    let mut m = PaneMap::new();
    {
        let g = OpGuard::claim(&mut m, "w1:p1", NOW).expect("first claims");
        assert!(m.contains_key("w1:p1"));
        assert!(OpGuard::claim(&mut m, "w1:p1", NOW).is_none());
        g.release(&mut m);
    }
    assert!(!m.contains_key("w1:p1"));
    assert!(OpGuard::claim(&mut m, "w1:p1", NOW).is_some());
}

#[test]
fn guard_test_claim_drop_reclaims() {
    claim_drop_reclaims();
}

#[test]
fn guard_tests_test_claim_drop_reclaims() {
    claim_drop_reclaims();
}

fn claim_evicts_stale_keeps_fresh() {
    let mut m = PaneMap::new();
    let ancient = NOW - secs(BLOCKOP_STALE_SECS + 60);
    m.insert("old", ancient);
    m.insert("new", NOW);
    assert!(OpGuard::claim(&mut m, "old", NOW).is_some());
    assert!(OpGuard::claim(&mut m, "new", NOW).is_none());
    // Refused claims are read-only: no re-stamp.
    let at = *m.get("new").unwrap();
    assert!(OpGuard::claim(&mut m, "new", NOW + 7).is_none());
    assert_eq!(*m.get("new").unwrap(), at);
}

#[test]
fn guard_test_claim_evicts_stale_keeps_fresh() {
    claim_evicts_stale_keeps_fresh();
}

#[test]
fn guard_tests_test_claim_evicts_stale_keeps_fresh() {
    claim_evicts_stale_keeps_fresh();
}

fn is_held_evicts_stale_keeps_fresh() {
    let mut m = PaneMap::new();
    let ancient = NOW - secs(BLOCKOP_STALE_SECS + 60);
    m.insert("old", ancient);
    m.insert("new", NOW);
    assert!(!OpGuard::is_held(&mut m, "old", BLOCKOP_STALE_SECS, NOW));
    assert!(!m.contains_key("old"));
    assert!(OpGuard::is_held(&mut m, "new", BLOCKOP_STALE_SECS, NOW));
    let at = *m.get("new").unwrap();
    assert!(OpGuard::is_held(&mut m, "new", BLOCKOP_STALE_SECS, NOW));
    assert_eq!(*m.get("new").unwrap(), at);
    assert!(!OpGuard::is_held(&mut m, "missing", BLOCKOP_STALE_SECS, NOW));
}

#[test]
fn guard_test_is_held_evicts_stale_keeps_fresh() {
    is_held_evicts_stale_keeps_fresh();
}

#[test]
fn guard_tests_test_is_held_evicts_stale_keeps_fresh() {
    is_held_evicts_stale_keeps_fresh();
}

fn late_drop_keeps_successor() {
    // B rescues a wedged A, then A's leaked task finally releases: B's
    // live claim must survive (a third claimer still refuses).
    let mut m = PaneMap::new();
    let t0 = NOW - secs(BLOCKOP_STALE_SECS + 60);
    let g1 = OpGuard::claim(&mut m, "w1:p1", t0).expect("first claims");
    let g2 = OpGuard::claim(&mut m, "w1:p1", NOW).expect("evicts wedged A");
    g1.release(&mut m);
    assert!(m.contains_key("w1:p1"));
    assert!(OpGuard::claim(&mut m, "w1:p1", NOW).is_none());
    g2.release(&mut m);
    assert!(!m.contains_key("w1:p1"));
}

#[test]
fn guard_test_late_drop_keeps_successor() {
    late_drop_keeps_successor();
}

#[test]
fn guard_tests_test_late_drop_keeps_successor() {
    late_drop_keeps_successor();
}

fn reap_keeps_live_fresh_drops_stale_dead() {
    let now = NOW;
    let old = now - secs(BLOCKOP_STALE_SECS + 60);
    let mut map = PaneMap::new();
    map.insert("live-fresh", now);
    map.insert("live-stale", old);
    map.insert("dead-fresh", now);
    map.insert("dead-stale", old);
    let live = keys(&["live-fresh", "live-stale"]);
    let mut reaped = reap_stale(&mut map, &live, now, BLOCKOP_STALE_SECS);
    reaped.sort();
    assert_eq!(reaped, vec!["dead-stale".to_string(), "live-stale".to_string()]);
    assert!(map.contains_key("live-fresh"));
    assert!(!map.contains_key("live-stale"));
    assert!(!map.contains_key("dead-fresh"));
    assert!(!map.contains_key("dead-stale"));
}

#[test]
fn guard_test_reap_keeps_live_fresh_drops_stale_dead() {
    reap_keeps_live_fresh_drops_stale_dead();
}

#[test]
fn guard_tests_test_reap_keeps_live_fresh_drops_stale_dead() {
    reap_keeps_live_fresh_drops_stale_dead();
}

#[test]
fn test_record_capped_bounds_and_orders() {
    let mut l = VecDeque::new();
    for i in 0..HISTORY_CAP + 5 {
        record_capped(&mut l, format!("m{i}"));
    }
    assert_eq!(l.len(), HISTORY_CAP);
    assert_eq!(l.front().unwrap(), "m5");
    assert_eq!(l.back().unwrap(), &format!("m{}", HISTORY_CAP + 4));
}

#[test]
fn test_history_text_numbers_last_n_oldest_first() {
    let l = log(&["a", "b", "c"]);
    assert_eq!(history_text(&l, 5), "1. a\n2. b\n3. c");
    assert_eq!(history_text(&l, 2), "1. b\n2. c");
    assert_eq!(history_text(&l, 0), "1. c");
    assert_eq!(history_text(&l, 99), "1. a\n2. b\n3. c");
}

#[test]
fn history_text_empty_log_and_two_digit_numbers() {
    assert_eq!(history_text(&VecDeque::new(), 3), "");
    let l: VecDeque<String> = (0..12).map(|i| format!("m{i}")).collect();
    let t = history_text(&l, 12);
    assert!(t.starts_with("1. m0\n"));
    assert!(t.ends_with("\n12. m11"));
}

#[test]
fn test_parse_history_n_defaults_clamps_and_caps() {
    assert_eq!(parse_history_n(""), 5);
    assert_eq!(parse_history_n("nope"), 5);
    assert_eq!(parse_history_n("3"), 3);
    assert_eq!(parse_history_n("0"), 1);
    assert_eq!(parse_history_n("99"), HISTORY_CAP);
}

#[test]
fn test_record_gate_forum_chat_only() {
    assert!(should_record_msg(Some(7), 7));
    assert!(!should_record_msg(Some(7), 9));
    assert!(!should_record_msg(None, 9));
}

#[test]
fn reply_targets_lru_and_forget() {
    let mut t = ReplyTargets::new();
    t.remember_reply(1, 10, "w:a");
    t.remember_reply(1, 11, "w:b");
    assert_eq!(t.get(1, 10).map(|s| s.as_str()), Some("w:a"));
    // Refresh moves to the back and replaces the pane.
    t.remember_reply(1, 10, "w:c");
    assert_eq!(t.len(), 2);
    assert_eq!(t.get(1, 10).map(|s| s.as_str()), Some("w:c"));
    t.forget_target(1, 10);
    assert!(t.get(1, 10).is_none());
    assert_eq!(t.len(), 1);
    // The topic store gets the id only for forum-chat messages.
    assert_eq!(t.remember(Some(7), 7, Some(12), "w:a"), Some(12));
    assert_eq!(t.remember(Some(7), 9, Some(13), "w:a"), None);
    assert_eq!(t.remember(Some(7), 7, None, "w:a"), None);
    assert_eq!(t.len(), 3);
}

#[test]
fn reply_targets_evict_oldest_at_cap() {
    let mut t = ReplyTargets::new();
    for i in 0..512 {
        t.remember_reply(1, i, "w:a");
    }
    // Refreshing the oldest saves it from eviction.
    t.remember_reply(1, 0, "w:a");
    t.remember_reply(1, 600, "w:b");
    assert_eq!(t.len(), 512);
    assert!(t.get(1, 0).is_some());
    assert!(t.get(1, 1).is_none());
    assert_eq!(t.get(1, 600).map(|s| s.as_str()), Some("w:b"));
}

#[test]
fn test_migrate_cas_never_resurrects_vacant() {
    let mut s = Intents::new();
    assert!(!s.migrate_pending_cas("t:p1", (1, Some(7), "hi"), (1, Some(9), "hi")));
    assert!(!s.contains("t:p1"));
}

#[test]
fn test_migrate_cas_moves_occupied_match() {
    let mut s = Intents::new();
    s.remember_pending("t:p1", 1, Some(7), "hi", 1000);
    let stamp = s.get("t:p1").unwrap().started_unix;
    assert!(s.migrate_pending_cas("t:p1", (1, Some(7), "hi"), (1, Some(9), "hi")));
    let p = s.get("t:p1").unwrap().clone();
    assert_eq!((p.chat, p.thread, p.prompt.as_str()), (1, Some(9), "hi"));
    assert_eq!(p.started_unix, stamp);
    assert!(!s.migrate_pending_cas("t:p1", (1, Some(7), "hi"), (1, Some(11), "hi")));
    assert_eq!(s.get("t:p1").unwrap().thread, Some(9));
}

#[test]
fn test_cas_with_time_keeps_original_stamp() {
    let mut s = Intents::new();
    assert!(s.remember_pending_cas_with_time("t:p1", (1, None, "hi"), (1, None, "hi"), Some(42), 5000));
    assert_eq!(s.get("t:p1").unwrap().started_unix, 42);
    assert!(s.remember_pending_cas_with_time("t:p1", (1, None, "hi"), (1, None, "hi"), None, 6000));
    assert_eq!(s.get("t:p1").unwrap().started_unix, 42);
    assert!(!s.remember_pending_cas_with_time("t:p1", (1, None, "no"), (1, None, "no"), None, 7000));
    assert_eq!(s.get("t:p1").unwrap().prompt, "hi");
}

#[test]
fn test_cas_occupied_match_keeps_live_stamp() {
    let mut s = Intents::new();
    s.remember_pending("t:p1", 1, None, "continue", 1234);
    let fresh = s.get("t:p1").unwrap().started_unix;
    assert!(s.remember_pending_cas_with_time(
        "t:p1",
        (1, None, "continue"),
        (1, None, "continue"),
        Some(42),
        9999
    ));
    assert_eq!(s.get("t:p1").unwrap().started_unix, fresh);
}

#[test]
fn intents_clear_paths() {
    let mut s = Intents::new();
    s.remember_pending("t:p1", 1, None, "hi", 10);
    assert!(s.pending_matches("t:p1", 1, None, "hi"));
    assert!(s.pending_matches_stamp("t:p1", 1, None, "hi", 10));
    assert!(!s.pending_matches_stamp("t:p1", 1, None, "hi", 11));
    assert!(!s.clear_pending_if_matches("t:p1", 2, None, "hi"));
    assert!(s.clear_pending_if_matches("t:p1", 1, None, "hi"));
    assert!(!s.contains("t:p1"));
    // Unchanged-only clear: a changed slot survives.
    s.remember_pending("t:p1", 1, None, "hi", 10);
    let seen = s.get("t:p1").unwrap().clone();
    s.remember_pending("t:p1", 1, None, "hi", 20);
    assert!(!s.clear_pending_if_unchanged("t:p1", Some(&seen)));
    assert!(s.contains("t:p1"));
    let now_seen = s.get("t:p1").unwrap().clone();
    assert!(s.clear_pending_if_unchanged("t:p1", Some(&now_seen)));
    assert!(!s.clear_pending_if_unchanged("t:p1", None));
    s.remember_pending("t:p2", 1, None, "x", 1);
    assert!(s.clear_all_pending());
    assert!(!s.clear_all_pending());
    assert_eq!(s.len(), 0);
}

#[test]
fn global_cancel_snapshot_clear_keeps_resubmit() {
    let mut s = Intents::new();
    s.remember_pending("t:a", 1, None, "hi", 1);
    s.remember_pending("t:b", 1, None, "hi", 1);
    let mut snap = Intents::new();
    snap.remember_pending("t:a", 1, None, "hi", 1);
    snap.remember_pending("t:b", 1, None, "hi", 1);
    // b resubmitted identically after the snapshot (fresh stamp).
    s.remember_pending("t:b", 1, None, "hi", 2);
    let cleared = s.clear_matching_snapshot(&snap);
    assert_eq!(cleared, vec!["t:a".to_string()]);
    assert!(!s.contains("t:a"));
    assert!(s.contains("t:b"));
}

#[test]
fn shell_generation_guards_clear() {
    let mut g = ShellGen::new();
    let mut s = Intents::new();
    let e1 = g.bump_shell_epoch("t:sh");
    assert_eq!(e1, 1);
    s.remember_pending("t:sh", 1, None, "ls", 5);
    let e2 = g.bump_shell_epoch("t:sh");
    assert_eq!(e2, 2);
    // The older submit's settle cannot clear the resubmit's intent.
    assert!(!clear_shell_if_matches(&g, &mut s, "t:sh", 1, None, "ls", e1));
    assert!(s.contains("t:sh"));
    assert!(clear_shell_if_matches(&g, &mut s, "t:sh", 1, None, "ls", e2));
    assert!(!s.contains("t:sh"));
    g.remove("t:sh");
    assert!(!g.shell_epoch_is("t:sh", e2));
}

#[test]
fn state_paths() {
    assert_eq!(state_dir(None), ".");
    assert_eq!(state_dir(Some("/var/herdr")), "/var/herdr");
    assert_eq!(focus_file("."), "./focus.state");
    assert_eq!(offset_file("/var/herdr/"), "/var/herdr/offset.state");
}

#[test]
fn cas_remember_stamps_vacant_now_and_refuses_foreign() {
    let mut s = Intents::new();
    assert!(s.remember_pending_cas("t:p1", (1, None, "old"), (1, None, "restored"), 777));
    assert_eq!(s.get("t:p1").unwrap().started_unix, 777);
    assert_eq!(s.get("t:p1").unwrap().prompt, "restored");
    assert!(s.remember_pending_cas("t:p1", (1, None, "restored"), (2, Some(3), "moved"), 999));
    let p = s.get("t:p1").unwrap().clone();
    assert_eq!((p.chat, p.thread, p.prompt.as_str(), p.started_unix), (2, Some(3), "moved", 777));
    assert!(!s.remember_pending_cas("t:p1", (1, None, "restored"), (1, None, "corpse"), 1000));
    assert_eq!(s.get("t:p1").unwrap().prompt, "moved");
}
