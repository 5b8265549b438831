use herdr_telegram::notifier::cards::{is_stray, settle_after_read, settle_entry, settle_liveness, settle_send_again};
use herdr_telegram::notifier::cards_retry::{pre_post, settle_delivered, settle_stray};
use herdr_telegram::notifier::hygiene::{flip_candidates, mark_shell};
use herdr_telegram::notifier::spontaneous::{apply_dm_push, dm_delivered, dm_push, forum_delivered, Liveness, forum_complete, part_blocked, post_blocked, push_text, DmPush};
use herdr_telegram::pane_map::PaneSet;
use herdr_telegram::state::books::{Books, JobTag, PaneState};

/// A fixed "now" in milliseconds, far enough from zero for every window.
const NOW: u64 = 10_000_000;

fn armed(b: &mut Books, ps: &mut PaneState, pane: &str, status: &str, at: u64) {
    b.debounce.insert(pane, (status.to_string(), at));
    ps.status.insert(pane, status.to_string());
}

#[test]
fn part_gate_each_retarget_sign() {
    let mut b = Books::new();
    let mut ps = PaneState::new(None);
    armed(&mut b, &mut ps, "w:p", "done", NOW);
    assert!(!part_blocked(&b, &ps, "w:p", "done", Some(NOW), false));
    // idle↔done is still the settle.
    ps.status.insert("w:p", "idle".to_string());
    assert!(!part_blocked(&b, &ps, "w:p", "done", Some(NOW), false));
    ps.status.insert("w:p", "working".to_string());
    assert!(part_blocked(&b, &ps, "w:p", "done", Some(NOW), false), "moved on");
    ps.status.insert("w:p", "done".to_string());
    b.last_done.insert("w:p", NOW + 1);
    assert!(part_blocked(&b, &ps, "w:p", "done", Some(NOW), false), "newer final");
    b.last_done.remove("w:p");
    b.debounce.insert("w:p", ("done".to_string(), NOW + 5));
    assert!(part_blocked(&b, &ps, "w:p", "done", Some(NOW), false), "newer arm");
    b.debounce.remove("w:p");
    assert!(part_blocked(&b, &ps, "w:p", "done", Some(NOW), false), "cancelled arm (forum)");
    assert!(!part_blocked(&b, &ps, "w:p", "done", Some(NOW), true), "DM never arms");
    b.jobs.insert("w:p", JobTag { id: 1, epoch: 0, stopped: true });
    assert!(!part_blocked(&b, &ps, "w:p", "done", None, true), "stopped corpse is no owner");
    assert!(post_blocked(&b, &ps, "w:p", "done", None, true), "any job entry blocks the first send");
}

#[test]
fn push_text_and_completion() {
    assert_eq!(push_text("done", "answer", true), "answer");
    assert_eq!(push_text("blocked", "Q?", true), "⛔ Q?\n↩️ reply or type in topic to answer");
    assert_eq!(push_text("blocked", "Q?", false), "⛔ Q?\n↩️ reply here to answer");
    assert!(forum_complete(2, 2));
    assert!(!forum_complete(1, 2));
    assert!(!forum_complete(0, 0));
    assert_eq!(dm_push(true, false, false, false, false), DmPush::Owned);
    assert_eq!(dm_push(false, false, false, false, false), DmPush::Post);
    assert_eq!(dm_push(false, false, true, false, false), DmPush::Anchor);
    assert_eq!(dm_push(false, false, true, true, false), DmPush::Post, "questions re-buzz");
    assert_eq!(dm_push(false, true, false, false, true), DmPush::Keep);
}

#[test]
fn stray_settle_anchors_or_consumes() {
    let mut b = Books::new();
    let mut ps = PaneState::new(None);
    armed(&mut b, &mut ps, "w:p", "idle", NOW);
    assert!(settle_stray(&mut b, &mut ps, "w:p", "idle", NOW, vec!["x".to_string()]));
    assert!(!b.debounce.contains_key("w:p"));
    assert!(ps.seen.contains_key("w:p"));
    // Raced by a final: arm consumed, baseline untouched.
    let mut b = Books::new();
    let mut ps = PaneState::new(None);
    armed(&mut b, &mut ps, "w:p", "idle", NOW);
    b.last_done.insert("w:p", NOW + 1);
    assert!(!settle_stray(&mut b, &mut ps, "w:p", "idle", NOW, vec!["x".to_string()]));
    assert!(!b.debounce.contains_key("w:p") && !ps.seen.contains_key("w:p"));
    // A newer arm owns the reply: nothing changes.
    let mut b = Books::new();
    let mut ps = PaneState::new(None);
    armed(&mut b, &mut ps, "w:p", "idle", NOW + 9);
    assert!(!settle_stray(&mut b, &mut ps, "w:p", "idle", NOW, vec![]));
    assert!(b.debounce.contains_key("w:p"));
}

#[test]
fn pre_post_consumes_only_our_arm() {
    let mut b = Books::new();
    let mut ps = PaneState::new(None);
    armed(&mut b, &mut ps, "w:p", "done", NOW);
    assert!(pre_post(&mut b, &ps, "w:p", "done", NOW));
    ps.status.insert("w:p", "working".to_string());
    assert!(!pre_post(&mut b, &ps, "w:p", "done", NOW));
    assert!(!b.debounce.contains_key("w:p"), "moved on consumes our arm");
    armed(&mut b, &mut ps, "w:p", "done", NOW + 3);
    assert!(!pre_post(&mut b, &ps, "w:p", "done", NOW));
    assert!(b.debounce.contains_key("w:p"), "a newer arm stays");
    b.jobs.insert("w:p", JobTag { id: 1, epoch: 0, stopped: false });
    assert!(!pre_post(&mut b, &ps, "w:p", "done", NOW + 3));
    assert!(!b.debounce.contains_key("w:p"), "a job takes over: our arm goes");
    armed(&mut b, &mut ps, "w:q", "idle", NOW);
    settle_delivered(&mut b, &mut ps, "w:q", NOW, vec!["a".to_string()]);
    assert!(!b.debounce.contains_key("w:q") && ps.seen.contains_key("w:q"));
}

#[test]
fn dm_shell_flip_candidates() {
    let mut b = Books::new();
    let mut ps = PaneState::new(None);
    ps.status.insert("w:gone", "working".to_string());
    ps.status.insert("w:here", "idle".to_string());
    ps.status.insert("w:sh", "shell".to_string());
    let mut agents = PaneSet::new();
    agents.insert("w:here");
    assert_eq!(flip_candidates(&ps, &agents), vec!["w:gone".to_string()]);
    b.limit_alert.insert("w:gone", ("quota".to_string(), NOW));
    mark_shell(&mut b, &mut ps, "w:gone");
    assert_eq!(ps.status.get("w:gone").map(|s| s.as_str()), Some("shell"));
    assert!(!b.limit_alert.contains_key("w:gone"));
    assert!(flip_candidates(&ps, &agents).is_empty());
}

#[test]
fn settle_entry_gates_and_reset_consumes() {
    let mut b = Books::new();
    let mut ps = PaneState::new(None);
    armed(&mut b, &mut ps, "w:p", "done", NOW);
    assert!(settle_entry(&mut b, &ps, "w:p", "done", NOW, false));
    ps.status.insert("w:p", "idle".to_string());
    assert!(settle_entry(&mut b, &ps, "w:p", "done", NOW, false), "idle↔done holds");
    ps.status.insert("w:p", "working".to_string());
    assert!(!settle_entry(&mut b, &ps, "w:p", "done", NOW, false), "moved on");
    assert!(b.debounce.contains_key("w:p"), "a refused entry keeps the arm");
    ps.status.insert("w:p", "done".to_string());
    b.last_done.insert("w:p", NOW + 1);
    assert!(!settle_entry(&mut b, &ps, "w:p", "done", NOW, false), "newer final");
    b.last_done.remove("w:p");
    b.jobs.insert("w:p", JobTag { id: 1, epoch: 0, stopped: false });
    assert!(!settle_entry(&mut b, &ps, "w:p", "done", NOW, false), "live watcher");
    b.jobs.remove("w:p");
    assert!(!settle_entry(&mut b, &ps, "w:p", "done", NOW + 3, false), "not our arm");
    assert!(!settle_entry(&mut b, &ps, "w:p", "done", NOW + 3, true));
    assert!(b.debounce.contains_key("w:p"), "reset consumes only the exact arm");
    assert!(!settle_entry(&mut b, &ps, "w:p", "done", NOW, true));
    assert!(!b.debounce.contains_key("w:p"), "reset consumes our arm");
}

#[test]
fn settle_after_read_and_liveness_gates() {
    let mut b = Books::new();
    let mut ps = PaneState::new(None);
    armed(&mut b, &mut ps, "w:p", "idle", NOW);
    assert!(settle_after_read(&mut b, "w:p", "idle", NOW, false));
    b.last_done.insert("w:p", NOW + 1);
    assert!(!settle_after_read(&mut b, "w:p", "idle", NOW, true));
    assert!(b.debounce.contains_key("w:p"), "a final during the read owns the pane");
    b.last_done.remove("w:p");
    b.debounce.insert("w:p", ("idle".to_string(), NOW + 9));
    assert!(!settle_after_read(&mut b, "w:p", "idle", NOW, false), "newer arm");
    assert!(b.debounce.contains_key("w:p"));
    b.debounce.insert("w:p", ("idle".to_string(), NOW));
    assert!(!settle_after_read(&mut b, "w:p", "idle", NOW, true));
    assert!(!b.debounce.contains_key("w:p"), "reset mid-debounce consumes");
    b.debounce.insert("w:p", ("idle".to_string(), NOW));
    assert!(settle_liveness(&mut b, "w:p", NOW, Liveness::Allow));
    assert!(!settle_liveness(&mut b, "w:p", NOW, Liveness::Ambiguous));
    assert!(b.debounce.contains_key("w:p"), "ambiguous leaves the arm");
    assert!(!settle_liveness(&mut b, "w:p", NOW, Liveness::Dead));
    assert!(!b.debounce.contains_key("w:p"), "dead consumes the arm");
}

#[test]
fn delivery_stamps_done_only_when_complete() {
    let mut b = Books::new();
    assert!(!forum_delivered(&mut b, "w:p", 1, 2, NOW));
    assert!(!b.last_done.contains_key("w:p"), "a partial push never stamps");
    assert!(!forum_delivered(&mut b, "w:p", 0, 0, NOW));
    assert!(!b.last_done.contains_key("w:p"));
    assert!(forum_delivered(&mut b, "w:p", 2, 2, NOW + 1));
    assert_eq!(b.last_done.get("w:p"), Some(&(NOW + 1)));
    assert!(!dm_delivered(&mut b, "d:p", &[1, 1], 2, NOW));
    assert!(!b.last_done.contains_key("d:p"));
    assert!(dm_delivered(&mut b, "d:p", &[2, 0], 2, NOW + 2));
    assert_eq!(b.last_done.get("d:p"), Some(&(NOW + 2)));
}

#[test]
fn dm_empty_screen_never_posts_nor_moves_baseline() {
    // An empty screen never posts, whatever the body flag says.
    assert_eq!(dm_push(false, false, false, false, true), DmPush::Keep);
    assert_eq!(dm_push(false, false, false, true, true), DmPush::Keep);
    let mut ps = PaneState::new(None);
    ps.seen.insert("d:p", vec!["old".to_string()]);
    apply_dm_push(&mut ps, "d:p", DmPush::Keep, false, Vec::new());
    assert_eq!(ps.seen.get("d:p").unwrap()[0], "old");
    apply_dm_push(&mut ps, "d:p", DmPush::Owned, false, vec!["x".to_string()]);
    assert_eq!(ps.seen.get("d:p").unwrap()[0], "old");
    apply_dm_push(&mut ps, "d:p", DmPush::Post, false, vec!["x".to_string()]);
    assert_eq!(ps.seen.get("d:p").unwrap()[0], "old", "an undelivered post keeps the baseline");
    apply_dm_push(&mut ps, "d:p", DmPush::Post, true, vec!["new".to_string()]);
    assert_eq!(ps.seen.get("d:p").unwrap()[0], "new");
    apply_dm_push(&mut ps, "d:p", DmPush::Anchor, false, vec!["quiet".to_string()]);
    assert_eq!(ps.seen.get("d:p").unwrap()[0], "quiet");
}

#[test]
fn stray_threshold_and_bounded_send_retries() {
    assert!(is_stray(""));
    assert!(is_stray("x"));
    assert!(is_stray("é"));
    assert!(!is_stray("ok"));
    let mut b = Books::new();
    let mut ps = PaneState::new(None);
    armed(&mut b, &mut ps, "w:p", "done", NOW);
    assert!(settle_send_again(&b, &ps, "w:p", "done", NOW, 1, false));
    assert!(settle_send_again(&b, &ps, "w:p", "done", NOW, 2, false));
    assert!(!settle_send_again(&b, &ps, "w:p", "done", NOW, 3, false), "three tries at most");
    assert!(!settle_send_again(&b, &ps, "w:p", "done", NOW, 1, true), "a reset aborts");
    ps.status.insert("w:p", "working".to_string());
    assert!(!settle_send_again(&b, &ps, "w:p", "done", NOW, 1, false), "moved on");
}
