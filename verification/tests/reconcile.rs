use herdr_telegram::notifier::reconcile::{confirm_vanished, split_vanished, AgentProbe};
use herdr_telegram::pane_map::PaneSet;
use herdr_telegram::notifier::reconcile_close::{close_retire, racer_owns_owed, successor_owns_slot};
use herdr_telegram::notifier::reconcile_vanished::{
    quit_notice, restore_status, vanish_claim, vanish_recheck, vanish_restore, Vanish,
};
use herdr_telegram::state::books::{Books, JobTag, PaneState};
use herdr_telegram::state::pending::PendingPrompt;

/// A fixed "now" in milliseconds, far enough from zero for every window.
const NOW: u64 = 10_000_000;

fn pp(prompt: &str, stamp: u64) -> PendingPrompt {
    PendingPrompt { chat: 1, thread: None, prompt: prompt.to_string(), started_unix: stamp }
}

fn put(b: &mut Books, pane: &str, p: &PendingPrompt) {
    b.intents.remember_pending(pane, p.chat, p.thread, &p.prompt, p.started_unix);
}

#[test]
fn test_racer_gate_stamp_pinned() {
    let mut b = Books::new();
    put(&mut b, "t:p1", &pp("hi", 42));
    assert!(!racer_owns_owed(&b, "t:p1", Some(&pp("hi", 42))));
    assert!(racer_owns_owed(&b, "t:p1", Some(&pp("hi", 99))));
    assert!(racer_owns_owed(&b, "t:p1", Some(&pp("other", 42))));
    b.intents.clear_pending("t:p1");
    assert!(racer_owns_owed(&b, "t:p1", Some(&pp("hi", 42))));
    assert!(!racer_owns_owed(&b, "t:p1", None));
    put(&mut b, "t:p1", &pp("fresh", 1));
    assert!(racer_owns_owed(&b, "t:p1", None));
}

#[test]
fn test_successor_owns_slot_counts_pending_only() {
    let mut b = Books::new();
    assert!(!successor_owns_slot(&b, "t:p1"));
    put(&mut b, "t:p1", &pp("live", 1));
    assert!(successor_owns_slot(&b, "t:p1"), "pending-only successor must bail the close");
    b.intents.clear_pending("t:p1");
    b.jobs.insert("t:p1", JobTag { id: 1, epoch: 0, stopped: false });
    assert!(successor_owns_slot(&b, "t:p1"));
}

#[test]
fn test_close_dead_pane_corpse_clears_and_restores_original_stamp() {
    let mut b = Books::new();
    let mut ps = PaneState::new(Some("t:p1".to_string()));
    put(&mut b, "t:p1", &pp("hi", 42));
    ps.status.insert("t:p1", "working".to_string());
    b.debounce.insert("t:p1", ("idle".to_string(), NOW));
    let owed = b.intents.get("t:p1").cloned();
    let r = close_retire(&mut b, &mut ps, "t:p1", owed.as_ref(), None, None, NOW);
    assert!(r.is_some(), "clean corpse must run the retire");
    let restored = b.intents.get("t:p1").expect("owed intent restored for recover");
    assert_eq!(restored.prompt, "hi");
    assert_eq!(restored.started_unix, 42, "original stamp, never now");
    assert!(ps.focus.is_none(), "corpse focus cleared");
    assert!(!ps.status.contains_key("t:p1"), "corpse status cleared");
    assert!(!b.debounce.contains_key("t:p1"));
}

#[test]
fn close_retire_bails_on_remint_or_racer() {
    let mut b = Books::new();
    let mut ps = PaneState::new(None);
    b.jobs.insert("t:p1", JobTag { id: 1, epoch: 0, stopped: false });
    ps.status.insert("t:p1", "working".to_string());
    // A new mapping appeared during the close.
    assert!(close_retire(&mut b, &mut ps, "t:p1", None, Some(5), Some(6), NOW).is_none());
    // A submit took the slot that was vacant at the snapshot.
    put(&mut b, "t:p1", &pp("fresh", 9));
    assert!(close_retire(&mut b, &mut ps, "t:p1", None, Some(5), None, NOW).is_none());
    assert!(b.jobs.contains_key("t:p1") && ps.status.contains_key("t:p1"));
    // The owed intent still holds: retire runs; the mapping we closed is gone.
    let owed = b.intents.get("t:p1").cloned();
    let r = close_retire(&mut b, &mut ps, "t:p1", owed.as_ref(), Some(5), None, NOW).unwrap();
    assert!(r.0.done && !r.0.notify);
    assert!(!b.jobs.contains_key("t:p1"));
    assert_eq!(b.intents.get("t:p1").map(|p| p.started_unix), Some(9));
}

#[test]
fn test_restore_status_undoes_shell_claim_only() {
    let mut ps = PaneState::new(None);
    restore_status(&mut ps, "t:p1", Some("working".to_string()));
    assert!(!ps.status.contains_key("t:p1"));
    ps.status.insert("t:p1", "shell".to_string());
    restore_status(&mut ps, "t:p1", Some("working".to_string()));
    assert_eq!(ps.status.get("t:p1").map(|s| s.as_str()), Some("working"));
    ps.status.insert("t:p1", "shell".to_string());
    restore_status(&mut ps, "t:p1", None);
    assert!(!ps.status.contains_key("t:p1"));
    ps.status.insert("t:p1", "working".to_string());
    restore_status(&mut ps, "t:p1", Some("idle".to_string()));
    assert_eq!(ps.status.get("t:p1").map(|s| s.as_str()), Some("working"));
}

#[test]
fn test_retire_vanished_turned_over_restores_status_keeps_successor() {
    let mut b = Books::new();
    let mut ps = PaneState::new(None);
    ps.status.insert("t:p1", "working".to_string());
    put(&mut b, "t:p1", &pp("fresh", 99));
    b.jobs.insert("t:p1", JobTag { id: 1, epoch: 0, stopped: false });
    let v = vanish_claim(&mut b, &mut ps, "t:p1", Some(&pp("corpse", 42)));
    assert!(matches!(v, Vanish::JobOnly(_)));
    assert_eq!(ps.status.get("t:p1").map(|s| s.as_str()), Some("working"));
    assert_eq!(b.intents.get("t:p1").map(|p| p.prompt.as_str()), Some("fresh"));
    assert_eq!(b.intents.get("t:p1").map(|p| p.started_unix), Some(99));
    assert!(!b.jobs.contains_key("t:p1"), "stale corpse watcher still retires job-only");
}

#[test]
fn test_retire_vanished_late_pending_restores_status() {
    let mut b = Books::new();
    let mut ps = PaneState::new(None);
    ps.status.insert("t:p1", "working".to_string());
    b.jobs.insert("t:p1", JobTag { id: 1, epoch: 0, stopped: false });
    put(&mut b, "t:p1", &pp("late", 7));
    let v = vanish_claim(&mut b, &mut ps, "t:p1", None);
    assert!(matches!(v, Vanish::JobOnly(_)));
    assert_eq!(ps.status.get("t:p1").map(|s| s.as_str()), Some("working"));
    assert_eq!(b.intents.get("t:p1").map(|p| p.prompt.as_str()), Some("late"));
    assert!(!b.jobs.contains_key("t:p1"));
}

#[test]
fn test_retire_vanished_double_claim_stands_down() {
    let mut b = Books::new();
    let mut ps = PaneState::new(None);
    ps.status.insert("t:p1", "shell".to_string());
    b.jobs.insert("t:p1", JobTag { id: 1, epoch: 0, stopped: false });
    let v = vanish_claim(&mut b, &mut ps, "t:p1", None);
    assert!(matches!(v, Vanish::StandDown));
    assert_eq!(ps.status.get("t:p1").map(|s| s.as_str()), Some("shell"));
    assert!(b.jobs.contains_key("t:p1"));
}

#[test]
fn vanish_report_path_and_failed_notice_restore() {
    let mut b = Books::new();
    let mut ps = PaneState::new(None);
    ps.status.insert("t:p1", "working".to_string());
    let owed = pp("make", 42);
    put(&mut b, "t:p1", &owed);
    b.jobs.insert("t:p1", JobTag { id: 3, epoch: 0, stopped: false });
    let v = vanish_claim(&mut b, &mut ps, "t:p1", Some(&owed));
    let prev = match v {
        Vanish::Report(q, prev) => {
            assert!(q.done);
            prev
        },
        _ => panic!("owed prompt must be reported"),
    };
    assert_eq!(prev.as_deref(), Some("working"));
    assert_eq!(ps.status.get("t:p1").map(|s| s.as_str()), Some("shell"));
    assert!(!b.intents.contains("t:p1"));
    assert!(vanish_recheck(&b, &mut ps, "t:p1", &owed, prev.clone()));
    assert_eq!(quit_notice("  \n"), "agent quit to shell.");
    assert_eq!(quit_notice(" $ ls\nfoo \n"), "agent quit to shell — last output:\n$ ls\nfoo");
    // The notice failed: the intent comes back with its original stamp.
    assert!(vanish_restore(&mut b, &mut ps, "t:p1", &owed, prev));
    assert_eq!(b.intents.get("t:p1").map(|p| p.started_unix), Some(42));
    assert_eq!(ps.status.get("t:p1").map(|s| s.as_str()), Some("working"));
}

#[test]
fn vanish_recheck_yields_to_racing_submit() {
    let mut b = Books::new();
    let mut ps = PaneState::new(None);
    ps.status.insert("t:p1", "shell".to_string());
    put(&mut b, "t:p1", &pp("new", 5));
    assert!(!vanish_recheck(&b, &mut ps, "t:p1", &pp("old", 1), Some("idle".to_string())));
    assert_eq!(ps.status.get("t:p1").map(|s| s.as_str()), Some("idle"));
    // A racing submit also blocks the failed-notice restore.
    assert!(!vanish_restore(&mut b, &mut ps, "t:p1", &pp("old", 1), None));
    assert_eq!(b.intents.get("t:p1").map(|p| p.prompt.as_str()), Some("new"));
}

#[test]
fn vanish_confirm_is_fail_closed_and_split_fail_open() {
    let probes = vec![
        ("w:a".to_string(), AgentProbe::NotFound),
        ("w:b".to_string(), AgentProbe::Found),
        ("w:c".to_string(), AgentProbe::Blip),
        ("w:d".to_string(), AgentProbe::NotFound),
    ];
    let confirmed = confirm_vanished(&probes);
    assert_eq!(confirmed, vec!["w:a".to_string(), "w:d".to_string()]);
    let mut panes = PaneSet::new();
    panes.insert("w:a");
    panes.insert("w:z");
    let (shells, dead) = split_vanished(&confirmed, Some(&panes));
    assert_eq!(shells, vec!["w:a".to_string()]);
    assert_eq!(dead, vec!["w:d".to_string()]);
    let (shells, dead) = split_vanished(&confirmed, Some(&PaneSet::new()));
    assert!(shells.is_empty() && dead.is_empty(), "an empty list never reads as all dead");
    let (shells, dead) = split_vanished(&confirmed, None);
    assert!(shells.is_empty() && dead.is_empty());
}
