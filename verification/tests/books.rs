use herdr_telegram::notifier::limits::{limit_delivered, limit_tick, LIMIT_CLEAR_MISSES, LIMIT_STUCK_SECS};
use herdr_telegram::notifier::status::{observe_gate, observe_record, observe_settle, Gate, Settle, POST_PROMPT_QUIET_SECS};
use herdr_telegram::state::books::{clear_pane, Books, JobTag, PaneState};
use herdr_telegram::state::cancel_scope::{cancel_reply, cancel_scope, CancelScope, ScopedCancel};
use herdr_telegram::state::guard::BLOCKOP_STALE_SECS;
use herdr_telegram::state::waiters::Waiters;

/// A fixed "now" in milliseconds, far enough from zero for every window.
const NOW: u64 = 10_000_000;

fn secs(n: u64) -> u64 {
    n * 1000
}

fn job(id: u64) -> JobTag {
    JobTag { id, epoch: 0, stopped: false }
}

fn names(items: &[&str]) -> Vec<String> {
    items.iter().map(|s| s.to_string()).collect()
}

#[test]
fn test_cancel_retires_job_and_bumps_epoch() {
    let mut b = Books::new();
    b.jobs.insert("t:p1", job(1));
    b.intents.remember_pending("t:p1", 1, None, "hi", 0);
    let r = b.cancel_jobs_for("t:p1", NOW);
    assert!(r.done && r.notify && r.stop_typing);
    // The retired job comes back stopped at its next generation.
    let j = r.job.unwrap();
    assert!(j.stopped && j.id == 1 && j.epoch == 1);
    assert!(!b.jobs.contains_key("t:p1"));
    assert!(!b.intents.contains("t:p1"));
    assert!(b.last_done.contains_key("t:p1"));
}

#[test]
fn test_remove_if_same_is_last_writer_wins() {
    let mut b = Books::new();
    b.jobs.insert("t:p1", job(1));
    assert!(b.remove_job_if_epoch("t:p1", job(1)));
    // A successor inserted after the snapshot survives.
    b.jobs.insert("t:p1", job(2));
    b.jobs.insert("t:p1", job(3));
    assert!(!b.remove_job_if_epoch("t:p1", job(2)));
    assert_eq!(b.jobs.get("t:p1").map(|j| j.id), Some(3));
    // Same job reused at a bumped generation is a successor too.
    b.jobs.insert("t:p1", JobTag { id: 3, epoch: 1, stopped: false });
    assert!(!b.remove_job_if_epoch("t:p1", job(3)));
    assert!(b.jobs.contains_key("t:p1"));
    assert!(b.remove_job_if_epoch("t:p1", JobTag { id: 3, epoch: 1, stopped: false }));
    assert!(!b.jobs.contains_key("t:p1"));
}

#[test]
fn retire_if_epoch_keeps_successor_intent() {
    let mut b = Books::new();
    b.jobs.insert("t:p1", job(1));
    b.intents.remember_pending("t:p1", 1, None, "hi", 0);
    // A successor job took the pane: the old retire touches nothing.
    b.jobs.insert("t:p1", job(2));
    assert!(!b.cancel_retire_if_epoch("t:p1", job(1)));
    assert!(b.intents.contains("t:p1"));
    assert!(b.cancel_retire_if_epoch("t:p1", job(2)));
    assert!(!b.intents.contains("t:p1") && !b.jobs.contains_key("t:p1"));
}

#[test]
fn test_quiet_retires_silently() {
    let mut b = Books::new();
    b.jobs.insert("t:p1", job(1));
    let r = b.cancel_jobs_for_quiet("t:p1");
    assert!(r.done && !r.notify && r.stop_typing);
    assert_eq!(r.job, Some(JobTag { id: 1, epoch: 1, stopped: true }));
    assert!(!b.jobs.contains_key("t:p1"));
}

#[test]
fn test_quiet_clears_limit_episode_loud_parity() {
    let mut b = Books::new();
    b.limit_alert.insert("t:p1", ("m".to_string(), NOW));
    b.limit_seen.insert("t:p1", ("m".to_string(), NOW));
    b.jobs.insert("t:p1", job(1));
    assert!(b.cancel_jobs_for_quiet("t:p1").done);
    assert!(!b.limit_alert.contains_key("t:p1"));
    assert!(!b.limit_seen.contains_key("t:p1"));
    b.limit_miss.insert("t:p9", 3);
    b.cancel_jobs_for_quiet("t:p9");
    assert!(!b.limit_miss.contains_key("t:p9"));
}

#[test]
fn test_cancel_stamps_done_to_abort_dm_spontaneous() {
    let mut b = Books::new();
    b.jobs.insert("t:p1", job(1));
    assert!(b.cancel_jobs_for("t:p1", NOW).done);
    assert_eq!(b.last_done.get("t:p1").copied(), Some(NOW));
    // No-job branch stamps too (shell intent cancel).
    b.intents.remember_pending("t:p9", 1, None, "hi", 0);
    assert!(b.cancel_jobs_for("t:p9", NOW + 1).done);
    assert!(b.last_done.contains_key("t:p9"));
    // Global cancel stamps every owned pane.
    b.jobs.insert("t:p2", job(2));
    b.cancel_all_jobs(NOW + 2);
    assert_eq!(b.last_done.get("t:p2").copied(), Some(NOW + 2));
    // Quiet retires stamp nothing.
    b.jobs.insert("t:p3", job(3));
    b.cancel_jobs_for_quiet("t:p3");
    assert!(!b.last_done.contains_key("t:p3"));
}

#[test]
fn test_job_only_preserves_pending_intent() {
    let mut b = Books::new();
    b.jobs.insert("t:p1", job(1));
    b.intents.remember_pending("t:p1", 1, None, "hi", 0);
    let r = b.cancel_job_only_for("t:p1");
    assert!(r.done);
    assert_eq!(r.job, Some(JobTag { id: 1, epoch: 1, stopped: true }));
    // The live shell intent keeps the pane's typing task.
    assert!(!r.stop_typing);
    assert!(b.intents.contains("t:p1"));
}

#[test]
fn test_cancel_no_job_branch_keeps_racing_intent() {
    let mut b = Books::new();
    b.intents.remember_pending("t:p1", 1, None, "hi", 0);
    assert!(!b.intents.clear_pending_if_unchanged("t:p1", None));
    assert!(b.intents.contains("t:p1"));
    let seen = b.intents.get("t:p1").cloned();
    assert!(b.intents.clear_pending_if_unchanged("t:p1", seen.as_ref()));
    assert!(!b.intents.contains("t:p1"));
}

#[test]
fn test_job_only_vacant_keeps_live_debounce() {
    let mut b = Books::new();
    b.jobs.insert("t:p9", job(9));
    b.debounce.insert("t:p9", ("idle".to_string(), NOW));
    assert!(!b.cancel_job_only_for("t:vacant").done);
    assert!(b.debounce.contains_key("t:p9"));
    b.debounce.insert("t:vacant", ("idle".to_string(), NOW));
    assert!(!b.cancel_job_only_for("t:vacant").done);
    assert!(!b.debounce.contains_key("t:vacant"));
}

#[test]
fn test_cancel_all_counts_and_stops() {
    let mut b = Books::new();
    b.jobs.insert("t:p1", job(1));
    b.jobs.insert("t:p2", job(2));
    let g = b.cancel_all_jobs(NOW);
    assert_eq!(g.count, 2);
    let mut ids: Vec<u64> = g.retired.iter().map(|(_, j)| j.id).collect();
    ids.sort();
    assert_eq!(ids, vec![1, 2]);
    assert_eq!(b.jobs.len(), 0);
}

#[test]
fn global_cancel_owned_panes_and_bystander() {
    let mut b = Books::new();
    b.jobs.insert("t:p1", job(1));
    b.intents.remember_pending("t:sh", 1, None, "hi", 7);
    b.typewait.arm(1, None, "t:p1", NOW);
    b.debounce.insert("t:by", ("idle".to_string(), NOW));
    let g = b.cancel_all_jobs(NOW);
    assert_eq!(g.count, 1);
    assert!(g.owned.contains("t:p1") && g.owned.contains("t:sh"));
    assert!(!g.owned.contains("t:by"), "bystander never owned work");
    assert!(!b.last_done.contains_key("t:by"));
    assert!(!b.intents.contains("t:sh"));
    assert_eq!(b.typewait.len(), 0);
    assert_eq!(b.debounce.len(), 0);
}

#[test]
fn loud_no_job_with_shell_intent_keeps_typing() {
    let mut b = Books::new();
    b.intents.remember_pending("t:sh", 1, None, "ls", 1);
    let r = b.cancel_jobs_for("t:sh", NOW);
    assert!(r.done && !r.notify && r.job.is_none());
    assert!(!r.stop_typing);
    let r = b.cancel_jobs_for("t:none", NOW);
    assert!(!r.done && r.stop_typing);
}

#[test]
fn waiters_drop_disarm_and_expire() {
    let mut w = Waiters::new();
    w.arm(1, None, "t:p1", NOW);
    w.arm(1, Some(5), "t:p2", NOW - secs(1000));
    w.arm(2, None, "t:p1", NOW);
    assert_eq!(w.get(1, None), Some(("t:p1".to_string(), NOW)));
    // Re-arming the same chat replaces its waiter.
    w.arm(1, None, "t:p3", NOW + 1);
    assert_eq!(w.len(), 3);
    assert_eq!(w.get(1, None), Some(("t:p3".to_string(), NOW + 1)));
    w.expire(NOW, 900);
    assert!(w.get(1, Some(5)).is_none());
    w.drop_target("t:p1");
    assert!(w.get(2, None).is_none());
    assert_eq!(w.len(), 1);
    w.disarm(1, None);
    assert_eq!(w.len(), 0);
}

#[test]
fn clear_pane_retires_dead_pane_books() {
    let mut b = Books::new();
    let mut ps = PaneState::new(Some("t:p1".to_string()));
    ps.status.insert("t:p1", "working".to_string());
    ps.blockop.insert("t:p1", NOW - secs(BLOCKOP_STALE_SECS + 1));
    ps.modelop.insert("t:p1", NOW);
    b.debounce.insert("t:p1", ("idle".to_string(), NOW));
    b.keywait.arm(1, None, "t:p1", NOW);
    b.intents.remember_pending("t:p1", 1, None, "hi", 42);
    let r = clear_pane(&mut b, &mut ps, "t:p1", NOW);
    assert!(r.focus_cleared && r.stop_typing);
    assert!(ps.focus.is_none());
    assert!(!ps.status.contains_key("t:p1"));
    assert!(!b.debounce.contains_key("t:p1"));
    assert_eq!(b.keywait.len(), 0);
    // A stale tap guard goes; a fresh model switch may still be in flight.
    assert!(!ps.blockop.contains_key("t:p1"));
    assert!(ps.modelop.contains_key("t:p1"));
    // Intents stay for recovery.
    assert!(b.intents.contains("t:p1"));
    // A live watcher keeps typing; another pane's focus is untouched.
    let mut ps2 = PaneState::new(Some("t:other".to_string()));
    b.jobs.insert("t:p2", job(2));
    let r = clear_pane(&mut b, &mut ps2, "t:p2", NOW);
    assert!(!r.stop_typing && !r.focus_cleared);
    assert_eq!(ps2.focus.as_deref(), Some("t:other"));
}

#[test]
fn cancel_scope_targets() {
    let running = names(&["w1:p1", "w1:p2"]);
    assert_eq!(cancel_scope("all", &running, None), CancelScope::All);
    assert_eq!(cancel_scope("  ALL extra", &running, None), CancelScope::All);
    assert_eq!(cancel_scope("#All", &running, None), CancelScope::All);
    assert_eq!(cancel_scope("w1:p2 x", &running, None), CancelScope::Pane("w1:p2".to_string()));
    assert_eq!(cancel_scope("#w1:p1", &running, None), CancelScope::Pane("w1:p1".to_string()));
    assert_eq!(cancel_scope("w9:p9", &running, None), CancelScope::NoJob("w9:p9".to_string()));
    // A hash-only word is a typo, never the focus.
    assert_eq!(cancel_scope("##", &running, Some("w1:p1")), CancelScope::NoJob("##".to_string()));
    assert_eq!(cancel_scope("", &running, Some("w1:p1")), CancelScope::Pane("w1:p1".to_string()));
    assert_eq!(cancel_scope(" ", &running, None), CancelScope::NothingFocused);
}

#[test]
fn cancel_scope_replies() {
    let running = names(&["w1:p1", "w1:p2"]);
    assert_eq!(cancel_reply(&CancelScope::All, &running), "✋ cancelled 2 pending job(s) (all panes)");
    assert_eq!(cancel_reply(&CancelScope::Pane("w1:p1".to_string()), &running), "✋ cancelled w1:p1");
    assert_eq!(
        cancel_reply(&CancelScope::NoJob("w9".to_string()), &running),
        "no job for w9 — running: w1:p1, w1:p2"
    );
    assert_eq!(
        cancel_reply(&CancelScope::NothingFocused, &Vec::new()),
        "nothing focused — running: none — /cancel <pane> or /cancel all"
    );
}

#[test]
fn limit_gated_banner_pages_after_stuck_window() {
    let mut b = Books::new();
    let hit = Some(("rate-limit", true));
    assert!(limit_tick(&mut b, "w:p", "working", false, hit, false, true, NOW).is_none());
    assert!(limit_tick(&mut b, "w:p", "working", false, hit, false, true, NOW + secs(LIMIT_STUCK_SECS) - 1).is_none());
    let c = limit_tick(&mut b, "w:p", "working", false, hit, false, true, NOW + secs(LIMIT_STUCK_SECS + 1))
        .expect("stuck stall pages");
    limit_delivered(&mut b, c, true, NOW + secs(LIMIT_STUCK_SECS + 1));
    // Paged once per episode: the same kind stays silent.
    assert!(limit_tick(&mut b, "w:p", "working", false, hit, false, true, NOW + secs(LIMIT_STUCK_SECS + 60)).is_none());
}

#[test]
fn limit_failed_send_repages_after_cooldown() {
    // A failed delivery re-pages once the cool-down passes, without
    // restarting the stuck timer.
    let mut b = Books::new();
    let hit = Some(("rate-limit", true));
    let t = NOW;
    assert!(limit_tick(&mut b, "w:p", "working", false, hit, false, true, t).is_none());
    let c = limit_tick(&mut b, "w:p", "working", false, hit, false, true, t + secs(91)).expect("pages");
    limit_delivered(&mut b, c, false, t + secs(91));
    assert!(limit_tick(&mut b, "w:p", "working", false, hit, false, true, t + secs(100)).is_none());
    assert!(limit_tick(&mut b, "w:p", "working", false, hit, false, true, t + secs(152)).is_some());
}

#[test]
fn limit_immediate_kind_flip_damps_one_tick() {
    let mut b = Books::new();
    let c = limit_tick(&mut b, "w:p", "working", false, Some(("auth", false)), false, true, NOW).expect("first sight pages");
    limit_delivered(&mut b, c, true, NOW);
    assert!(limit_tick(&mut b, "w:p", "working", false, Some(("quota", false)), false, true, NOW + 1).is_none());
    assert!(limit_tick(&mut b, "w:p", "working", false, Some(("quota", false)), false, true, NOW + 2).is_some());
}

#[test]
fn limit_episode_ends_after_clean_streak() {
    // The episode ends only after the clean-read streak; outages and
    // shells change nothing.
    let mut b = Books::new();
    let hit = Some(("rate-limit", true));
    assert!(limit_tick(&mut b, "w:p", "working", false, hit, false, true, NOW).is_none());
    assert!(b.limit_seen.contains_key("w:p"));
    let c = limit_tick(&mut b, "w:p", "working", false, hit, false, true, NOW + secs(91)).unwrap();
    limit_delivered(&mut b, c, true, NOW + secs(91));
    assert!(limit_tick(&mut b, "w:p", "working", true, None, false, true, NOW + secs(92)).is_none());
    assert!(limit_tick(&mut b, "w:p", "shell", false, None, false, true, NOW + secs(92)).is_none());
    for _ in 0..LIMIT_CLEAR_MISSES - 1 {
        limit_tick(&mut b, "w:p", "working", false, None, false, true, NOW + secs(93));
        assert!(b.limit_alert.contains_key("w:p"));
    }
    limit_tick(&mut b, "w:p", "working", false, None, false, true, NOW + secs(94));
    assert!(!b.limit_alert.contains_key("w:p") && !b.limit_seen.contains_key("w:p"));
    assert!(!b.limit_miss.contains_key("w:p"));
}

#[test]
fn limit_settled_pane_only_accumulates_and_dest_rules() {
    let mut b = Books::new();
    let gated = Some(("rate-limit", true));
    assert!(limit_tick(&mut b, "w:p", "idle", false, gated, false, true, NOW).is_none());
    // The stuck timer kept running across the settled sample.
    assert!(limit_tick(&mut b, "w:p", "working", false, gated, false, true, NOW + secs(95)).is_some());
    let mut b = Books::new();
    let imm = Some(("auth", false));
    assert!(limit_tick(&mut b, "w:q", "working", false, imm, true, true, NOW).is_none(), "went to shell");
    assert!(limit_tick(&mut b, "w:q", "working", false, imm, false, false, NOW).is_none(), "nowhere to send");
    assert!(limit_tick(&mut b, "w:q", "working", false, imm, false, true, NOW).is_some());
}

#[test]
fn observe_record_collapses_fast_flap_only() {
    let mut ps = PaneState::new(None);
    let mut b = Books::new();
    let o = observe_record(&mut ps, &mut b, "w:p", "done", NOW);
    assert!(o.old.is_none() && !o.collapsed);
    let o = observe_record(&mut ps, &mut b, "w:p", "idle", NOW + secs(3));
    assert_eq!(o.old.as_deref(), Some("done"));
    assert!(o.collapsed);
    let o = observe_record(&mut ps, &mut b, "w:p", "done", NOW + secs(40));
    assert!(!o.collapsed);
    assert_eq!(ps.status.get("w:p").map(|s| s.as_str()), Some("done"));
    // Leaving working ends the stall episode; leaving blocked drops the sig.
    b.limit_alert.insert("w:p", ("quota".to_string(), NOW));
    observe_record(&mut ps, &mut b, "w:p", "working", NOW + secs(50));
    assert!(b.limit_alert.contains_key("w:p"));
    observe_record(&mut ps, &mut b, "w:p", "blocked", NOW + secs(60));
    assert!(!b.limit_alert.contains_key("w:p"));
    ps.blocked_sig.insert("w:p", "sig".to_string());
    observe_record(&mut ps, &mut b, "w:p", "idle", NOW + secs(70));
    assert!(!ps.blocked_sig.contains_key("w:p"));
}

#[test]
fn observe_gate_and_settle_paths() {
    assert_eq!(observe_gate(None, "blocked", true, false), Gate::SeedBlocked);
    assert_eq!(observe_gate(Some("idle"), "blocked", true, false), Gate::Stop);
    assert_eq!(observe_gate(Some("blocked"), "blocked", false, false), Gate::RefreshBlocked);
    assert_eq!(observe_gate(Some("working"), "blocked", false, true), Gate::Stop);
    assert_eq!(observe_gate(Some("idle"), "idle", false, false), Gate::Stop);
    assert_eq!(observe_gate(Some("idle"), "working", false, false), Gate::Stop);
    assert_eq!(observe_gate(Some("working"), "done", false, false), Gate::ReadScreen);
    assert_eq!(observe_settle(Some("shell"), "idle", false, false, None, true, NOW), Settle::Anchor);
    assert_eq!(observe_settle(Some("working"), "done", true, false, None, true, NOW), Settle::Quiet);
    assert_eq!(
        observe_settle(Some("done"), "idle", false, true, Some(NOW - secs(10)), true, NOW),
        Settle::Anchor
    );
    assert_eq!(
        observe_settle(Some("done"), "idle", false, true, Some(NOW - secs(POST_PROMPT_QUIET_SECS)), true, NOW),
        Settle::Arm
    );
    assert_eq!(observe_settle(None, "done", false, true, Some(NOW), false, NOW), Settle::PushDm);
}

#[test]
fn push_history_trims_skips_blank_and_caps() {
    let mut ps = PaneState::new(None);
    assert_eq!(ps.history_render("w1:p1", 5), "(no history yet)");
    ps.push_history("w1:p1", "   \n ");
    assert_eq!(ps.history_render("w1:p1", 5), "(no history yet)");
    ps.push_history("w1:p1", "  first  ");
    ps.push_history("w1:p1", "second");
    ps.push_history("w2:p1", "other pane");
    assert_eq!(ps.history_render("w1:p1", 5), "1. first\n2. second");
    assert_eq!(ps.history_render("w1:p1", 1), "1. second");
    assert_eq!(ps.history_render("w1:p1", 0), "1. second");
    assert_eq!(ps.history_render("w2:p1", 9), "1. other pane");
    for i in 0..30 {
        ps.push_history("w1:p1", &format!("m{i}"));
    }
    assert_eq!(ps.history_render("w1:p1", 2), "1. m28\n2. m29");
    let all = ps.history_render("w1:p1", 100);
    assert_eq!(all.lines().count(), 20);
    assert!(all.starts_with("1. m10\n"));
}

#[test]
fn test_job_live_ignores_stopped_corpse() {
    let mut b = Books::new();
    assert!(!b.job_live("t:p1"));
    b.jobs.insert("t:p1", job(1));
    assert!(b.job_live("t:p1"));
    b.jobs.insert("t:p1", JobTag { id: 1, epoch: 0, stopped: true });
    assert!(!b.job_live("t:p1"));
}

#[test]
fn running_panes_union_sorted_once() {
    let mut b = Books::new();
    assert!(b.running_panes().is_empty());
    b.jobs.insert("w2:p1", job(1));
    b.jobs.insert("w10:p1", job(2));
    b.intents.remember_pending("w1:p3", 1, None, "hi", 5);
    b.intents.remember_pending("w2:p1", 1, None, "x", 5);
    b.intents.remember_pending("é:p", 1, None, "y", 5);
    b.jobs.insert("z:p", job(3));
    let got = b.running_panes();
    let mut want = names(&["w2:p1", "w10:p1", "w1:p3", "é:p", "z:p"]);
    want.sort();
    assert_eq!(got, want);
    assert_eq!(got, names(&["w10:p1", "w1:p3", "w2:p1", "z:p", "é:p"]));
}

#[test]
fn cancel_scoped_plans_scope_and_reply() {
    let mut b = Books::new();
    b.jobs.insert("w2:p1", job(1));
    b.intents.remember_pending("w1:p1", 1, None, "hi", 5);
    let (reply, done) = b.cancel_scoped("#w9", Some("w1:p1"), NOW);
    assert_eq!(reply, "no job for w9 — running: w1:p1, w2:p1");
    assert!(matches!(done, ScopedCancel::Nothing));
    assert!(b.jobs.contains_key("w2:p1") && b.intents.contains("w1:p1"));
    let (reply, done) = b.cancel_scoped("", Some("w1:p1"), NOW);
    assert_eq!(reply, "✋ cancelled w1:p1");
    assert!(matches!(done, ScopedCancel::Pane(r) if r.done && r.job.is_none()));
    assert!(!b.intents.contains("w1:p1"));
    assert_eq!(b.last_done.get("w1:p1"), Some(&NOW));
    b.intents.remember_pending("w1:p1", 1, None, "hi", 5);
    let (reply, done) = b.cancel_scoped("all", None, NOW);
    assert_eq!(reply, "✋ cancelled 2 pending job(s) (all panes)");
    assert!(matches!(done, ScopedCancel::All(ref g) if g.count == 1));
    assert_eq!(b.jobs.len(), 0);
    assert!(!b.intents.contains("w1:p1"));
    let (reply, done) = Books::new().cancel_scoped("", None, NOW);
    assert_eq!(reply, "nothing focused — running: none — /cancel <pane> or /cancel all");
    assert!(matches!(done, ScopedCancel::Nothing));
}

#[test]
fn observe_record_flap_keeps_stamp_so_quiet_one_window() {
    let mut ps = PaneState::new(None);
    let mut b = Books::new();
    observe_record(&mut ps, &mut b, "w:p", "done", NOW);
    // A perpetual fast flap every 5 s: collapsed only within one window
    // of the last real change, whose stamp the collapse keeps.
    assert!(observe_record(&mut ps, &mut b, "w:p", "idle", NOW + secs(5)).collapsed);
    assert_eq!(ps.last_change.get("w:p"), Some(&NOW));
    assert!(observe_record(&mut ps, &mut b, "w:p", "done", NOW + secs(10)).collapsed);
    assert!(!observe_record(&mut ps, &mut b, "w:p", "idle", NOW + secs(15)).collapsed);
    assert_eq!(ps.last_change.get("w:p"), Some(&(NOW + secs(15))));
}

#[test]
fn test_global_cancel_race_keeps_identical_resubmit() {
    // The snapshot sees the old intent; an identical resubmit with a
    // fresh stamp lands before the clear and survives it.
    let mut b = Books::new();
    b.intents.remember_pending("t:stamp", 1, None, "hi", 7);
    let snap = b.global_snapshot();
    b.intents.remember_pending("t:stamp", 1, None, "hi", 99);
    let g = b.cancel_all_jobs_from(&snap, NOW);
    assert_eq!(b.intents.get("t:stamp").unwrap().started_unix, 99);
    assert!(!g.owned.contains("t:stamp"), "a surviving successor keeps typing and stamp");
    assert!(!b.last_done.contains_key("t:stamp"));
}

#[test]
fn global_cancel_from_snapshot_spares_successor_job() {
    let mut b = Books::new();
    b.jobs.insert("t:a", job(1));
    b.jobs.insert("t:b", job(2));
    b.intents.remember_pending("t:c", 1, None, "x", 5);
    b.debounce.insert("t:by", ("idle".to_string(), NOW));
    let snap = b.global_snapshot();
    // A successor job replaces t:b; t:c's intent is settled meanwhile.
    b.jobs.insert("t:b", job(3));
    b.intents.clear_pending("t:c");
    let g = b.cancel_all_jobs_from(&snap, NOW);
    assert_eq!(g.count, 1);
    assert_eq!(g.retired[0].0, "t:a");
    assert!(b.jobs.contains_key("t:b") && !b.jobs.contains_key("t:a"));
    assert!(g.owned.contains("t:a"), "removed work stops");
    assert!(!g.owned.contains("t:b"), "the successor keeps its typing");
    assert!(g.owned.contains("t:c"), "a snapshot pane left with no work stops");
    assert!(!g.owned.contains("t:by"), "a bystander never enters");
    assert_eq!(b.last_done.get("t:a"), Some(&NOW));
    assert!(!b.last_done.contains_key("t:b"));
    assert_eq!(b.debounce.len(), 0);
}

#[test]
fn retired_generation_wraps_and_global_cancel_stops_all() {
    let mut b = Books::new();
    b.jobs.insert("t:p1", JobTag { id: 4, epoch: u64::MAX, stopped: false });
    let r = b.cancel_jobs_for_quiet("t:p1");
    assert_eq!(r.job, Some(JobTag { id: 4, epoch: 0, stopped: true }));
    b.jobs.insert("t:a", JobTag { id: 1, epoch: 3, stopped: false });
    let g = b.cancel_all_jobs(NOW);
    assert_eq!(g.retired[0].1, JobTag { id: 1, epoch: 4, stopped: true });
}
