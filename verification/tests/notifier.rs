use herdr_telegram::notifier::pin::{edit_failure, edit_failure_of_lower, pin_step, EditFailure, PinStep};
use herdr_telegram::notifier::cards_retry::consume_reset_arm;
use herdr_telegram::notifier::hygiene::{confirm_deaths, dm_flip_retires, leave_cleanup, LeaveCleanup};
use herdr_telegram::notifier::limit_claim::try_claim;
use herdr_telegram::notifier::limit_decide::{
    alert_suppressed, kind_flipped, no_dest_skip, rank_tail_hits, scan_tail, send_cooled,
    LIMIT_REMIND_SECS, SCAN_TAIL_LINES,
};
use herdr_telegram::notifier::pin::{emoji, pin_text, refresh_pin};
use herdr_telegram::notifier::reconcile::ReconcileFlight;
use herdr_telegram::notifier::reconcile_close::generation_bails;
use herdr_telegram::notifier::retry_guard::moved_on;
use herdr_telegram::notifier::spontaneous::{
    arm_superseded, dm_arm_blocks, dm_complete, liveness, part_stale, Liveness,
};
use herdr_telegram::notifier::status_flap::{collapse_flap, should_anchor_baseline, FLAP_WINDOW_SECS};
use herdr_telegram::pane_map::{PaneMap, PaneSet};

/// A fixed "now" in milliseconds, far enough from zero for every window.
const NOW: u64 = 10_000_000;

fn secs(n: u64) -> u64 {
    n * 1000
}

fn v(items: &[&str]) -> Vec<String> {
    items.iter().map(|s| s.to_string()).collect()
}

fn set(items: &[&str]) -> PaneSet {
    let mut s = PaneSet::new();
    for i in items {
        s.insert(i);
    }
    s
}

fn arm(now: u64, later_secs: u64) -> (String, u64) {
    ("done".to_string(), now + secs(later_secs))
}

#[test]
fn test_consume_reset_arm_takes_only_the_exact_arm() {
    let now = NOW;
    let mut db = PaneMap::new();
    db.insert("w:p1", arm(now, 0));
    db.insert("w:p2", arm(now, 30));
    // Exact arm consumed.
    consume_reset_arm(&mut db, "w:p1", now);
    assert!(!db.contains_key("w:p1"));
    // Newer arm survives a stale consume.
    consume_reset_arm(&mut db, "w:p2", now);
    assert!(db.contains_key("w:p2"));
    // Unknown pane: no-op, never panics.
    consume_reset_arm(&mut db, "w:p9", now);
    assert_eq!(db.len(), 1);
}

#[test]
fn test_leave_cleanup_blocked_retires_sig() {
    assert_eq!(leave_cleanup(true), LeaveCleanup::Sig);
    assert_eq!(leave_cleanup(false), LeaveCleanup::Cards);
}

#[test]
fn test_dm_flip_retires_watcher_or_owed() {
    assert!(!dm_flip_retires(false, false));
    assert!(dm_flip_retires(false, true));
    assert!(dm_flip_retires(true, false));
    assert!(dm_flip_retires(true, true));
}

#[test]
fn test_confirm_deaths_union_verified() {
    let first = set(&["live:p1"]);
    let fresh = set(&["live:p1", "flap:p2"]);
    let dying = vec!["flap:p2".to_string(), "dead:p9".to_string()];
    let (out, retain) = confirm_deaths(&first, &fresh, dying);
    assert_eq!(out, vec!["dead:p9".to_string()]);
    assert!(retain.contains("live:p1"));
    assert!(retain.contains("flap:p2"));
    assert!(!retain.contains("dead:p9"));
}

#[test]
fn test_claim_suppresses_same_kind_then_releases_on_drop() {
    let mut alerts = PaneMap::new();
    let now = NOW;
    let g = try_claim(&mut alerts, "w1:p1", "quota", now).expect("first claim");
    assert!(try_claim(&mut alerts, "w1:p1", "quota", now + 5).is_none());
    // A provider blip never hides later quota (same-kind only).
    let h = try_claim(&mut alerts, "w1:p1", "provider", now + 10).expect("other kind claims");
    h.keep();
    // The abandoned quota claim releases only if still ours: the provider
    // claim overwrote the slot, so it stays.
    g.release(&mut alerts);
    assert_eq!(alerts.get("w1:p1").map(|(k, _)| k.clone()), Some("provider".to_string()));
}

#[test]
fn test_drop_releases_own_claim_for_retry() {
    let mut alerts = PaneMap::new();
    let g = try_claim(&mut alerts, "w1:p1", "quota", NOW).expect("claim");
    g.release(&mut alerts);
    assert!(!alerts.contains_key("w1:p1"));
}

#[test]
fn test_keep_arms_suppress_and_release_frees() {
    let mut alerts = PaneMap::new();
    let g = try_claim(&mut alerts, "w1:p1", "quota", NOW).expect("claim");
    g.keep();
    assert!(try_claim(&mut alerts, "w1:p1", "quota", NOW + 1).is_none());
    let h = try_claim(&mut alerts, "w1:p1", "provider", NOW + 2).expect("second kind claims");
    h.release(&mut alerts);
    assert!(try_claim(&mut alerts, "w1:p1", "provider", NOW + 3).is_some());
}

#[test]
fn claim_resumes_after_remind_window() {
    let mut alerts = PaneMap::new();
    try_claim(&mut alerts, "w1:p1", "quota", NOW).expect("claim").keep();
    assert!(try_claim(&mut alerts, "w1:p1", "quota", NOW + secs(LIMIT_REMIND_SECS) - 1).is_none());
    assert!(try_claim(&mut alerts, "w1:p1", "quota", NOW + secs(LIMIT_REMIND_SECS)).is_some());
}

#[test]
fn test_scan_tail_keeps_fresh_window() {
    assert_eq!(scan_tail(&v(&["a", "b"])).len(), 2);
    let big: Vec<String> = (0..200).map(|i| format!("l{i}")).collect();
    let tail = scan_tail(&big);
    assert_eq!(tail.len(), SCAN_TAIL_LINES);
    assert_eq!(tail[0], "l120");
    assert_eq!(tail[SCAN_TAIL_LINES - 1], "l199");
}

#[test]
fn test_suppress_same_kind_only() {
    let t = NOW;
    let recent = t - secs(60);
    assert!(alert_suppressed("rate-limit", Some(("rate-limit", recent)), t, 1800));
    assert!(!alert_suppressed("rate-limit", Some(("provider", recent)), t, 1800));
    assert!(!alert_suppressed("rate-limit", Some(("rate-limit", t - secs(1900))), t, 1800));
    assert!(!alert_suppressed("rate-limit", None, t, 1800));
}

#[test]
fn test_flip_damping() {
    assert!(!kind_flipped(None, "rate-limit"));
    assert!(!kind_flipped(Some("rate-limit"), "rate-limit"));
    assert!(kind_flipped(Some("provider"), "rate-limit"));
}

#[test]
fn test_send_cooldown() {
    let t = NOW;
    assert!(!send_cooled(None, t));
    assert!(send_cooled(Some(t - secs(10)), t));
    assert!(!send_cooled(Some(t - secs(61)), t));
}

#[test]
fn test_no_dest_skip_forum_unmapped_stays_silent() {
    assert!(no_dest_skip(false, true));
    assert!(no_dest_skip(true, true));
    assert!(no_dest_skip(true, false));
    assert!(!no_dest_skip(false, false));
}

#[test]
fn rank_tail_hits_priority_then_recency() {
    // Strong alone wins; weak without context never counts.
    assert_eq!(rank_tail_hits(Some((3, 2)), None, true), Some((3, 2, true)));
    assert_eq!(rank_tail_hits(None, Some((4, 1)), false), None);
    assert_eq!(rank_tail_hits(None, Some((4, 1)), true), Some((4, 1, false)));
    // Better priority beats a fresher line.
    assert_eq!(rank_tail_hits(Some((0, 1)), Some((5, 2)), true), Some((0, 1, true)));
    assert_eq!(rank_tail_hits(Some((5, 2)), Some((0, 1)), true), Some((0, 1, false)));
    // Same priority: the fresher line wins; a tie stays strong.
    assert_eq!(rank_tail_hits(Some((1, 2)), Some((4, 2)), true), Some((4, 2, false)));
    assert_eq!(rank_tail_hits(Some((4, 2)), Some((4, 2)), true), Some((4, 2, true)));
    assert_eq!(rank_tail_hits(None, None, true), None);
}

#[test]
fn test_pin_text_with_and_without_excerpt() {
    assert_eq!(pin_text("idle", ""), "🟢 idle");
    assert_eq!(pin_text("working", "  "), "🔄 working");
    assert_eq!(pin_text("done", "  -2 (or the range)  "), "✅ done\n\n-2 (or the range)");
}

#[test]
fn test_pin_text_truncates_long_excerpt() {
    let long = "x".repeat(2000);
    let text = pin_text("idle", &long);
    assert!(text.len() < 900);
    assert!(text.starts_with("🟢 idle\n\n"));
}

#[test]
fn pin_emoji_per_status() {
    assert_eq!(emoji("blocked"), "⛔");
    assert_eq!(emoji("weird"), "❔");
    assert_eq!(pin_text("blocked", "a\n"), "⛔ blocked\n\na");
    // Exactly 800 characters kept, trimmed after the cut.
    let body = format!("{}{}", "y".repeat(800), "z".repeat(5));
    assert_eq!(pin_text("idle", &body), format!("🟢 idle\n\n{}", "y".repeat(800)));
}

#[test]
fn test_reconcile_guard_single_flight() {
    // First claim wins, overlap loses, finishing releases.
    let mut f = ReconcileFlight::new();
    assert!(f.try_begin_reconcile(), "first scan claims");
    assert!(!f.try_begin_reconcile());
    f.finish();
    assert!(f.try_begin_reconcile());
    f.finish();
}

#[test]
fn test_generation_bails_only_on_new_mapping() {
    assert!(!generation_bails(None, Some(5)));
    assert!(!generation_bails(None, None));
    assert!(!generation_bails(Some(5), Some(5)));
    assert!(generation_bails(Some(6), Some(5)));
    assert!(generation_bails(Some(5), None));
}

#[test]
fn test_moved_on_collapse_and_missing() {
    assert!(!moved_on(Some("idle"), "idle"));
    assert!(!moved_on(Some("done"), "idle"));
    assert!(!moved_on(Some("idle"), "done"));
    assert!(!moved_on(Some("working"), "working"));
    assert!(!moved_on(Some("blocked"), "blocked"));
    assert!(moved_on(Some("working"), "idle"));
    assert!(moved_on(Some("idle"), "working"));
    assert!(moved_on(Some("blocked"), "done"));
    assert!(moved_on(None, "idle"));
    assert!(moved_on(None, "blocked"));
}

#[test]
fn spontaneous_test_dm_complete_per_owner() {
    assert!(dm_complete(&[2, 0], 2));
    assert!(dm_complete(&[1], 1));
    assert!(dm_complete(&[2, 2], 2));
    assert!(!dm_complete(&[1, 1], 2));
    assert!(!dm_complete(&[1, 0], 2));
    assert!(!dm_complete(&[], 1));
    assert!(!dm_complete(&[0], 0));
    assert!(!dm_complete(&[], 0));
}

#[test]
fn spontaneous_tests_test_dm_complete_per_owner() {
    assert!(dm_complete(&[2, 0], 2));
    assert!(dm_complete(&[1], 1));
    assert!(dm_complete(&[2, 2], 2));
    assert!(!dm_complete(&[1, 1], 2));
    assert!(!dm_complete(&[1, 0], 2));
    assert!(!dm_complete(&[], 1));
    assert!(!dm_complete(&[0], 0));
    assert!(!dm_complete(&[], 0));
}

#[test]
fn spontaneous_test_liveness_fail_closed() {
    let live = vec!["w1:p1".to_string(), "w1:p2".to_string()];
    assert_eq!(liveness(Some(&live), "w1:p1"), Liveness::Allow);
    assert_eq!(liveness(Some(&live), "w9:p9"), Liveness::Dead);
    assert_eq!(liveness(None, "w1:p1"), Liveness::Ambiguous);
    assert_eq!(liveness(Some(&Vec::new()), "w1:p1"), Liveness::Ambiguous);
}

#[test]
fn spontaneous_tests_test_liveness_fail_closed() {
    let live = vec!["w1:p1".to_string(), "w1:p2".to_string()];
    assert_eq!(liveness(Some(&live), "w1:p1"), Liveness::Allow);
    assert_eq!(liveness(Some(&live), "w9:p9"), Liveness::Dead);
    assert_eq!(liveness(None, "w1:p1"), Liveness::Ambiguous);
    assert_eq!(liveness(Some(&Vec::new()), "w1:p1"), Liveness::Ambiguous);
}

#[test]
fn spontaneous_test_arm_superseded_currency() {
    let at = NOW;
    let later = at + secs(1);
    assert!(!arm_superseded(Some(("done", at)), "done", at));
    assert!(arm_superseded(None, "done", at));
    assert!(arm_superseded(Some(("done", later)), "done", at));
    assert!(arm_superseded(Some(("idle", at)), "done", at));
}

#[test]
fn spontaneous_gate_test_arm_superseded_currency() {
    let at = NOW;
    let later = at + secs(1);
    assert!(!arm_superseded(Some(("done", at)), "done", at));
    assert!(arm_superseded(None, "done", at));
    assert!(arm_superseded(Some(("done", later)), "done", at));
    assert!(arm_superseded(Some(("idle", at)), "done", at));
}

#[test]
fn spontaneous_test_dm_arm_blocks_missing_arm_proceeds() {
    let at = NOW;
    let later = at + secs(1);
    assert!(!dm_arm_blocks(None, "done", at));
    assert!(!dm_arm_blocks(Some(("done", at)), "done", at));
    assert!(dm_arm_blocks(Some(("done", later)), "done", at));
    assert!(dm_arm_blocks(Some(("idle", at)), "done", at));
}

#[test]
fn spontaneous_gate_test_dm_arm_blocks_missing_arm_proceeds() {
    let at = NOW;
    let later = at + secs(1);
    assert!(!dm_arm_blocks(None, "done", at));
    assert!(!dm_arm_blocks(Some(("done", at)), "done", at));
    assert!(dm_arm_blocks(Some(("done", later)), "done", at));
    assert!(dm_arm_blocks(Some(("idle", at)), "done", at));
}

#[test]
fn test_part_stale_any_retarget_aborts() {
    assert!(part_stale(true, false, false, false));
    assert!(part_stale(false, true, false, false));
    assert!(part_stale(false, false, true, false));
    assert!(part_stale(false, false, false, true));
    assert!(!part_stale(false, false, false, false));
}

#[test]
fn test_collapse_flap_fast_only() {
    let now = NOW;
    let recent = Some(now);
    let old_t = Some(now - secs(FLAP_WINDOW_SECS + 5));
    assert!(collapse_flap(Some("done"), "idle", recent, now));
    assert!(collapse_flap(Some("idle"), "done", recent, now));
    assert!(!collapse_flap(Some("done"), "idle", old_t, now));
    assert!(!collapse_flap(Some("idle"), "done", old_t, now));
    assert!(!collapse_flap(Some("working"), "idle", recent, now));
    assert!(!collapse_flap(Some("done"), "blocked", recent, now));
    assert!(!collapse_flap(None, "idle", recent, now));
}

#[test]
fn test_should_anchor_baseline_never_empty() {
    assert!(!should_anchor_baseline(&[]));
    assert!(should_anchor_baseline(&["out".to_string()]));
    assert!(!should_anchor_baseline(&["".to_string(), "   ".to_string()]));
    assert!(should_anchor_baseline(&["".to_string(), "out".to_string()]));
}

#[test]
fn pin_refresh_steps_and_edit_failures() {
    assert_eq!(pin_step(Some("🟢 idle"), "🟢 idle", Some(5)), PinStep::Skip);
    assert_eq!(pin_step(Some("old"), "🟢 idle", Some(5)), PinStep::Edit(5));
    assert_eq!(pin_step(None, "🟢 idle", None), PinStep::Create);
    assert_eq!(edit_failure_of_lower("bad request: message is not modified"), EditFailure::NotModified);
    assert_eq!(edit_failure_of_lower("bad request: message to edit not found"), EditFailure::NotFound);
    assert_eq!(edit_failure_of_lower("timeout"), EditFailure::Other);
    // Case-insensitive through the lowercase call.
    assert_eq!(edit_failure("Bad Request: message is NOT MODIFIED"), EditFailure::NotModified);
    assert_eq!(edit_failure("Message To Edit Not Found"), EditFailure::NotFound);
}

#[test]
fn refresh_pin_gates_and_steps() {
    // No forum or no topic: nothing to edit or post.
    assert_eq!(refresh_pin(None, Some(3), None, "idle", "", Some(9)).0, PinStep::Skip);
    assert_eq!(refresh_pin(Some(7), None, None, "idle", "", Some(9)).0, PinStep::Skip);
    // Identical text skips; a change edits the known pin or posts one.
    let (st, text) = refresh_pin(Some(7), Some(3), Some("🟢 idle"), "idle", "", Some(9));
    assert_eq!((st, text.as_str()), (PinStep::Skip, "🟢 idle"));
    assert_eq!(refresh_pin(Some(7), Some(3), Some("🟢 idle"), "working", "", Some(9)).0, PinStep::Edit(9));
    assert_eq!(refresh_pin(Some(7), Some(3), None, "working", "", None).0, PinStep::Create);
}

#[test]
fn reconcile_run_exclusive_releases_on_return() {
    let mut f = ReconcileFlight::new();
    assert_eq!(f.run_exclusive(|| 7), Some(7));
    // Released: the next scan runs too.
    assert_eq!(f.run_exclusive(|| 8), Some(8));
    // While another scan holds the flight, a scan returns at once.
    assert!(f.try_begin_reconcile());
    let mut ran = false;
    assert_eq!(f.run_exclusive(|| { ran = true; }), None);
    assert!(!ran);
    assert!(!f.try_begin_reconcile(), "the holder keeps the flight");
}
