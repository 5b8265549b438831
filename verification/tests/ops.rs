use herdr_telegram::ops::cmd::{
    complete_prefix, count_topics_in_text, needs_rotation, status_lines, tail_start, topics_count,
    Status, ROTATE_LIMIT, TAIL_CAP,
};
use herdr_telegram::ops::launchd::{plist_path, release_exe, render_plist, xml_escape};
use herdr_telegram::ops::mask::{
    collapse_home_line, mask_chat_id_assign, mask_forum_ids, mask_line, mask_telegram_assign,
    mask_tokens, mask_user_dirs,
};
use herdr_telegram::ops::proc::{guard_port, herdr_socket, log_path, looks_like_bot, PortError, SINGLE_INSTANCE_PORT};
use herdr_telegram::opencode::{final_reply_from_rows, join_reply_rows};
use herdr_telegram::{ack_update, should_advance_offset};

#[test]
fn test_render_plist_keeps_every_key() {
    let p = render_plist("/r/target/release/herdr-telegram", "/r");
    for key in [
        "<string>dev.herdr.telegram</string>",
        "<string>/r/target/release/herdr-telegram</string>",
        "<string>/r</string>",
        "<!-- ThrottleInterval 30:",
        "<integer>30</integer>",
        "<key>RunAtLoad</key>",
        "<key>KeepAlive</key>",
        "<key>SuccessfulExit</key>",
        "<string>/r/bot.log</string>",
        "<!DOCTYPE plist",
    ] {
        assert!(p.contains(key), "plist missing {key}");
    }
    assert!(!p.contains("__REPO_DIR__"), "placeholder leaked");
    let ka = p.find("<key>KeepAlive</key>").expect("KeepAlive");
    let se = p.find("<key>SuccessfulExit</key>").expect("SuccessfulExit");
    let ka_end = p.find("<key>StandardOutPath</key>").expect("after KeepAlive");
    assert!(ka < se && se < ka_end, "SuccessfulExit not inside KeepAlive");
    assert!(p[ka..ka_end].contains("<dict>"), "KeepAlive must be a dict");
}

#[test]
fn test_release_exe_gate() {
    assert!(release_exe("/r/target/release/herdr-telegram"));
    assert!(!release_exe("/r/target/debug/herdr-telegram"));
    assert!(!release_exe("/tmp/target/release-evil/herdr-telegram"));
    assert!(!release_exe("/r/target/release.bak/debug/herdr-telegram"));
    assert!(!release_exe("herdr-telegram"));
}

#[test]
fn release_exe_edges() {
    assert!(release_exe("target/release/herdr-telegram"));
    assert!(!release_exe("/r/target/release/"));
    assert!(!release_exe("/r/xtarget/release/herdr-telegram"));
}

#[test]
fn test_plist_path_suffix() {
    let p = plist_path("/Users/x");
    assert!(p.ends_with("Library/LaunchAgents/dev.herdr.telegram.plist"));
}

#[test]
fn plist_path_joins_exactly() {
    assert_eq!(plist_path("/Users/x"), "/Users/x/Library/LaunchAgents/dev.herdr.telegram.plist");
    assert_eq!(plist_path("/Users/x/"), "/Users/x/Library/LaunchAgents/dev.herdr.telegram.plist");
    assert_eq!(plist_path(""), "Library/LaunchAgents/dev.herdr.telegram.plist");
}

#[test]
fn test_render_plist_escapes_xml() {
    let p = render_plist("/r/a&b/herdr-telegram", "/r/a<b>");
    assert!(p.contains("/r/a&amp;b/herdr-telegram"));
    assert!(p.contains("/r/a&lt;b&gt;"));
}

#[test]
fn xml_escape_three_specials() {
    assert_eq!(xml_escape("a&b<c>d\"e'f"), "a&amp;b&lt;c&gt;d\"e'f");
    assert_eq!(xml_escape("plain"), "plain");
}

#[test]
fn test_mask_line_ordering() {
    let home = "/Users/x";
    assert_eq!(mask_line("at /Users/x/a and /Users/y/b", home), "at ~/a and /Users/***/b");
    assert_eq!(mask_line("at /Users/x2/a", home), "at /Users/***/a");
    let t = "tok 123456:ABCDEFGHIJKLMNOPQRSTUV chat_id = -42 -100123 TELEGRAM_BOT_TOKEN=abc";
    assert_eq!(mask_line(t, home), "tok ***TOKEN*** chat_id=*** -100*** TELEGRAM_BOT_TOKEN=***");
    assert_eq!(mask_line("bot started (PID: 1)", home), "bot started (PID: 1)");
    assert_eq!(mask_line("a 12:34 b -100 c TELEGRAM_X", home), "a 12:34 b -100 c TELEGRAM_X");
}

#[test]
fn test_mask_chat_id_colon_form() {
    assert_eq!(mask_line("chat_id: -42", ""), "chat_id=***");
    assert_eq!(mask_line("chat_id:-42", ""), "chat_id=***");
    assert_eq!(mask_line("chat_id: abc", ""), "chat_id: abc");
}

#[test]
fn mask_steps_one_by_one() {
    assert_eq!(collapse_home_line("/Users/x", "/Users/x"), "~");
    assert_eq!(collapse_home_line("/Users/x/a", ""), "/Users/x/a");
    assert_eq!(mask_user_dirs("/home/bob/x and /home/"), "/home/***/x and /home/");
    assert_eq!(mask_chat_id_assign("chat_id=7"), "chat_id=***");
    assert_eq!(mask_forum_ids("id -1001234"), "id -100***");
    assert_eq!(mask_tokens("x 123456:ABCDEFGHIJKLMNOPQRSTUVWXYZ y"), "x ***TOKEN*** y");
    assert_eq!(mask_telegram_assign("TELEGRAM_CHAT_ID=5 rest"), "TELEGRAM_CHAT_ID=*** rest");
}

#[test]
fn test_looks_like_bot_exact() {
    assert!(looks_like_bot("/Users/x/t/target/release/herdr-telegram"));
    assert!(looks_like_bot("./target/debug/herdr-telegram"));
    assert!(!looks_like_bot("/Users/x/t/target/debug/herdr-telegram ctl trigger w1:p1 blocked"));
    assert!(!looks_like_bot("/Users/x/t/target/debug/herdr-telegram dev"));
    assert!(!looks_like_bot("/Users/x/t/target/debug/herdr-telegram dev status"));
    assert!(!looks_like_bot("/Users/x/t/target/debug/herdr-telegram ops cleanup"));
    assert!(looks_like_bot("/Users/x/ops/herdr-telegram/target/release/herdr-telegram"));
    assert!(!looks_like_bot("pgrep -f target/release/herdr-telegram"));
    assert!(!looks_like_bot("/usr/bin/some-daemon"));
    assert!(!looks_like_bot(""));
    assert!(looks_like_bot("/Users/a b/tools/herdr-telegram"));
    assert!(!looks_like_bot("pgrep -f /Users/a b/herdr-telegram"));
    assert!(!looks_like_bot("/Users/a b/herdr-telegram ctl"));
}

#[test]
fn guard_port_default_valid_and_each_error() {
    assert_eq!(guard_port(None), Ok(SINGLE_INSTANCE_PORT));
    assert_eq!(guard_port(Some(" 8080 ")), Ok(8080));
    assert_eq!(guard_port(Some("0")), Err(PortError::Invalid));
    assert_eq!(guard_port(Some("65536")), Err(PortError::Invalid));
    assert_eq!(guard_port(Some("http")), Err(PortError::Invalid));
    assert_eq!(guard_port(Some("")), Err(PortError::Invalid));
    assert_eq!(PortError::Invalid.message(), "HERDR_TG_PORT invalid (must be a port number)");
}

#[test]
fn herdr_socket_default_and_tilde() {
    assert_eq!(herdr_socket("", "/Users/x"), "/Users/x/.config/herdr/herdr.sock");
    assert_eq!(herdr_socket(" ~/s.sock ", "/Users/x"), "/Users/x/s.sock");
    assert_eq!(herdr_socket("/tmp/h.sock", "/Users/x"), "/tmp/h.sock");
    assert_eq!(herdr_socket("~/s.sock", ""), "~/s.sock");
    assert_eq!(log_path(), "bot.log");
}

#[test]
fn test_should_advance_offset_poison_guard() {
    assert!(should_advance_offset(10, 10));
    assert!(should_advance_offset(11, 10));
    assert!(!should_advance_offset(0, 0));
    assert!(!should_advance_offset(0, 10));
    assert!(!should_advance_offset(9, 10));
}

#[test]
fn ack_update_moves_only_forward() {
    let mut off = 10;
    ack_update(&mut off, 10);
    assert_eq!(off, 11);
    ack_update(&mut off, 0);
    assert_eq!(off, 11);
    ack_update(&mut off, 5);
    assert_eq!(off, 11);
    ack_update(&mut off, 20);
    assert_eq!(off, 21);
}

#[test]
fn test_count_topics_parses_store_not_lines() {
    let t = r#"{"topics":{"w1:p1":1,"w1:p2":2},"tags":{"w1:p1":"a"},"titles":{"w1:p1":"t"},"pins":{},"icons":{},"last_msgs":{}}"#;
    assert_eq!(count_topics_in_text(t), 2);
    assert_eq!(count_topics_in_text(r#"{"w1:p1":1}"#), 1);
    assert_eq!(count_topics_in_text("not json"), 0);
}

#[test]
fn topics_count_prefers_envelope() {
    assert_eq!(topics_count(Some(2), Some(6)), 2);
    assert_eq!(topics_count(None, Some(1)), 1);
    assert_eq!(topics_count(None, None), 0);
    assert_eq!(count_topics_in_text("[1,2,3]"), 0);
    assert_eq!(count_topics_in_text(r#"{"topics":3,"a":1}"#), 2);
}

#[test]
fn cmd_tests_test_read_tail_from_seeks_and_caps() {
    // Full window from 0; a gap over the cap jumps the cursor.
    assert_eq!(tail_start(0, 20, 1024), 0);
    assert_eq!(tail_start(0, 20, 6), 14);
    let bytes = b"aaaa\nbbbb\ncccc\ndddd\n";
    assert_eq!(&bytes[tail_start(0, 20, 6) as usize..], b"\ndddd\n");
}

#[test]
fn tail_window_edges() {
    assert_eq!(tail_start(15, 20, 6), 15);
    assert_eq!(tail_start(0, TAIL_CAP + 10, TAIL_CAP), 10);
    assert_eq!(complete_prefix(b"ab\ncd"), 3);
    assert_eq!(complete_prefix(b"abcd"), 0);
    assert_eq!(complete_prefix(b"ab\n"), 3);
    assert_eq!(complete_prefix(b""), 0);
    assert!(!needs_rotation(ROTATE_LIMIT));
    assert!(needs_rotation(ROTATE_LIMIT + 1));
}

#[test]
fn status_report_lines() {
    let st = Status {
        bot_pids: vec![12, 345],
        port_pid: Some(12),
        socket_ok: true,
        offset: Some("991".to_string()),
        topic_titles: 3,
        log_bytes: 2048,
    };
    let lines = status_lines(&st, 47319, "/s.sock");
    assert_eq!(
        lines,
        vec![
            "=== HERDR TELEGRAM STATUS ===",
            "  Bot Status:   Running (PID: 12,345)",
            "  Guard Port:   In use :47319 (PID: 12)",
            "  Herdr Socket: Available (/s.sock)",
            "  Offset State: 991",
            "  Topics State: ~3 titles",
            "  Log File:     bot.log (2048 bytes)",
            "=============================",
        ]
    );
    let idle = Status { bot_pids: vec![], port_pid: None, socket_ok: false, offset: None, topic_titles: 0, log_bytes: 0 };
    let lines = status_lines(&idle, 1, "x");
    assert_eq!(lines[1], "  Bot Status:   Stopped");
    assert_eq!(lines[2], "  Guard Port:   Free :1");
    assert_eq!(lines[3], "  Herdr Socket: Not found (x)");
    assert_eq!(lines.len(), 7);
}

#[test]
fn opencode_reply_joins_nonblank_rows() {
    let out = br#"[{"txt":"first"},{"txt":"  "},{"other":1},{"txt":"second"}]"#;
    assert_eq!(final_reply_from_rows(out), Some("first\nsecond".to_string()));
    assert_eq!(final_reply_from_rows(br#"[{"txt":" "}]"#), None);
    assert_eq!(final_reply_from_rows(b"garbage"), None);
    assert_eq!(final_reply_from_rows(b"[]"), None);
    let rows = vec![Some(" a ".to_string()), None, Some("b".to_string())];
    assert_eq!(join_reply_rows(&rows), Some(" a \nb".to_string()));
}

#[test]
fn release_exe_agrees_with_component_split() {
    for exe in [
        "/r/target/release/bot",
        "target/release/bot",
        "/r/xtarget/release/bot",
        "/r/target/xrelease/bot",
        "/target/release/bot",
        "//target/release/bot",
        "/r/target/release/",
        "release/bot",
        "a/target/release/b/c",
    ] {
        let c: Vec<&str> = exe.split('/').collect();
        let want = c.len() >= 3
            && !c[c.len() - 1].is_empty()
            && c[c.len() - 2] == "release"
            && c[c.len() - 3] == "target";
        assert_eq!(release_exe(exe), want, "{exe}");
    }
}

#[test]
fn xml_escape_decodes_back_and_has_no_angles() {
    for s in ["a<b>&c", "&amp;", "&lt;&gt;", "plain", "", "<<&&>>"] {
        let e = xml_escape(s);
        assert!(!e.contains('<') && !e.contains('>'));
        let back = e.replace("&lt;", "<").replace("&gt;", ">").replace("&amp;", "&");
        assert_eq!(back, s);
    }
}

fn has_token(t: &str) -> bool {
    let c: Vec<char> = t.chars().collect();
    (6..c.len()).any(|p| {
        c[p] == ':'
            && p + 21 <= c.len()
            && c[p - 6..p].iter().all(|d| d.is_ascii_digit())
            && c[p + 1..p + 21].iter().all(|x| x.is_ascii_alphanumeric() || *x == '_' || *x == '-')
    })
}

#[test]
fn no_token_survives_mask_tokens() {
    let tail = "A".repeat(20);
    let inputs = [
        format!("123456:{tail}"),
        format!("x 1234567:{tail}-more and 99:{tail}"),
        format!("111111:aaaaaaaaaaaaaa222222:{tail}"),
        format!("12345:{tail} 123456:{tail}{tail}"),
        format!("1234567890:{tail}:{tail}"),
    ];
    for s in &inputs {
        assert!(has_token(s) || s.starts_with("12345:"), "{s}");
        let out = mask_tokens(s);
        assert!(!has_token(&out), "{s} -> {out}");
    }
}
