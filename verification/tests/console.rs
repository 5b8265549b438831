use herdr_telegram::ops::launchd::{domain_target, service_target, uid_from};
use herdr_telegram::ops::cmd::{last_lines, split_lines};
use herdr_telegram::ops::dispatch::{
    after_exit, console_key, dev_command, logs_args, AfterExit, ConsoleKey, DevCommand, CRASH_WINDOW_MS,
};
use herdr_telegram::ops::proc::{first_pid, kill_targets, pid_candidates, split_words};
use herdr_telegram::state::persist_paths::{offset_from_text, transient_file, transient_on, transient_text, OffsetRead};

fn args(items: &[&str]) -> Vec<String> {
    items.iter().map(|s| s.to_string()).collect()
}

#[test]
fn dev_command_words() {
    assert_eq!(dev_command(""), DevCommand::Console);
    assert_eq!(dev_command("watch"), DevCommand::Console);
    assert_eq!(dev_command("status"), DevCommand::Status);
    assert_eq!(dev_command("tail"), DevCommand::Logs);
    assert_eq!(dev_command("clean"), DevCommand::Cleanup);
    assert_eq!(dev_command("restart"), DevCommand::Restart);
    assert_eq!(dev_command("inspect"), DevCommand::Control);
    assert_eq!(dev_command("--help"), DevCommand::Help);
    assert_eq!(dev_command("deploy"), DevCommand::Unknown);
}

#[test]
fn logs_options() {
    assert_eq!(logs_args(&args(&[])), (50, false));
    assert_eq!(logs_args(&args(&["25"])), (25, false));
    assert_eq!(logs_args(&args(&["-n", "10", "-f"])), (10, true));
    assert_eq!(logs_args(&args(&["--follow", "-n"])), (50, true));
    assert_eq!(logs_args(&args(&["-n", "x"])), (50, false));
    assert_eq!(logs_args(&args(&["7", "-n", "3"])), (3, false));
}

#[test]
fn console_keys_and_exit_policy() {
    assert_eq!(console_key("r"), ConsoleKey::Restart);
    assert_eq!(console_key("?"), ConsoleKey::Help);
    assert_eq!(console_key(""), ConsoleKey::Nothing);
    assert_eq!(console_key("zz"), ConsoleKey::Unknown);
    assert_eq!(after_exit(0, 100), AfterExit::Crashed { crashes: 1, pause: false });
    assert_eq!(after_exit(2, 100), AfterExit::Crashed { crashes: 3, pause: true });
    assert_eq!(after_exit(2, CRASH_WINDOW_MS), AfterExit::Stopped);
}

#[test]
fn pid_listings() {
    assert_eq!(split_words("  12 \n 34\t56  "), args(&["12", "34", "56"]));
    assert_eq!(split_words(""), Vec::<String>::new());
    assert_eq!(pid_candidates("12\n99\nabc\n34\n", 99), vec![12, 34]);
    assert_eq!(pid_candidates("4294967296 7", 1), vec![7]);
    assert_eq!(first_pid("  501\n502"), Some(501));
    assert_eq!(first_pid("x 1"), None);
    assert_eq!(first_pid(""), None);
    assert_eq!(kill_targets(&vec![5, 6], Some(7), 6), vec![5, 7]);
    assert_eq!(kill_targets(&vec![5, 7], Some(7), 1), vec![5, 7]);
    assert_eq!(kill_targets(&vec![], None, 1), Vec::<u32>::new());
}

#[test]
fn test_transient_load_fail_open_off() {
    for (content, want) in [
        ("on", true),
        ("ON", true),
        ("  on\n", true),
        ("off", false),
        ("", false),
        ("yes", false),
        ("onn", false),
    ] {
        assert_eq!(transient_on(content), want, "{content:?}");
    }
}

#[test]
fn test_transient_set_persists_and_reloads() {
    assert!(transient_on(transient_text(true)));
    assert!(!transient_on(transient_text(false)));
    assert_eq!(transient_file("/s"), "/s/transient.state");
}

#[test]
fn offset_file_reads() {
    assert_eq!(offset_from_text(""), OffsetRead { offset: 0, corrupt: false });
    assert_eq!(offset_from_text(" 42\n"), OffsetRead { offset: 42, corrupt: false });
    assert_eq!(offset_from_text("18446744073709551615"), OffsetRead { offset: u64::MAX, corrupt: false });
    assert_eq!(offset_from_text("4x"), OffsetRead { offset: 0, corrupt: true });
    assert_eq!(offset_from_text("18446744073709551616"), OffsetRead { offset: 0, corrupt: true });
}

#[test]
fn log_lines_and_tail() {
    assert_eq!(split_lines("a\r\nb\n\nc"), args(&["a", "b", "", "c"]));
    assert_eq!(split_lines("a\n"), args(&["a"]));
    assert_eq!(split_lines("\n"), args(&[""]));
    assert_eq!(split_lines(""), Vec::<String>::new());
    assert_eq!(split_lines("a\r"), args(&["a\r"]));
    assert_eq!(last_lines("1\n2\n3\n4\n", 2), args(&["3", "4"]));
    assert_eq!(last_lines("1\n2", 9), args(&["1", "2"]));
    assert_eq!(last_lines("1\n2", 0), Vec::<String>::new());
}

#[test]
fn launchd_user_domain() {
    assert_eq!(uid_from("501\n"), Some("501".to_string()));
    assert_eq!(uid_from(""), None);
    assert_eq!(uid_from("root"), None);
    assert_eq!(uid_from("5 01"), None);
    assert_eq!(domain_target("501"), "gui/501");
    assert_eq!(service_target("501"), "gui/501/dev.herdr.telegram");
}
