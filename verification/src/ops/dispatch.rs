//! The `dev` console's command words: one-shot subcommands, the `logs`
//! options, the interactive console's letters, and its crash policy.
use crate::state::history::{parse_usize, parse_usize_str};
use crate::text::str_eq;
use vstd::prelude::*;

verus! {

/// A `dev` subcommand.
#[derive(Clone, Copy, Debug, PartialEq, Eq, Structural)]
pub enum DevCommand {
    Console,
    Status,
    Logs,
    Cleanup,
    Start,
    Stop,
    Restart,
    Install,
    Uninstall,
    Build,
    Check,
    Control,
    Help,
    Unknown,
}

/// The subcommand a word names.
pub open spec fn dev_command_spec(w: Seq<char>) -> DevCommand {
    if w == ""@ || w == "watch"@ || w == "run"@ {
        DevCommand::Console
    } else if w == "status"@ {
        DevCommand::Status
    } else if w == "logs"@ || w == "log"@ || w == "tail"@ {
        DevCommand::Logs
    } else if w == "cleanup"@ || w == "clean"@ {
        DevCommand::Cleanup
    } else if w == "start"@ {
        DevCommand::Start
    } else if w == "stop"@ {
        DevCommand::Stop
    } else if w == "restart"@ {
        DevCommand::Restart
    } else if w == "install"@ {
        DevCommand::Install
    } else if w == "uninstall"@ {
        DevCommand::Uninstall
    } else if w == "build"@ {
        DevCommand::Build
    } else if w == "check"@ {
        DevCommand::Check
    } else if w == "topics"@ || w == "reset"@ || w == "trigger"@ || w == "inspect"@ {
        DevCommand::Control
    } else if w == "help"@ || w == "-h"@ || w == "--help"@ {
        DevCommand::Help
    } else {
        DevCommand::Unknown
    }
}

/// Read a `dev` subcommand word (none given opens the console).
pub fn dev_command(w: &str) -> (c: DevCommand)
    ensures
        c == dev_command_spec(w@),
{
    if str_eq(w, "") || str_eq(w, "watch") || str_eq(w, "run") {
        DevCommand::Console
    } else if str_eq(w, "status") {
        DevCommand::Status
    } else if str_eq(w, "logs") || str_eq(w, "log") || str_eq(w, "tail") {
        DevCommand::Logs
    } else if str_eq(w, "cleanup") || str_eq(w, "clean") {
        DevCommand::Cleanup
    } else if str_eq(w, "start") {
        DevCommand::Start
    } else if str_eq(w, "stop") {
        DevCommand::Stop
    } else if str_eq(w, "restart") {
        DevCommand::Restart
    } else if str_eq(w, "install") {
        DevCommand::Install
    } else if str_eq(w, "uninstall") {
        DevCommand::Uninstall
    } else if str_eq(w, "build") {
        DevCommand::Build
    } else if str_eq(w, "check") {
        DevCommand::Check
    } else if str_eq(w, "topics") || str_eq(w, "reset") || str_eq(w, "trigger") || str_eq(
        w,
        "inspect",
    ) {
        DevCommand::Control
    } else if str_eq(w, "help") || str_eq(w, "-h") || str_eq(w, "--help") {
        DevCommand::Help
    } else {
        DevCommand::Unknown
    }
}

/// Lines `logs` shows when no count is given (or a count is garbage).
pub const LOGS_DEFAULT_LINES: usize = 50;

/// `-n` takes the next word's count (50 when missing or garbage);
/// `--follow`/`-f` follows; other words are ignored.
pub open spec fn logs_scan(rest: Seq<Seq<char>>, i: int, n: nat, follow: bool) -> (nat, bool)
    decreases rest.len() - i,
{
    if i < 0 || i >= rest.len() {
        (n, follow)
    } else if rest[i] == "-n"@ {
        let m = if i + 1 < rest.len() {
            match parse_usize(rest[i + 1]) {
                Some(v) => v,
                None => LOGS_DEFAULT_LINES as nat,
            }
        } else {
            LOGS_DEFAULT_LINES as nat
        };
        logs_scan(
            rest,
            if i + 2 <= rest.len() {
                i + 2
            } else {
                rest.len() as int
            },
            m,
            follow,
        )
    } else if rest[i] == "--follow"@ || rest[i] == "-f"@ {
        logs_scan(rest, i + 1, n, true)
    } else {
        logs_scan(rest, i + 1, n, follow)
    }
}

/// `logs` options: a bare leading count means `-n` (like `tail`).
pub open spec fn logs_spec(rest: Seq<Seq<char>>) -> (nat, bool) {
    if rest.len() > 0 && parse_usize(rest[0]) is Some {
        logs_scan(rest, 1, parse_usize(rest[0]).unwrap(), false)
    } else {
        logs_scan(rest, 0, LOGS_DEFAULT_LINES as nat, false)
    }
}

/// Read the `logs` options: (lines, follow).
pub fn logs_args(rest: &Vec<String>) -> (r: (usize, bool))
    ensures
        (r.0 as nat, r.1) == logs_spec(rest@.map_values(|s: String| s@)),
{
    let ghost rs = rest@.map_values(|s: String| s@);
    let mut n: usize = LOGS_DEFAULT_LINES;
    let mut follow = false;
    let mut i: usize = 0;
    if rest.len() > 0 {
        match parse_usize_str(rest[0].as_str()) {
            Some(v) => {
                n = v;
                i = 1;
            },
            None => {},
        }
    }
    while i < rest.len()
        invariant
            i <= rest@.len(),
            rs == rest@.map_values(|s: String| s@),
            logs_spec(rs) == logs_scan(rs, i as int, n as nat, follow),
        decreases rest@.len() - i,
    {
        if str_eq(rest[i].as_str(), "-n") {
            n = if i + 1 < rest.len() {
                match parse_usize_str(rest[i + 1].as_str()) {
                    Some(v) => v,
                    None => LOGS_DEFAULT_LINES,
                }
            } else {
                LOGS_DEFAULT_LINES
            };
            i = if i + 1 < rest.len() {
                i + 2
            } else {
                rest.len()
            };
        } else {
            if str_eq(rest[i].as_str(), "--follow") || str_eq(rest[i].as_str(), "-f") {
                follow = true;
            }
            i = i + 1;
        }
    }
    (n, follow)
}

/// A console key (letter or word + Enter).
#[derive(Clone, Copy, Debug, PartialEq, Eq, Structural)]
pub enum ConsoleKey {
    Restart,
    Build,
    Topics,
    Event,
    Logs,
    Status,
    Clear,
    Stop,
    Cleanup,
    Help,
    Quit,
    Nothing,
    Unknown,
}

/// The key a console word names.
pub open spec fn console_key_spec(w: Seq<char>) -> ConsoleKey {
    if w == "r"@ || w == "restart"@ {
        ConsoleKey::Restart
    } else if w == "b"@ || w == "build"@ {
        ConsoleKey::Build
    } else if w == "t"@ || w == "topics"@ {
        ConsoleKey::Topics
    } else if w == "e"@ || w == "event"@ {
        ConsoleKey::Event
    } else if w == "l"@ || w == "logs"@ || w == "log"@ {
        ConsoleKey::Logs
    } else if w == "s"@ || w == "status"@ {
        ConsoleKey::Status
    } else if w == "c"@ || w == "clear"@ {
        ConsoleKey::Clear
    } else if w == "k"@ || w == "stop"@ {
        ConsoleKey::Stop
    } else if w == "x"@ || w == "cleanup"@ {
        ConsoleKey::Cleanup
    } else if w == "h"@ || w == "help"@ || w == "?"@ {
        ConsoleKey::Help
    } else if w == "q"@ || w == "quit"@ {
        ConsoleKey::Quit
    } else if w == ""@ {
        ConsoleKey::Nothing
    } else {
        ConsoleKey::Unknown
    }
}

/// Read a console key from the first word of a line.
pub fn console_key(w: &str) -> (k: ConsoleKey)
    ensures
        k == console_key_spec(w@),
{
    if str_eq(w, "r") || str_eq(w, "restart") {
        ConsoleKey::Restart
    } else if str_eq(w, "b") || str_eq(w, "build") {
        ConsoleKey::Build
    } else if str_eq(w, "t") || str_eq(w, "topics") {
        ConsoleKey::Topics
    } else if str_eq(w, "e") || str_eq(w, "event") {
        ConsoleKey::Event
    } else if str_eq(w, "l") || str_eq(w, "logs") || str_eq(w, "log") {
        ConsoleKey::Logs
    } else if str_eq(w, "s") || str_eq(w, "status") {
        ConsoleKey::Status
    } else if str_eq(w, "c") || str_eq(w, "clear") {
        ConsoleKey::Clear
    } else if str_eq(w, "k") || str_eq(w, "stop") {
        ConsoleKey::Stop
    } else if str_eq(w, "x") || str_eq(w, "cleanup") {
        ConsoleKey::Cleanup
    } else if str_eq(w, "h") || str_eq(w, "help") || str_eq(w, "?") {
        ConsoleKey::Help
    } else if str_eq(w, "q") || str_eq(w, "quit") {
        ConsoleKey::Quit
    } else if str_eq(w, "") {
        ConsoleKey::Nothing
    } else {
        ConsoleKey::Unknown
    }
}

/// A run shorter than this counts as a crash on exit.
pub const CRASH_WINDOW_MS: u64 = 4000;

/// Consecutive crashes that pause the console.
pub const CRASH_PAUSE: u32 = 3;

/// What the console does when the supervised bot has exited.
#[derive(Clone, Copy, Debug, PartialEq, Eq, Structural)]
pub enum AfterExit {
    /// Crash: show the recent log, then restart (unless paused).
    Crashed { crashes: u32, pause: bool },
    /// A normal stop after a longer run: reset the streak, then restart
    /// (unless paused).
    Stopped,
}

/// Exit policy: an exit within [`CRASH_WINDOW_MS`] of the start is a
/// crash and extends the streak, [`CRASH_PAUSE`] in a row pause the
/// console; a later exit resets the streak.
pub fn after_exit(crashes: u32, ran_ms: u64) -> (a: AfterExit)
    ensures
        a == (if ran_ms < CRASH_WINDOW_MS {
            let c: u32 = if crashes == u32::MAX {
                crashes
            } else {
                (crashes + 1) as u32
            };
            AfterExit::Crashed { crashes: c, pause: c >= CRASH_PAUSE }
        } else {
            AfterExit::Stopped
        }),
{
    if ran_ms < CRASH_WINDOW_MS {
        let c = if crashes == u32::MAX {
            crashes
        } else {
            crashes + 1
        };
        AfterExit::Crashed { crashes: c, pause: c >= CRASH_PAUSE }
    } else {
        AfterExit::Stopped
    }
}

} // verus!
