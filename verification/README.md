# herdr-telegram

A Telegram bridge for Herdr agent panes. The library under `src/` holds
the decisions and books of the bot, each with a contract proved by Verus:

- `state/` — per-pane books (watcher jobs, prompt intents, settle arms,
  stall episodes, input waiters, reply targets, op guards, history) and
  the retire paths of `/cancel`, which only ever remove what they saw at
  entry (a racing submit keeps its work).
- `notifier/` — what the watchdog posts, suppresses or retires for each
  pane observation: settle debounce gates, limit alerts, pinned card
  steps, pane reaping, reconcile of vanished and closed panes.
- `ops/` — the operator tool: status rendering, log tails, the launchd
  plist, secret masking of displayed lines, process-list parsing.
- `order.rs`, `pane_map.rs`, `text.rs` — sorted pane lists, pane-keyed
  maps and character-level text helpers.

Laws that span several calls (single-flight guards, compare-and-set
intents, bounded history, the reply-target cache) are public proof
functions next to the code they speak of.

`app/` is the operator binary (`dev` / `ops` commands): process control,
file tails, signals and launchd, calling the library for every decision.
