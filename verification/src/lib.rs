//! Verified core of a Telegram bridge for Herdr agent panes: the
//! decisions, books and text rendering behind the bot. The event loop
//! that calls them (herdr and Telegram clients) is not part of this
//! crate.
mod clock;
pub mod notifier;
pub mod opencode;
pub mod order;
pub mod ops;
pub mod pane_map;
mod text;
mod shutdown;
pub mod state;

pub use shutdown::{ack_update, should_advance_offset};
