//! Shared books of the bot: op guards, intents, reply routing, history.
pub mod guard;
pub mod history;
pub mod pending;
pub mod targets;
pub mod waiters;
pub mod books;
pub mod cancel_all;
pub mod cancel_scope;
pub mod jobs;
pub mod live;
pub mod persist_paths;
