//! Watchdog and push decisions: what the notifier posts, suppresses or
//! retires for each pane observation.
pub mod hygiene;
pub mod cards;
pub mod cards_retry;
pub mod limit_claim;
pub mod limit_decide;
pub mod limits;
pub mod pin;
pub mod reap;
pub mod reconcile;
pub mod reconcile_close;
pub mod reconcile_vanished;
pub mod retry_guard;
pub mod spontaneous;
pub mod status;
pub mod status_flap;
