//! Local operations console support: display masking, launchd service
//! rendering and process recognition.
pub mod cmd;
pub mod dispatch;
pub mod launchd;
pub mod mask;
pub mod proc;
