//! What the desktop shows of the synchronizer's work.
pub mod history;
pub mod tray;
