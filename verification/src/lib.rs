//! Tracks parallel coding-agent instances running in terminal multiplexer
//! panes: which of them wait for attention, a fuzzy picker to jump to one,
//! and desktop notifications when one becomes ready.

pub mod cli;
pub mod event;
pub mod multiplexer;
pub mod notification;
pub mod order;
pub mod picker;
pub mod session;
pub mod status;
pub mod text;
