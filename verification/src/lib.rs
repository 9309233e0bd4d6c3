//! Tab switcher state machine: the match list of a modal tab picker, the
//! preview of a candidate, and the restoration of every pane on commit or
//! cancel.

pub mod delegate;
pub mod detail;
pub mod laws;
pub mod matches;
pub mod popup;
pub mod ranking;
pub mod workspace;
