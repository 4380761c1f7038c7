//! Path navigation and directory listing for a note-taking shell.
//!
//! The filesystem itself is read by the host program; this library holds
//! the decisions: how a probed path is classified, when a listing or a read
//! is owed, how a listing is ordered, how the current location moves, and
//! when a late result must be thrown away.
pub mod listing;
pub mod navigator;
pub mod panel;
pub mod probe;
