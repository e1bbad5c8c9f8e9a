//! notefeed: scan plain-text note files for links annotated with date and
//! read/unread directives, and select the still-unread ones for a feed.
//!
//! The heart of the crate is the note line scanner in [`parser`]: a one-pass
//! state machine that classifies each line of a note file and attaches the
//! ambient date and read state to every link it extracts.

pub mod dates;
pub mod feed;
pub mod laws;
pub mod parser;
pub mod text;
pub mod title;
pub mod walker;
