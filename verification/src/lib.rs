//! Transcript extraction logic for Apple Voice Memos recordings.
use vstd::prelude::*;

pub mod format;
pub mod json;
pub mod memos;
pub mod output;
pub mod schema;
pub mod state;
pub mod text;
pub mod tsrp;
pub mod validate;
pub mod watch;

verus! {
} // verus!
