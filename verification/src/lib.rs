//! Reading WhatsApp chat exports: the line grammar of the exported text,
//! message classification, the rules applied to archive entries, the index of
//! extracted attachments, and the bookkeeping of local edits.
//!
//! * `text`: character sequences and the string operations the grammar uses.
//! * `line_format`: message header lines (iOS and Android layouts) and senders.
//! * `classify`: system notices, media kinds, attachment markers.
//! * `media`: extracted files by name.
//! * `parser`: export lines to messages, with the laws every import keeps.
//! * `archive`: archive limits, skipped entries, chat file and chat name.
//! * `models`: chats, stored messages and statistics.
//! * `editing`: edits, deletions and restorations of stored messages.
//! * `platform`: the calls into `std::path` and `uuid`.
use vstd::prelude::*;

pub mod text;
pub mod line_format;
pub mod platform;
pub mod classify;
pub mod error;
pub mod media;
pub mod parser;
pub mod archive;
pub mod models;
pub mod editing;

verus! {

} // verus!
