//! Point-in-time host snapshot library.
//!
//! Two independent pipelines share this crate's logic:
//! - correlating listening ports with their owning processes, from the
//!   line-oriented text a connection-listing command prints;
//! - normalizing structured event-log records, rendered as XML documents,
//!   into flat records of event id, provider name and severity level.
//!
//! Each pipeline's result is rendered as a pretty-printed JSON document.
//! All text is handled as UTF-8 bytes. Gathering the raw text, the process
//! table and the raw log records, and writing the two files, is the
//! caller's part; everything between is specified and verified here.

pub mod correlate;
pub mod events;
pub mod json;
pub mod netstat;
pub mod num;
pub mod process_table;
