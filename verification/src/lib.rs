//! Helpers that adapt the comick catalogue API to a manga reader host:
//! request URLs, status codes, chapter grouping and the choice of one
//! chapter per group by the reader's preferred translation groups.

pub mod chapter;
pub mod group;
pub mod order;
pub mod prefs;
pub mod status;
pub mod text;
pub mod url;
