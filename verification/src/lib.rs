//! Verified core of a RandR display-information tool.
//!
//! The library models the display server's catalogs — outputs, controllers
//! (CRTCs) and modes — as plain records, normalizes the sentinel values the
//! server uses for optional fields, and renders the human-readable report.
//! Everything that talks to the display server itself lives outside the
//! library and hands in plain values.

pub mod catalog;
pub mod laws;
pub mod numfmt;
pub mod present;
