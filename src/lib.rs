//! Development utilities: an arbitrary-precision base converter, calendar
//! arithmetic and date-time text, ANSI-styled terminal text, log record
//! layout, TOML section reading, and HTTP message text.
pub mod app_data;
pub mod base_change;
pub mod biguint;
pub mod calendar;
pub mod console;
pub mod datetime;
pub(crate) mod decimal;
pub mod digits;
pub mod dlog;
pub mod format;
pub mod http;
pub mod parse;
pub(crate) mod text;
pub mod toml;
