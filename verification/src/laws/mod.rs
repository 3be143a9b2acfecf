//! What the operations of the feeder do, stated of their inputs and results.
//!
//! - [`texts`], [`encodings`]: trimming, splitting, joining and ordering, and what
//!   identifiers and base64 texts stand for.
//! - [`feeds`], [`records`], [`requests`]: reading an arXiv feed, the records and
//!   resolutions, and what is asked upstream.
//! - [`settings`], [`replies`]: the configuration, and the HTTP contract.
//! - [`basics`], [`papers`], [`gateway`], [`changes`]: the same of the calls
//!   themselves, as their callers see them.
//! - [`contents`]: what the contents of a value are.

pub mod basics;
pub mod changes;
pub mod contents;
pub mod encodings;
pub mod feeds;
pub mod gateway;
pub mod papers;
pub mod records;
pub mod replies;
pub mod requests;
pub mod settings;
pub mod texts;
