//! `paper_feeder`: the verified core of a feeder that finds academic papers on
//! arXiv and PubMed Central and fetches their PDFs.
//!
//! A feeder answers the requests of a gateway: it lists what it hosts, searches
//! its upstreams, and resolves a record to its file. This crate decides what the
//! upstreams are asked, what is made of their answers and what the gateway is
//! told; the program around it moves the bytes.
//!
//! - [`arxiv`], [`pubmed`], [`scihub`]: the upstreams. [`feed`] states what the
//!   arXiv parser makes of a well-formed feed.
//! - [`serve`]: the HTTP contract, with [`config`] for the settings of a plugin,
//!   [`encoding`] for files inside JSON and [`listing`] for lists by id.
//! - [`common`], [`query`], [`types`]: what the upstreams share, queries, and the
//!   records, outcomes and errors that are exchanged.
//! - [`hash`], [`xml`]: content identifiers and XML documents, over `sha2` and
//!   `quick-xml`.
//! - [`text`], [`text_map`]: text as sequences of characters, and maps keyed by
//!   text.
//! - [`laws`]: what the operations do, stated of their inputs and results.

pub mod arxiv;
pub mod common;
pub mod config;
pub mod encoding;
pub mod feed;
pub mod hash;
pub mod laws;
pub mod listing;
pub mod pubmed;
pub mod query;
pub mod scihub;
pub mod serve;
pub mod text;
pub mod text_map;
pub mod types;
pub mod xml;
