//! Keeps a search index in step with a relational system of record, and
//! rebuilds the index without downtime when its structural definition changes.
//!
//! The library decides; it performs no input or output. A caller fetches
//! pages and satellite rows from the source, hands them in as plain values,
//! and carries out the actions that come back against the search engine.
//!
//! - [`index_definition`] and [`index_definition_loader`]: the identity of a
//!   logical index, its alias and the names of its physical indices.
//! - [`index_repository`] and [`alias_listing`]: the catalogue of indices and
//!   aliases, and the resolver from an alias to its one physical index.
//! - [`json`]: the calls by which the engine's JSON answers are read.
//! - [`product`] and [`product_index`]: products, the satellite rows of a
//!   batch and the assembly of export documents.
//! - [`cursor`] and [`wave`]: pagination by watermark, for one worker or
//!   several, with the proof that it visits every key.
//! - [`bulk`] and [`store`]: bulk upserts, their item-wise report, retries,
//!   and what upserts do to the documents of an index.
//! - [`index_facade`]: the run itself, from the resolution of the alias to
//!   the swap, as a dialogue of actions and events.
//! - [`text`] and [`utils`]: decimal numbers, comparison of texts, and the
//!   cutting of texts into chunks.

pub mod alias_listing;
pub mod bulk;
pub mod cursor;
pub mod error;
pub mod index_definition;
pub mod index_definition_loader;
pub mod index_facade;
pub mod index_repository;
pub mod json;
pub mod product;
pub mod product_index;
pub mod store;
pub mod text;
pub mod utils;
pub mod wave;
