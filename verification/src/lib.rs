//! Extraction and transform core of a one-shot ingestion pipeline.
//!
//! A compressed container is expanded, nested containers included
//! ([`unzipper`]); each delimited source in it is read into a table
//! ([`codec`], [`record_set`]) and filtered to an allow-list of categories
//! ([`converter_uploader`]); the surviving rows are published file by file,
//! or collected per category ([`platform_collector`]) under sanitized keys
//! ([`category`]) and published as one consolidated table per category.
//! Storage keys start with a prefix derived from the URL of the container
//! ([`utils`]).
//!
//! A table holds text: every column is read as text and written as text,
//! and no column types are inferred from the cells.
//!
//! The library computes on values in memory. Reading and writing files,
//! fetching the container and talking to the object store are left to the
//! caller, who is told what to write and what to send.

pub mod archive;
pub mod category;
pub mod codec;
pub mod converter_uploader;
pub mod pattern;
pub mod platform_collector;
pub mod record_set;
pub mod text;
pub mod unzipper;
pub mod utils;
