//! Verified core of a small file-sharing service.
//!
//! The service keeps uploaded files as blobs on disk and describes them in
//! two tables, `files` and `directories`, of which the second forms a forest.
//! This crate holds what the service decides: how a blob is named, what the
//! tables hold after each operation, which moves of a directory are refused,
//! and what each request is answered with. Reading requests, writing blobs
//! and keeping the tables on disk are left to the program around it.
//!
//! - [`models`]: the rows of the tables, the bodies of answers, and their
//!   mathematical views.
//! - [`naming`], [`ids`], [`clock`]: stored names and paths, identifiers,
//!   timestamps.
//! - [`hierarchy`], [`tables`], [`lex`]: the tables as sequences of records;
//!   ancestors, cycles, listings and their order.
//! - [`store`]: the metadata store.
//! - [`storage`]: the facade that couples blobs and metadata.
//! - [`handlers`], [`text`], [`error`]: answers to requests and failures.
//! - [`laws`]: what holds across operations.

pub mod clock;
pub mod error;
pub mod handlers;
pub mod hierarchy;
pub mod ids;
pub mod laws;
pub mod lex;
pub mod models;
pub mod naming;
pub mod storage;
pub mod store;
pub mod tables;
pub mod text;
