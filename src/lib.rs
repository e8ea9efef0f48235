//! Persistence layer of a desktop quiz application: the question bank and
//! the exam history as JSON documents.
//!
//! - `json`: a JSON document held as plain values.
//! - `model`: questions, banks, answer records and exam results, with their
//!   mathematical views and well-formedness.
//! - `codec`, `bank`, `history`: the document shape of each type, both ways,
//!   with proofs that decoding an encoding gives the value back.
//! - `path`: where a caller-given location puts a file, and parent paths.
//! - `store`: loading (a missing file is an empty document, a bad one a parse
//!   error), path resolution and the steps of a save.

pub mod json;
pub mod path;
pub mod model;
pub mod text;
pub mod codec;
pub mod bank;
pub mod history;
pub mod store;
