//! A collaborative wiki: documents, concurrent edits and their transformation.
pub mod document;
pub mod store;
pub mod session;
pub mod service;
