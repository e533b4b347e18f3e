//! A verified user-directory core: field-validated user records, a
//! key-value store abstraction keyed by email, an in-memory store, a
//! JSON document codec for durable persistence, and the directory
//! service that enforces validation order, uniqueness on create and
//! existence on update and delete.

pub mod codec;
pub mod docstore;
pub mod json;
pub mod memory;
pub mod parse;
pub mod service;
pub mod store;
pub mod text;
pub mod user;
pub mod validate;
