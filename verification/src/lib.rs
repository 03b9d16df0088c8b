//! A host runtime bridge for sandboxed manga source plugins.
//!
//! A guest module holds nothing but 32-bit descriptors and raw byte ranges;
//! the host keeps the typed values behind those descriptors. This crate is
//! the host side of that bridge: the descriptor table, the guest-memory
//! accessor, the host-import surface and the session driver, each with a
//! verified contract.

pub mod dates;
pub mod defaults;
pub mod domain;
pub mod driver;
pub mod fbits;
pub mod heap;
pub mod json;
pub mod memory;
pub mod models;
pub mod net;
pub mod store;
pub mod text;
pub mod value;
