//! Ownership, approval, mint and burn rules of a registry of non-fungible
//! tokens, kept in a string-keyed store.

pub mod digits;
pub mod uint;
pub mod account;
pub mod mappings;
pub mod registry;
