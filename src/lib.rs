//! A uniform credential store over the platform secret stores: backend
//! selection with a local encrypted fallback, one error taxonomy, and the
//! record-level logic that every backend shares.

pub mod capability;
pub mod codec;
pub mod error;
pub mod fallback;
pub mod native;
pub mod platform;
pub mod store;
pub mod table;
