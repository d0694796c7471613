//! Minimum and maximum of columnar arrays whose slots may be null.
pub mod bitmap;
pub mod slots;
pub mod types;
pub mod array;
pub mod order;
pub mod aggregate;
pub mod laws;
