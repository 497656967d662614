//! Core of a columnar array library: logical types, validity masks, boolean
//! arrays with their compute kernels, and the row-selection planner of the
//! chunked reader.

pub mod bits;
pub mod bool_array;
pub mod chunked;
pub mod chunked_array;
pub mod compute;
pub mod datetime_parts;
pub mod dtype;
pub mod error;
pub mod filter;
pub mod io;
pub mod layout;
pub mod validity;
