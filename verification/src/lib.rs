//! A small Lightning node library: its error type, the stored payment records
//! and their byte encoding, the in-memory payment store, and the helpers that
//! lay out, parse and check what the node keeps on disk.
pub mod ser;
pub mod payment_store;
pub mod hex_utils;
pub mod error;
pub mod io;
pub mod io_utils;
