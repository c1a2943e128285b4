//! Data types of a scan.

pub mod error;
pub mod host;
pub mod ip;
pub mod scan;
