//! Subdomain brute forcing: candidate names from a wordlist, and the scan state
//! that the resolution tasks fold their results into.

pub mod models;
pub mod resolvers;
pub mod wordlist;
pub mod engine;
pub mod output;
