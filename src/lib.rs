//! Simple log clustering: a two-pass engine that counts how often each token
//! of a log corpus occurs, rewrites every record into a template in which rare
//! tokens become a wildcard, counts the templates and ranks them.
//!
//! The engine works on lines and records that are already in memory; opening
//! files and printing belong to the program around it.

pub mod scan;
pub mod digest;
pub mod tables;
pub mod freq;
pub mod template;
pub mod chunk;
pub mod cluster;
pub mod rank;
pub mod engine;
