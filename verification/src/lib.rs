//! Planning, accounting and checking for a horizontal-scaling benchmark of
//! ephemeral validators: which accounts to create, which transfers to sign,
//! how replies are counted and how the outcome is judged.
//!
//! Everything here works on plain values. Network, file and process work is
//! left to the program built around the library.
pub mod text;
pub mod bytes;
pub mod chunks;
pub mod instruction;
pub mod programs;
pub mod signing;
pub mod formats;
pub mod transfers;
pub mod stats;
pub mod load;
pub mod setup;
pub mod plan;
pub mod execution;
pub mod orchestrate;
pub mod metrics;
pub mod run;
