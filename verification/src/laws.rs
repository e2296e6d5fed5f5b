//! What holds of trimming, splitting, headers and lookups, proved from
//! their definitions.

pub mod lookups;
pub mod segments;
pub mod splitting;
pub mod trimming;
pub mod writing;
