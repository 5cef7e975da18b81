//! What is done around the unpacking of one file: names, companions, tallies.

pub mod args;
pub mod companion;
pub mod job;
pub mod paths;
pub mod prefix;
pub mod run;
pub mod scan;
pub mod tree;
pub mod windows;
