//! What the operations are for, said of their inputs and results alone.

pub mod agreement;
pub mod archive;
pub mod calendar;
pub mod clocks;
pub mod feeds;
pub mod filling;
pub mod grading;
pub mod keeping;
pub mod news;
pub mod numbers;
pub mod pricing;
pub mod replaying;
pub mod scanning;
pub mod settling;
pub mod showing;
pub mod sides;
pub mod venue;
