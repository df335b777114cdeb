//! Shared, range-viewed text runs for a collaborative document editor, with
//! their formatting metadata, a cursor-based splitter and a wire model.

pub mod equality;
pub mod offsets;
pub mod run;
pub mod splitter;
pub mod style;
pub mod wire;
