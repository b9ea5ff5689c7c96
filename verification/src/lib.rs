//! Directory trees drawn as indented listings.
//!
//! A listing shows one entry a line: guide bars for the directories above it
//! that have entries still to come, a branch marker, two underscores for each
//! level of depth, and the name of the entry in the colours of its category.
//!
//! - `text`, `entry`, `order`, `config` and `error` hold the entries, their
//!   categories and their order, and the options of a run.
//! - `children` says which entries of a listing are shown and in what order.
//! - `branch`, `paint` and `render` draw the lines.
//! - `tree` walks a tree that is held in memory; `visitor` walks one that the
//!   caller reads while it is walked; `replay` shows that the two agree.

pub mod text;
pub mod error;
pub mod entry;
pub mod order;
pub mod branch;
pub mod config;
pub mod children;
pub mod paint;
pub mod render;
pub mod tree;
pub mod visitor;
pub mod replay;
