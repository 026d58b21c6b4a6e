//! Planning and bookkeeping for a concurrent file copier with live progress.
//!
//! The library decides and counts; it neither touches the file system nor
//! draws. A program around it reads the source into a [`tree::Node`], lets
//! [`enumerate::collect_files`] plan the copy, deals the plan's items to
//! workers with [`schedule::distribute_files_to_workers`], has each worker
//! drive a [`copier::FileCopy`] with what its reads and writes give, and
//! feeds the updates that come out to a [`display::ProgressManager`], whose
//! actions it draws.

pub mod copier;
pub mod copier_laws;
pub mod display;
pub mod display_laws;
pub mod enumerate;
pub mod enumerate_laws;
pub mod event;
pub mod item;
pub mod label;
pub mod path;
pub mod path_laws;
pub mod protocol_laws;
pub mod schedule;
pub mod tree;
