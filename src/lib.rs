//! A small task tracker whose task list lives in a human-readable text file.
//!
//! The library holds the task collection model (`task`), the text codec that
//! turns a collection into its on-disk form and back (`storage`, with the
//! proof that reading back what was written gives the tasks again in
//! `round_trip`), the points in time that the file records (`timestamp`), and
//! where the configuration and the task file live (`config`).
pub mod config;
pub mod error;
pub mod round_trip;
pub mod storage;
pub mod task;
pub mod text;
pub mod timestamp;
