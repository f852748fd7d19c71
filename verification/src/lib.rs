//! Core of a segmented (multi-stream) download engine: chunk planning,
//! capability-probe decisions, the task store and its state machine, the
//! per-task control registry, and progress accounting.
#![allow(unused_imports)]

pub mod engine;
pub mod manager;
pub mod planner;
pub mod progress;
pub mod registry;
pub mod retry;
pub mod store;
pub mod task;
pub mod text;
