//! Core of an interactive terminal application: a verified control loop that
//! merges environment events with a FIFO intent queue and drives pluggable
//! components through their lifecycle.

pub mod app;
pub mod component;
pub mod layout;
pub mod queue;
pub mod types;
