//! Decides when idle Herdr panes are frozen and thawed.

pub mod activity;
pub mod api;
pub mod cli;
pub mod cpu_sample;
pub mod event_stream;
pub mod freezer;
pub mod guarantees;
pub mod json;
pub mod label;
pub mod measuring;
pub mod monitor;
pub mod overlay;
pub mod panes;
pub mod platform;
pub mod reading;
pub mod rounds;
pub mod session;
pub mod state;
pub mod string_map;
pub mod suspension;
pub mod text;
pub mod usage;
