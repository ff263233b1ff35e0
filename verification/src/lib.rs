//! Control plane of a distributed storage benchmark: job specifications and
//! their grammar, scheduling of jobs over workers, aggregation of results and
//! the text that the command line shows.

pub mod aggregate;
pub mod cmd;
pub mod config;
pub mod display;
pub mod duties;
pub mod ending;
pub mod endpoint;
pub mod error;
pub mod events;
pub mod gc;
pub mod holding;
pub mod id;
pub mod lifecycle;
pub mod manifest;
pub mod metrics;
pub mod order;
pub mod output;
pub mod parse;
pub mod path_safe;
pub mod pb;
pub mod prometheus;
pub mod reporting;
pub mod requests;
pub mod scheduler;
pub mod service;
pub mod signal;
pub mod spec;
pub mod state;
pub mod statuses;
pub mod strmap;
pub mod telling;
pub mod text;
pub mod time;
pub mod views;
pub mod watching;
