//! Data-ingestion core of an amateur-radio status bot: satellite name
//! parsing and search, hourly report merging with retention, feed parsers,
//! and the schedule that drives the periodic workers.
pub mod amsat_name;
pub mod catalog;
pub mod command;
pub mod config;
pub mod common;
pub mod dx_world;
pub mod entry;
pub mod facade;
pub mod freqdb;
pub mod lotw;
pub mod metadata;
pub mod qo100;
pub mod render;
pub mod reports;
pub mod saved;
pub mod schedule;
pub mod search;
pub mod status;
pub mod text;
pub mod wire;
