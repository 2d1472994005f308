//! Verified core of the timeline activity tracker: configuration rules, local-day
//! arithmetic, segment bookkeeping, rollup aggregation, tracker decisions, request
//! validation, export encoding and update helpers.

pub mod text;
pub mod zone;
pub mod segments;
pub mod rollup;
pub mod model;
pub mod state;
pub mod clock;
pub mod paths;
pub mod config;
pub mod agent_config;
pub mod window;
pub mod tracker;
pub mod stats;
pub mod api;
pub mod export;
pub mod updater;
pub mod cli;
pub mod trend;
