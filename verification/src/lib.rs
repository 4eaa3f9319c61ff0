//! Server-management core of Tianxuan Desktop: the parsers of the metrics that
//! a host reports, the host and panel records as they are stored, the SSH
//! configuration and host-key decisions, and the panel-tab bookkeeping.
pub mod commands;
pub mod models;
pub mod services;
pub mod stamps;
pub mod text;
