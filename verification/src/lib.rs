//! Verified core of SL Studio, a forensic document analysis workbench.
//!
//! The library holds the decisions and text processing of the application:
//! full-text query normalisation, tag lists, CSV escaping, SQL text for the
//! search screens, schema migrations, the one-at-a-time workflow lock,
//! registry fingerprints and change detection, evidence-chain detection,
//! project comparison, backup and restore routing, the decisions of batch
//! extraction and analysis, model file selection, settings and the layout of
//! the printable report. Database access, file system and network access,
//! floating-point statistics and the user interface live outside it.

pub mod text;
pub mod csv;
pub mod search;
pub mod tags;
pub mod migrations;
pub mod schema;
pub mod workflow;
pub mod registry;
pub mod compare;
pub mod paths;
pub mod backup;
pub mod batch;
pub mod chains;
pub mod sql;
pub mod models;
pub mod config;
pub mod report;
pub mod presets;
pub mod dedup;
pub mod pipelines;
