//! Verified core of a spreadsheet/CSV driven configuration generator.
//!
//! Tabular sources are normalized into ordered row tables of typed cell
//! values, declarative rule lists select rows, named counters and
//! value-reshaping filters support template rendering, and a build layer
//! decides when an output may be rewritten (change detection, diff halt,
//! backup naming).

pub mod cells;
pub mod cli;
pub mod config;
pub mod datasource;
pub mod encodings;
pub mod make;
pub mod numbers;
pub mod renderer;
pub mod selector;
pub mod table;
pub mod text;
