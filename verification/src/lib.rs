//! Parquet viewer and converter: the logic of the table view, the search
//! filter and the JSON / JSONL / CSV export, with its contracts.

pub mod text;
pub mod export;
pub mod table;
pub mod data;
pub mod app;
pub mod ui;
