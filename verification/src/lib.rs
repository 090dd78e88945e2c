//! A spreadsheet-to-XML conversion engine.
//!
//! The engine takes the cells of a workbook as plain text values, binds them to
//! the fields that a [`config::Configuration`] names, and renders the resulting
//! records as XML documents, one per sheet. Reading workbooks from disk and
//! writing the documents out is left to the caller; everything in this crate is
//! a function from values to values.
//!
//! * [`config`], [`config_text`] and [`round_trip`]: the configuration, its
//!   JSON text, and the proof that the text is read back as it was written.
//! * [`workbook`]: sheets, rows and cells as the engine sees them.
//! * [`coerce`] and [`mapping`]: from the rows of a sheet to records.
//! * [`xml`] and [`naming`]: from records to a document and the name of its
//!   file.
//! * [`snapshot`] and [`snapshot_text`]: what a run keeps for the next one.
//! * [`update`], [`incremental`] and [`state`]: the full and the quick update,
//!   what the quick update writes, and the states that a run goes through.
//! * [`report`]: the outcome of a run and its summary.
//! * [`api`]: the entry points of a front end.
//! * [`json`] and [`text`]: string literals, blanks and digits.

pub mod text;
pub mod json;
pub mod config;
pub mod config_text;
pub mod round_trip;
pub mod coerce;
pub mod workbook;
pub mod mapping;
pub mod xml;
pub mod naming;
pub mod snapshot;
pub mod snapshot_text;
pub mod update;
pub mod incremental;
pub mod state;
pub mod report;
pub mod api;
