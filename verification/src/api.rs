//! The entry points that a front end calls.
//!
//! A front end reads the workbook and writes the files; between the two it
//! calls `update` or `quick_update` for the plan of a run.

use vstd::prelude::*;
use vstd::string::StringExecFns;
use crate::config::{ConfigError, ConfigView, default_config};
use crate::config_text::{config_text, get_default_cfg_json, parse_config};
use crate::workbook::Workbook;

pub use crate::update::{quick_update, update};

verus! {

/// The text that `greet` returns for `name`.
pub open spec fn greeting_of(name: Seq<char>) -> Seq<char> {
    "Hello Rust, "@ + name + "!"@
}

/// Greets `name`.
pub fn greet(name: String) -> (greeting: String)
    ensures
        greeting@ == greeting_of(name@),
{
    let mut greeting = String::from_str("Hello Rust, ");
    greeting.append(name.as_str());
    greeting.append("!");
    greeting
}

/// The text of the built-in configuration. Read as a configuration, it
/// gives the built-in configuration back.
pub fn get_default_cfg() -> (text: String)
    ensures
        text@ == config_text(default_config()),
        parse_config(text@) == Ok::<ConfigView, ConfigError>(default_config()),
{
    get_default_cfg_json()
}

/// The names of the sheets of a workbook, in the order of the file.
pub fn get_sheet_names(workbook: &Workbook) -> (names: Vec<String>)
    ensures
        names@.len() == workbook@.len(),
        forall|i: int| 0 <= i < names@.len() ==> (#[trigger] names@[i])@ == workbook@[i].name,
{
    workbook.list_sheet_names()
}

} // verus!
