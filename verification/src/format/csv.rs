//! CSV forms of the reports, one per report kind.
use vstd::prelude::*;
use crate::design::{Design, Module};

verus! {

/// Why a report could not be written.
#[derive(Debug)]
pub enum FormatError {
    /// The writer failed, with its message.
    Write(String),
}

/// The CSV form of a module's ports: nothing is written yet.
pub fn format_ports_csv(_module: &Module) -> (r: Result<(), FormatError>)
    ensures
        r is Ok,
{
    Ok(())
}

/// The CSV form of a module's signals: nothing is written yet.
pub fn format_signals_csv(_module: &Module) -> (r: Result<(), FormatError>)
    ensures
        r is Ok,
{
    Ok(())
}

/// The CSV form of a module's FF count: nothing is written yet.
pub fn format_ff_csv(_module: &Module) -> (r: Result<(), FormatError>)
    ensures
        r is Ok,
{
    Ok(())
}

/// The CSV form of the hierarchy below a top module: nothing is written yet.
pub fn format_hier_csv(_design: &Design, _top_module: &str) -> (r: Result<(), FormatError>)
    ensures
        r is Ok,
{
    Ok(())
}

/// The CSV form of the top modules: nothing is written yet.
pub fn format_top_csv(_top_modules: &[String]) -> (r: Result<(), FormatError>)
    ensures
        r is Ok,
{
    Ok(())
}

/// The CSV form of the full report: nothing is written yet.
pub fn format_report_csv(_design: &Design, _top_module: &str) -> (r: Result<(), FormatError>)
    ensures
        r is Ok,
{
    Ok(())
}

} // verus!
