//! Report output settings.
use crate::config::{AppConfig, OutputFormat};
use vstd::prelude::*;

verus! {

/// The configured output format.
pub fn output_format(config: &AppConfig) -> (r: OutputFormat)
    ensures
        r == config.output.format,
{
    config.output.format
}

} // verus!
