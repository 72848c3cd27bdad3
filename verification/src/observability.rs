//! Logging settings: what the command line overrides of the configuration.
use crate::config::LogFormat;
use vstd::prelude::*;
use vstd::string::StringExecFns;

verus! {

broadcast use vstd::string::group_string_axioms;

/// The log level: the one given on the command line, else the configured one.
pub fn log_level(given: Option<String>, configured: &String) -> (r: String)
    ensures
        r@ == match given {
            Some(l) => l@,
            None => configured@,
        },
{
    match given {
        Some(l) => l,
        None => configured.clone(),
    }
}

/// The log format: `human` or `json` given on the command line, else (also for any other
/// text) the configured one.
pub fn log_format(given: &Option<String>, configured: LogFormat) -> (r: LogFormat)
    ensures
        r == match given {
            Some(f) => if f@ == "human"@ {
                LogFormat::Human
            } else if f@ == "json"@ {
                LogFormat::Json
            } else {
                configured
            },
            None => configured,
        },
{
    match given {
        Some(f) => {
            if *f == "human".to_string() {
                LogFormat::Human
            } else if *f == "json".to_string() {
                LogFormat::Json
            } else {
                configured
            }
        },
        None => configured,
    }
}

} // verus!
