//! The error kinds the library reports while resolving a configuration
//! and while interpreting sysfs text.

use vstd::prelude::*;

verus! {

/// Everything that can go wrong in the library's own logic. I/O failures
/// and configuration-file syntax errors arise outside the library and are
/// represented by the caller's own error type.
#[derive(Debug)]
pub enum Error {
    /// The configured `hwmon_name` did not appear in any `hwmonI/name`.
    HwmonNameNotFound(String),
    /// A label or index did not resolve to a `tempN_input` file.
    HwmonSensorNotFound,
    /// A sensor carried a matching label but no corresponding input file;
    /// the caller is expected to treat this as a fatal inconsistency.
    LabelWithoutInput,
    /// A curve point string was not of the form `<int>C/<int>%` with the
    /// temperature and percentage in range.
    InvalidPointSpec,
    /// A temperature reading was not a valid integer.
    InvalidReading,
    /// A fan enable-mode file did not hold a valid integer.
    InvalidMode,
    /// A fan speed file did not hold a valid integer.
    InvalidSpeed,
}

impl PartialEq for Error {
    fn eq(&self, other: &Error) -> (r: bool) {
        match (self, other) {
            (Error::HwmonNameNotFound(a), Error::HwmonNameNotFound(b)) => *a == *b,
            (Error::HwmonSensorNotFound, Error::HwmonSensorNotFound) => true,
            (Error::LabelWithoutInput, Error::LabelWithoutInput) => true,
            (Error::InvalidPointSpec, Error::InvalidPointSpec) => true,
            (Error::InvalidReading, Error::InvalidReading) => true,
            (Error::InvalidMode, Error::InvalidMode) => true,
            (Error::InvalidSpeed, Error::InvalidSpeed) => true,
            _ => false,
        }
    }
}

impl vstd::std_specs::cmp::PartialEqSpecImpl for Error {
    open spec fn obeys_eq_spec() -> bool {
        true
    }

    open spec fn eq_spec(&self, other: &Error) -> bool {
        match (self, other) {
            (Error::HwmonNameNotFound(a), Error::HwmonNameNotFound(b)) => a@ == b@,
            (Error::HwmonSensorNotFound, Error::HwmonSensorNotFound) => true,
            (Error::LabelWithoutInput, Error::LabelWithoutInput) => true,
            (Error::InvalidPointSpec, Error::InvalidPointSpec) => true,
            (Error::InvalidReading, Error::InvalidReading) => true,
            (Error::InvalidMode, Error::InvalidMode) => true,
            (Error::InvalidSpeed, Error::InvalidSpeed) => true,
            _ => false,
        }
    }
}

impl Error {
    /// A short fixed description of the error kind, for callers that log.
    pub fn describe(&self) -> (r: &'static str) {
        match self {
            Error::HwmonNameNotFound(_) => "the specified hwmon name was not found",
            Error::HwmonSensorNotFound => "the specified sensor (label or index) was not found",
            Error::LabelWithoutInput => "sensor has label but no input",
            Error::InvalidPointSpec => "a curve point in the configuration file was invalid",
            Error::InvalidReading => "a sensor reading was not a valid integer",
            Error::InvalidMode => "a fan mode was not a valid integer",
            Error::InvalidSpeed => "a fan speed was not a valid integer",
        }
    }
}

} // verus!
