//! Units, exact range reduction and sexagesimal rendering of plane angles.
//!
//! An angle reaches this library as an exact decimal number of parts: whole units, minutes
//! or seconds of degrees or of hours. The library reduces such a number into a canonical
//! interval one rotation wide, rounds it, and writes it as fixed-width sexagesimal text.

pub mod angle_unit;
pub mod decimal;
pub mod format;
pub mod normalize;

pub use angle_unit::{AngleUnit, AngleUnitSubdivision};
pub use decimal::DecimalValue;
pub use format::{AngleFormat, AngleRange, AngleUnitPrecision};

use vstd::prelude::*;
use vstd::string::StringExecFns;

verus! {

/// The error of an angle that must stay between minus ninety and ninety degrees: the value
/// offered lies outside.
#[derive(Debug, Clone, Copy)]
pub struct AcuteAngleError;

impl AcuteAngleError {
    /// The words that describe the error.
    pub fn message(&self) -> (text: String)
        ensures
            text@ == "value outside the allowed range [-90°, 90°]"@,
    {
        String::from_str("value outside the allowed range [-90°, 90°]")
    }
}

} // verus!
