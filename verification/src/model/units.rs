//! Units of measurement.

use vstd::prelude::*;

verus! {

/// Unit of measurement of the model's coordinates; millimeter by default.
#[derive(Debug, Clone, Copy, PartialEq, Eq)]
pub enum Unit {
    /// Micrometers.
    Micron,
    /// Millimeters (the default).
    Millimeter,
    /// Centimeters.
    Centimeter,
    /// Inches.
    Inch,
    /// Feet.
    Foot,
    /// Meters.
    Meter,
}

impl Unit {
    /// The unit named by a 3MF `unit` attribute value; unknown names mean millimeters.
    pub fn from_name(name: &String) -> (u: Unit)
        ensures
            u == unit_from_name_spec(name@),
    {
        if *name == String::from_str("micron") {
            Unit::Micron
        } else if *name == String::from_str("centimeter") {
            Unit::Centimeter
        } else if *name == String::from_str("inch") {
            Unit::Inch
        } else if *name == String::from_str("foot") {
            Unit::Foot
        } else if *name == String::from_str("meter") {
            Unit::Meter
        } else {
            Unit::Millimeter
        }
    }
}

/// The unit named by a string; anything unknown is the millimeter.
pub open spec fn unit_from_name_spec(s: Seq<char>) -> Unit {
    if s == "micron"@ {
        Unit::Micron
    } else if s == "centimeter"@ {
        Unit::Centimeter
    } else if s == "inch"@ {
        Unit::Inch
    } else if s == "foot"@ {
        Unit::Foot
    } else if s == "meter"@ {
        Unit::Meter
    } else {
        Unit::Millimeter
    }
}

impl Default for Unit {
    fn default() -> (u: Self)
        ensures
            u == Unit::Millimeter,
    {
        Unit::Millimeter
    }
}

} // verus!
