//! Structural checks that the XML reader does not already make.

use vstd::prelude::*;
use crate::model::core_model::Model;
use crate::validation::report::ValidationReport;

verus! {

/// Structural checks beyond those of the reader; none are defined yet, so nothing is reported.
pub fn validate_schema(_model: &Model, report: &mut ValidationReport)
    ensures
        final(report).items@ == old(report).items@,
{
}

} // verus!
