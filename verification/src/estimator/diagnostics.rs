//! What became of the GPS fixes that a filter was given.
use vstd::prelude::*;

use crate::binary64::{Binary64, ZERO};

verus! {

/// What a filter did with a GPS fix.
#[derive(Debug, Clone, Copy, PartialEq, Eq, Structural)]
pub enum UpdateResult {
    Applied { normalized_residual: Binary64 },
    Rejected { normalized_residual: Binary64 },
    Invalid,
}

#[derive(Debug, Clone, Copy, PartialEq, Eq, Structural)]
pub struct GpsDiagnostics {
    pub attempted_fixes: usize,
    pub accepted_fixes: usize,
    pub rejected_fixes: usize,
    pub invalid_fixes: usize,
    pub maximum_normalized_residual: Binary64,
}

impl GpsDiagnostics {
    /// The diagnostics before any fix.
    pub open spec fn none() -> GpsDiagnostics {
        GpsDiagnostics {
            attempted_fixes: 0,
            accepted_fixes: 0,
            rejected_fixes: 0,
            invalid_fixes: 0,
            maximum_normalized_residual: Binary64 { bits: ZERO },
        }
    }

    /// Whether every fix was accepted, rejected or invalid.
    pub open spec fn is_balanced(self) -> bool {
        self.attempted_fixes == self.accepted_fixes + self.rejected_fixes + self.invalid_fixes
    }

    /// The diagnostics after one more fix.
    pub open spec fn with(self, result: UpdateResult) -> GpsDiagnostics {
        let attempted_fixes = (self.attempted_fixes + 1) as usize;
        match result {
            UpdateResult::Applied { normalized_residual } => GpsDiagnostics {
                attempted_fixes,
                accepted_fixes: (self.accepted_fixes + 1) as usize,
                maximum_normalized_residual: self.maximum_normalized_residual.max(
                    normalized_residual,
                ),
                ..self
            },
            UpdateResult::Rejected { normalized_residual } => GpsDiagnostics {
                attempted_fixes,
                rejected_fixes: (self.rejected_fixes + 1) as usize,
                maximum_normalized_residual: self.maximum_normalized_residual.max(
                    normalized_residual,
                ),
                ..self
            },
            UpdateResult::Invalid => GpsDiagnostics {
                attempted_fixes,
                invalid_fixes: (self.invalid_fixes + 1) as usize,
                ..self
            },
        }
    }

    /// Counts one more fix.
    pub fn record(&mut self, result: UpdateResult)
        requires
            old(self).is_balanced(),
            old(self).attempted_fixes < usize::MAX,
        ensures
            *final(self) == old(self).with(result),
            final(self).is_balanced(),
            final(self).attempted_fixes == old(self).attempted_fixes + 1,
    {
        self.attempted_fixes = self.attempted_fixes + 1;
        match result {
            UpdateResult::Applied { normalized_residual } => {
                self.accepted_fixes = self.accepted_fixes + 1;
                self.maximum_normalized_residual =
                self.maximum_normalized_residual.max(normalized_residual);
            },
            UpdateResult::Rejected { normalized_residual } => {
                self.rejected_fixes = self.rejected_fixes + 1;
                self.maximum_normalized_residual =
                self.maximum_normalized_residual.max(normalized_residual);
            },
            UpdateResult::Invalid => {
                self.invalid_fixes = self.invalid_fixes + 1;
            },
        }
    }
}

impl Default for GpsDiagnostics {
    fn default() -> (diagnostics: GpsDiagnostics)
        ensures
            diagnostics == GpsDiagnostics::none(),
            diagnostics.is_balanced(),
    {
        GpsDiagnostics {
            attempted_fixes: 0,
            accepted_fixes: 0,
            rejected_fixes: 0,
            invalid_fixes: 0,
            maximum_normalized_residual: Binary64 { bits: ZERO },
        }
    }
}

} // verus!
