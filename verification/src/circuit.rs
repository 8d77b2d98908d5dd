//! The constraint sink.  Gadget calls thread one `Circuit` value through the
//! whole construction, counting the constraints they emit and recording
//! whether every emitted equality held of the witness values.  Constraint
//! identifiers are positional, so construction is strictly sequential.

use vstd::prelude::*;

verus! {

/// Failures during circuit construction.  Division or inversion by a value
/// whose plaintext witness is the additive identity is the only failure the
/// gadgets themselves raise by design; `Unsatisfiable` reports a witness
/// that failed its verification constraint.
#[derive(Clone, Copy, Debug, PartialEq, Eq, Structural)]
pub enum SynthError {
    DivisionByZero,
    Unsatisfiable,
}

/// Constraint counts saturate at the counter's capacity.
pub open spec fn count_add(c: u64, n: u64) -> u64 {
    if c + n > u64::MAX {
        u64::MAX
    } else {
        (c + n) as u64
    }
}

/// The collector for one circuit instance: how many constraints have been
/// emitted, and whether the witness satisfied all of them.
pub struct Circuit {
    pub constraints: u64,
    pub satisfied: bool,
}

impl Circuit {
    /// An empty constraint system with a satisfied (vacuous) witness.
    pub fn new() -> (r: Self)
        ensures
            r.constraints == 0,
            r.satisfied,
    {
        Circuit { constraints: 0, satisfied: true }
    }

    /// Number of constraints emitted so far.
    pub fn num_constraints(&self) -> (r: u64)
        ensures
            r == self.constraints,
    {
        self.constraints
    }

    /// Whether every emitted constraint held of the witness values.
    pub fn is_satisfied(&self) -> (r: bool)
        ensures
            r == self.satisfied,
    {
        self.satisfied
    }

    /// Record `n` freshly emitted constraints.
    pub(crate) fn bump(&mut self, n: u64)
        ensures
            final(self).constraints == count_add(old(self).constraints, n),
            final(self).satisfied == old(self).satisfied,
    {
        if self.constraints > u64::MAX - n {
            self.constraints = u64::MAX;
        } else {
            self.constraints = self.constraints + n;
        }
    }

    /// Record whether an emitted equality constraint held of the witness.
    pub(crate) fn enforce(&mut self, held: bool)
        ensures
            final(self).constraints == old(self).constraints,
            final(self).satisfied == (old(self).satisfied && held),
    {
        self.satisfied = self.satisfied && held;
    }
}

} // verus!
