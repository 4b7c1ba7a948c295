//! Interface to SAT solvers.

use vstd::prelude::*;
use crate::{Assignment, Instance};

pub use self::dimacs::Dimacs;

pub mod dimacs;

verus! {

/// Trait for SAT solvers.
///
/// The contract of `solve` is what an implementation promises its callers.
/// Verus holds a verified implementation to it; of any other it is taken on
/// trust.
pub trait Solver {
    /// Solve an instance and return the satisfying assignment, or
    /// `None` if no such assignment exists.
    ///
    /// Every literal of the instance must refer to a variable that the
    /// instance has allocated. `None` is kept for the instance that was
    /// found to have no satisfying assignment: a solver that cannot come to
    /// an answer does not return.
    fn solve(&self, instance: &Instance) -> (solution: Option<Assignment>)
        requires
            instance@.well_formed(),
        ensures
            solution matches Some(assignment) ==> instance@.satisfied_by(assignment@),
            solution is None ==> !instance@.satisfiable(),
    ;
}

} // verus!
