//! Interface for defining and solving SAT problems.
//!
//! The Boolean satisfiability problem (SAT for short) asks, for a given
//! Boolean formula, whether there exists an assignment of values (true or
//! false) to the formula's variables such that the formula evaluates to true.
//!
//! This crate allows the user to formulate instances of SAT and to solve them
//! using off-the-shelf SAT solvers. An [`Instance`] is a conjunction of
//! clauses; each clause is a disjunction of [`Literal`]s. A solver answers
//! with an [`Assignment`] of truth values to the variables, or reports that
//! none exists.
//!
//! ```ignore
//! // Create a SAT instance.
//! let mut i = sat::Instance::new();
//! let x = i.fresh_var();
//! let y = i.fresh_var();
//! let z = i.fresh_var();
//! i.assert_any(&[x, z]);        //     (x OR z)
//! i.assert_any(&[!x, !y, !z]);  // AND (!x OR !y OR !z)
//! i.assert_any(&[y]);           // AND (y = TRUE)
//!
//! // Write it as DIMACS text for a solver program.
//! let s = sat::solver::Dimacs::new(());
//! let mut text = Vec::new();
//! s.write_instance(&mut text, &i);
//!
//! // Read the program's answer and check that it meets our requirements.
//! let a = s.read_solution(b"SAT\n-1 2 3 0\n", i.num_vars()).unwrap().unwrap();
//! assert!(a.get(x) || a.get(z));
//! assert!(!a.get(x) || !a.get(y) || !a.get(z));
//! assert!(a.get(y));
//! ```
//!
//! The crate is verified with Verus. Contracts are stated over mathematical
//! models: a literal is seen as a [`Lit`], an instance as a [`Cnf`], and an
//! assignment as the sequence of its truth values.

pub use crate::formula::{literals, truth_values, Assignment, Cnf, Instance, Lit, Literal};

pub mod formula;
pub mod solver;
