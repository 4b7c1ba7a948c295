//! The DIMACS CNF text of an instance.
//!
//! The text starts with the line `p cnf <variables> <clauses>`. One line
//! follows for each clause, in the order in which the clauses were asserted:
//! its literals in their order, each followed by a space, and a closing `0`.
//! A literal is written as the number of its variable, counting from one,
//! with a minus sign in front where it is negated.

use vstd::prelude::*;
use crate::{literals, Cnf, Lit, Literal};
use super::ascii::{MINUS, NEWLINE, SPACE, ZERO};
use super::decimal::{decimal_digits, push_decimal};
use super::header::{header_counts, header_text, lemma_header_round_trip};

verus! {

/// One literal: its variable's number, counting from one, negative where
/// the literal is negated.
pub open spec fn literal_text(literal: Lit) -> Seq<u8> {
    if literal.negated {
        seq![MINUS] + decimal_digits(literal.var + 1)
    } else {
        decimal_digits(literal.var + 1)
    }
}

/// The literals of a clause in their order, each followed by a space.
pub open spec fn literals_text(clause: Seq<Lit>) -> Seq<u8>
    decreases clause.len(),
{
    if clause.len() == 0 {
        Seq::empty()
    } else {
        literals_text(clause.drop_last()) + literal_text(clause.last()) + seq![SPACE]
    }
}

/// The line of one clause: its literals, then the closing `0`.
pub open spec fn clause_text(clause: Seq<Lit>) -> Seq<u8> {
    literals_text(clause) + seq![ZERO, NEWLINE]
}

/// The lines of `clauses`, in their order.
pub open spec fn clauses_text(clauses: Seq<Seq<Lit>>) -> Seq<u8>
    decreases clauses.len(),
{
    if clauses.len() == 0 {
        Seq::empty()
    } else {
        clauses_text(clauses.drop_last()) + clause_text(clauses.last())
    }
}

/// The whole text of an instance: the problem line, then the clause lines.
pub open spec fn instance_text(cnf: Cnf) -> Seq<u8> {
    header_text(cnf.num_vars, cnf.clauses.len()) + clauses_text(cnf.clauses)
}

/// Reading back the problem line of an instance's text gives the number of
/// its variables and the number of its clauses.
pub proof fn lemma_instance_header_round_trip(cnf: Cnf)
    ensures
        header_counts(instance_text(cnf)) == Some((cnf.num_vars, cnf.clauses.len())),
{
    lemma_header_round_trip(cnf.num_vars, cnf.clauses.len(), clauses_text(cnf.clauses));
}

/// Appends the line of `clause` to `out`.
pub fn push_clause(out: &mut Vec<u8>, clause: &[Literal])
    ensures
        final(out)@ == old(out)@ + clause_text(literals(clause@)),
{
    let ghost lits = literals(clause@);
    let mut j: usize = 0;
    while j < clause.len()
        invariant
            j <= clause@.len(),
            lits == literals(clause@),
            out@ == old(out)@ + literals_text(lits.take(j as int)),
        decreases clause.len() - j,
    {
        let ghost before = out@;
        let literal = clause[j];
        if literal.is_negated() {
            out.push(MINUS);
        }
        push_decimal(out, literal.var() as u128 + 1);
        out.push(SPACE);
        proof {
            assert(lits.take(j + 1).drop_last() =~= lits.take(j as int));
            assert(lits.take(j + 1).last() == literal@);
            assert(out@ =~= before + (literal_text(literal@) + seq![SPACE]));
            assert(out@ =~= old(out)@ + literals_text(lits.take(j + 1)));
        }
        j += 1;
    }
    assert(lits.take(j as int) =~= lits);
    out.push(ZERO);
    out.push(NEWLINE);
    assert(out@ =~= old(out)@ + clause_text(lits));
}

} // verus!
