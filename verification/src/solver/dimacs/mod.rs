//! Invoke an external SAT solver program which uses the DIMACS / MiniSAT
//! file format.
//!
//! The instance goes to the program as DIMACS CNF text, and the program's
//! answer comes back in the format that MiniSAT writes. This module turns an
//! [`Instance`] into the one and the other into an [`Assignment`]; running
//! the program is left to the caller.

use vstd::prelude::*;
use vstd::slice::slice_subrange;
use crate::{truth_values, Assignment, Instance};
use self::encoding::{clauses_text, instance_text, push_clause};
use self::header::push_header;
use self::decoding::{
    apply_words, decode_solution, from_header, lemma_words_unfold, read_word, sat_line,
    skip_empty_lines, solution_view, starts_with_sat_line, starts_with_unsat_line,
    unsat_line, words,
};

use self::space::{skip_space, skip_word};

pub use self::decoding::DecodeError;

pub mod ascii;
pub mod decimal;
pub mod decoding;
pub mod encoding;
pub mod header;
pub mod space;

verus! {

/// A SAT solver which invokes an external program using the DIMACS / MiniSAT
/// file format.
///
/// `CmdFactory` is whatever the caller needs to start the program afresh for
/// each instance; the two formats do not depend on it.
pub struct Dimacs<CmdFactory> {
    cmd_factory: CmdFactory,
}

impl<CmdFactory> Dimacs<CmdFactory> {
    /// What the solver was created with.
    pub closed spec fn factory(&self) -> CmdFactory {
        self.cmd_factory
    }

    /// Create an instance of the DIMACS solver.
    ///
    /// The argument should prepare the invocation of the solver program. The
    /// input and output filenames will be appended as additional arguments.
    pub fn new(cmd_factory: CmdFactory) -> (solver: Dimacs<CmdFactory>)
        ensures
            solver.factory() == cmd_factory,
    {
        Dimacs { cmd_factory }
    }

    /// What prepares the invocation of the solver program.
    pub fn cmd_factory(&self) -> (cmd_factory: &CmdFactory)
        ensures
            *cmd_factory == self.factory(),
    {
        &self.cmd_factory
    }

    /// Write an instance in DIMACS format.
    ///
    /// The text is appended to `writer`. No literal is checked against the
    /// number of variables: an instance that uses a variable it never
    /// allocated gives a text whose problem line does not cover its clauses.
    ///
    /// You don't need to call this directly as part of the solver workflow.
    /// It may be useful for debugging.
    pub fn write_instance(&self, writer: &mut Vec<u8>, instance: &Instance)
        ensures
            final(writer)@ == old(writer)@ + instance_text(instance@),
    {
        let count = instance.num_clauses();
        push_header(writer, instance.num_vars(), count);
        let ghost start = writer@;
        let ghost clauses = instance@.clauses;
        let mut i: usize = 0;
        while i < count
            invariant
                i <= count,
                count == clauses.len(),
                clauses == instance@.clauses,
                writer@ == start + clauses_text(clauses.take(i as int)),
            decreases count - i,
        {
            push_clause(writer, instance.clause(i));
            proof {
                assert(clauses.take(i + 1).drop_last() =~= clauses.take(i as int));
                assert(clauses.take(i + 1).last() == clauses[i as int]);
                assert(writer@ =~= start + clauses_text(clauses.take(i + 1)));
            }
            i += 1;
        }
        assert(clauses.take(i as int) =~= clauses);
        assert(writer@ =~= old(writer)@ + instance_text(instance@));
    }

    /// Read a solution in MiniSAT format.
    ///
    /// `reader` holds the whole of the program's answer and `num_vars` is the
    /// number of variables of the instance that was solved. The header is the
    /// first line that is not empty: empty lines before it are passed over.
    /// The result is `Ok(None)` where the header is `UNSAT`, the assignment
    /// where it is `SAT`, and an error where it is neither or a word after
    /// `SAT` is not the number of a variable. The words after `SAT` are
    /// separated by white space as Unicode defines it, in UTF-8: the white
    /// space of ASCII, and such characters as the no-break space.
    ///
    /// You don't need to call this directly as part of the solver workflow.
    /// It may be useful for debugging.
    pub fn read_solution(&self, reader: &[u8], num_vars: usize) -> (solution: Result<
        Option<Assignment>,
        DecodeError,
    >)
        ensures
            solution_view(solution) == decode_solution(reader@, num_vars as nat),
            solution matches Ok(Some(assignment)) ==> assignment@.len() == num_vars,
    {
        let first = skip_empty_lines(reader);
        let answer = slice_subrange(reader, first, reader.len());
        assert(answer@ == from_header(reader@));
        if starts_with_unsat_line(answer) {
            return Ok(None);
        }
        if !starts_with_sat_line(answer) {
            return Err(DecodeError::MissingHeader);
        }
        let mut negated: Vec<bool> = Vec::new();
        let mut v: usize = 0;
        while v < num_vars
            invariant
                v <= num_vars,
                negated@.len() == v,
                forall|i: int| 0 <= i < v ==> !negated@[i],
            decreases num_vars - v,
        {
            negated.push(false);
            v += 1;
        }
        let ghost all_true = Seq::new(num_vars as nat, |i: int| true);
        let ghost body = answer@.skip(sat_line().len() as int);
        assert(truth_values(negated@) =~= all_true);
        let mut pos: usize = 4;
        assert(answer@.skip(pos as int) == body);
        loop
            invariant_except_break
                apply_words(all_true, words(body)) == apply_words(
                    truth_values(negated@),
                    words(answer@.skip(pos as int)),
                ),
            invariant
                pos <= answer@.len(),
                negated@.len() == num_vars,
                !unsat_line().is_prefix_of(answer@),
                sat_line().is_prefix_of(answer@),
                body == answer@.skip(sat_line().len() as int),
                all_true == Seq::new(num_vars as nat, |i: int| true),
                answer@ == from_header(reader@),
            ensures
                apply_words(all_true, words(body)) == Ok::<Seq<bool>, DecodeError>(
                    truth_values(negated@),
                ),
            decreases answer@.len() - pos,
        {
            let ghost rest = answer@.skip(pos as int);
            let start = skip_space(answer, pos);
            let end = skip_word(answer, start);
            proof {
                lemma_words_unfold(rest);
                assert(rest.skip(start - pos) =~= answer@.skip(start as int));
                assert(rest.skip(end - pos) =~= answer@.skip(end as int));
                assert(rest.subrange(start - pos, end - pos) =~= answer@.subrange(
                    start as int,
                    end as int,
                ));
            }
            if start == end {
                break ;
            }
            let word = slice_subrange(answer, start, end);
            let ghost later = words(answer@.skip(end as int));
            assert((seq![word@] + later).skip(1) =~= later);
            match read_word(word, num_vars) {
                Err(e) => {
                    return Err(e);
                },
                Ok(None) => {},
                Ok(Some(index)) => {
                    let ghost before = negated@;
                    negated.set(index, true);
                    assert(truth_values(negated@) =~= truth_values(before).update(
                        index as int,
                        false,
                    ));
                },
            }
            pos = end;
        }
        Ok(Some(Assignment::from_negations(negated)))
    }
}

} // verus!
