//! The problem line that opens a DIMACS CNF text: `p cnf`, the number of
//! variables and the number of clauses.

use vstd::prelude::*;
use super::ascii::{is_digit, LOWER_C, LOWER_F, LOWER_N, LOWER_P, NEWLINE, SPACE};
use super::decimal::{
    all_digits, decimal_digits, decimal_value, digit_run, lemma_decimal_digits_shape,
    lemma_decimal_round_trip, push_decimal, read_decimal,
};

verus! {

/// The word `p cnf` that opens the problem line, with the space after it.
pub open spec fn problem_tag() -> Seq<u8> {
    seq![LOWER_P, SPACE, LOWER_C, LOWER_N, LOWER_F, SPACE]
}

/// The problem line of an instance with `num_vars` variables and
/// `num_clauses` clauses.
pub open spec fn header_text(num_vars: nat, num_clauses: nat) -> Seq<u8> {
    problem_tag() + decimal_digits(num_vars) + seq![SPACE] + decimal_digits(num_clauses)
        + seq![NEWLINE]
}

/// The two counts of the problem line that `s` starts with, if it starts
/// with one: `p cnf`, digits, one space, digits and a line feed.
pub open spec fn header_counts(s: Seq<u8>) -> Option<(nat, nat)> {
    if !problem_tag().is_prefix_of(s) {
        None
    } else {
        let first = s.skip(problem_tag().len() as int);
        let n = digit_run(first) as int;
        if n == 0 || n >= first.len() || first[n] != SPACE {
            None
        } else {
            let second = first.skip(n + 1);
            let m = digit_run(second) as int;
            if m == 0 || m >= second.len() || second[m] != NEWLINE {
                None
            } else {
                Some((decimal_value(first.take(n)), decimal_value(second.take(m))))
            }
        }
    }
}

/// Digits followed by something that is no digit form a run of their own.
pub proof fn lemma_digit_run_stops(digits: Seq<u8>, rest: Seq<u8>)
    requires
        all_digits(digits),
        rest.len() == 0 || !is_digit(rest[0]),
    ensures
        digit_run(digits + rest) == digits.len(),
    decreases digits.len(),
{
    if digits.len() > 0 {
        assert(is_digit(digits[0]));
        assert((digits + rest)[0] == digits[0]);
        assert((digits + rest).skip(1) =~= digits.skip(1) + rest);
        assert forall|i: int| 0 <= i < digits.skip(1).len() implies is_digit(
            #[trigger] digits.skip(1)[i],
        ) by {
            assert(digits.skip(1)[i] == digits[i + 1]);
        }
        lemma_digit_run_stops(digits.skip(1), rest);
    } else {
        assert(digits + rest =~= rest);
    }
}

/// Reading a problem line back gives the two counts that it was written
/// with, whatever follows the line.
pub proof fn lemma_header_round_trip(num_vars: nat, num_clauses: nat, rest: Seq<u8>)
    ensures
        header_counts(header_text(num_vars, num_clauses) + rest) == Some((num_vars, num_clauses)),
{
    let tag = problem_tag();
    let vars = decimal_digits(num_vars);
    let clauses = decimal_digits(num_clauses);
    let s = header_text(num_vars, num_clauses) + rest;
    lemma_decimal_digits_shape(num_vars);
    lemma_decimal_digits_shape(num_clauses);
    lemma_decimal_round_trip(num_vars);
    lemma_decimal_round_trip(num_clauses);
    assert(s.subrange(0, tag.len() as int) =~= tag);
    let first = s.skip(tag.len() as int);
    let after_vars = seq![SPACE] + clauses + seq![NEWLINE] + rest;
    assert(first =~= vars + after_vars);
    lemma_digit_run_stops(vars, after_vars);
    let n = vars.len() as int;
    assert(first.take(n) =~= vars);
    assert(first[n] == SPACE);
    let second = first.skip(n + 1);
    let after_clauses = seq![NEWLINE] + rest;
    assert(second =~= clauses + after_clauses);
    lemma_digit_run_stops(clauses, after_clauses);
    let m = clauses.len() as int;
    assert(second.take(m) =~= clauses);
    assert(second[m] == NEWLINE);
}

/// Appends the problem line to `out`.
pub fn push_header(out: &mut Vec<u8>, num_vars: usize, num_clauses: usize)
    ensures
        final(out)@ == old(out)@ + header_text(num_vars as nat, num_clauses as nat),
{
    out.push(LOWER_P);
    out.push(SPACE);
    out.push(LOWER_C);
    out.push(LOWER_N);
    out.push(LOWER_F);
    out.push(SPACE);
    push_decimal(out, num_vars as u128);
    out.push(SPACE);
    push_decimal(out, num_clauses as u128);
    out.push(NEWLINE);
    assert(out@ =~= old(out)@ + header_text(num_vars as nat, num_clauses as nat));
}

/// Reads the problem line that `s` starts with, and returns the number of
/// variables and the number of clauses that it declares. The result is
/// `None` where `s` does not start with a problem line, or where a count
/// does not fit the machine's word.
pub fn read_header(s: &[u8]) -> (counts: Option<(usize, usize)>)
    ensures
        counts == match header_counts(s@) {
            Some((num_vars, num_clauses)) => if num_vars <= usize::MAX && num_clauses
                <= usize::MAX {
                Some((num_vars as usize, num_clauses as usize))
            } else {
                None
            },
            None => None,
        },
{
    if !(s.len() >= 6 && s[0] == LOWER_P && s[1] == SPACE && s[2] == LOWER_C && s[3] == LOWER_N
        && s[4] == LOWER_F && s[5] == SPACE) {
        return None;
    }
    let ghost first = s@.skip(6);
    let (vars_end, num_vars) = read_decimal(s, 6, usize::MAX);
    if vars_end == 6 || vars_end >= s.len() || s[vars_end] != SPACE {
        return None;
    }
    let ghost second = first.skip(vars_end - 6 + 1);
    assert(second =~= s@.skip(vars_end + 1));
    let (clauses_end, num_clauses) = read_decimal(s, vars_end + 1, usize::MAX);
    if clauses_end == vars_end + 1 || clauses_end >= s.len() || s[clauses_end] != NEWLINE {
        return None;
    }
    assert(first.take(vars_end - 6) =~= s@.subrange(6, vars_end as int));
    assert(second.take(clauses_end - vars_end - 1) =~= s@.subrange(
        vars_end + 1,
        clauses_end as int,
    ));
    match (num_vars, num_clauses) {
        (Some(v), Some(c)) => Some((v, c)),
        _ => None,
    }
}

} // verus!
