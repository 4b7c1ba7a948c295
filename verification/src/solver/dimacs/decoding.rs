//! The grammar of a solver's answer.
//!
//! The header of an answer is its first line that is not empty: the empty
//! lines that an answer starts with, each a line feed alone, are passed
//! over. The header is the line `SAT` or the line `UNSAT`, ended by a line
//! feed; an answer with another header, or with none, is no answer. What
//! follows `UNSAT` is not looked at. After `SAT` come words separated by
//! white space, each a signed decimal integer: `-n` says that the `n`-th
//! variable (counting from one) is false, a positive `n` that it is true,
//! and `0` ends a group and says nothing. A variable that no word declares
//! false is true.
//!
//! White space is what Unicode calls so, in UTF-8: the six characters of
//! ASCII (space, tab, line feed, vertical tab, form feed, carriage return)
//! and the nineteen beyond it, such as the no-break space. Any other byte
//! belongs to a word, and a word that is not made of an optional sign and
//! ASCII digits is an error: so nothing is accepted after `SAT` that is not
//! well-formed UTF-8.

use vstd::prelude::*;
use crate::formula::{Assignment, Lit};
use super::ascii::{MINUS, NEWLINE, PLUS, UPPER_A, UPPER_N, UPPER_S, UPPER_T, UPPER_U};
use super::decimal::{all_digits, decimal_value, digit_run, lemma_digit_run, read_decimal};
use super::space::{leading_space, lemma_lengths_bound, word_length};

verus! {

/// What is wrong with a solver's answer.
#[derive(Clone, Copy, Debug, PartialEq, Eq, Structural)]
pub enum DecodeError {
    /// The first line of the answer that is not empty is neither the line
    /// `SAT` nor the line `UNSAT`, or there is no such line.
    MissingHeader,
    /// A word after the `SAT` line is not a signed decimal integer.
    InvalidToken,
    /// A word names a variable beyond those that the instance has.
    VariableOutOfRange,
}

/// The line `SAT`, with the line feed that ends it.
pub open spec fn sat_line() -> Seq<u8> {
    seq![UPPER_S, UPPER_A, UPPER_T, NEWLINE]
}

/// The line `UNSAT`, with the line feed that ends it.
pub open spec fn unsat_line() -> Seq<u8> {
    seq![UPPER_U, UPPER_N, UPPER_S, UPPER_A, UPPER_T, NEWLINE]
}

/// The number of empty lines that `s` starts with: the line feeds before
/// its first byte that is not one.
pub open spec fn leading_empty_lines(s: Seq<u8>) -> nat
    decreases s.len(),
{
    if s.len() > 0 && s[0] == NEWLINE {
        1 + leading_empty_lines(s.skip(1))
    } else {
        0
    }
}

/// No more empty lines start `s` than `s` has bytes.
pub proof fn lemma_leading_empty_lines_bound(s: Seq<u8>)
    ensures
        leading_empty_lines(s) <= s.len(),
    decreases s.len(),
{
    if s.len() > 0 && s[0] == NEWLINE {
        lemma_leading_empty_lines_bound(s.skip(1));
    }
}

/// What is left of `s` without the empty lines that it starts with: the
/// header and what follows it.
pub open spec fn from_header(s: Seq<u8>) -> Seq<u8> {
    s.skip(leading_empty_lines(s) as int)
}

/// The words of `s`: its maximal runs of bytes that belong to no
/// white-space character, in the order in which they occur.
pub open spec fn words(s: Seq<u8>) -> Seq<Seq<u8>>
    decreases s.len(),
{
    let rest = s.skip(leading_space(s) as int);
    let n = word_length(rest);
    if n == 0 {
        Seq::empty()
    } else {
        proof {
            lemma_lengths_bound(s);
            lemma_lengths_bound(rest);
        }
        seq![rest.take(n as int)] + words(rest.skip(n as int))
    }
}

/// The first word of `s` starts where its leading white space ends and goes
/// on to the next white space; the other words are those of what follows.
pub proof fn lemma_words_unfold(s: Seq<u8>)
    ensures
        ({
            let start = leading_space(s) as int;
            let end = start + word_length(s.skip(start));
            &&& start <= end <= s.len()
            &&& words(s) == if start == end {
                Seq::<Seq<u8>>::empty()
            } else {
                seq![s.subrange(start, end)] + words(s.skip(end))
            }
        }),
{
    let start = leading_space(s) as int;
    lemma_lengths_bound(s);
    let rest = s.skip(start);
    let n = word_length(rest) as int;
    lemma_lengths_bound(rest);
    if n != 0 {
        assert(rest.take(n) =~= s.subrange(start, start + n));
        assert(rest.skip(n) =~= s.skip(start + n));
    }
}

/// The number of sign characters that `word` starts with: one or none.
pub open spec fn sign_length(word: Seq<u8>) -> int {
    if word.len() > 0 && (word[0] == MINUS || word[0] == PLUS) {
        1
    } else {
        0
    }
}

/// Whether `word` is a decimal integer: an optional sign, then one digit or
/// more.
pub open spec fn is_integer(word: Seq<u8>) -> bool {
    let digits = word.skip(sign_length(word));
    digits.len() > 0 && all_digits(digits)
}

/// The integer that `word` denotes, where `is_integer(word)`.
pub open spec fn integer_value(word: Seq<u8>) -> int {
    let magnitude = decimal_value(word.skip(sign_length(word)));
    if word.len() > 0 && word[0] == MINUS {
        -magnitude
    } else {
        magnitude as int
    }
}

/// What one word says of an assignment to `num_vars` variables: the index
/// of the variable that it declares false, nothing (a zero, or a variable
/// declared true), or why the word is not acceptable.
pub open spec fn word_meaning(word: Seq<u8>, num_vars: nat) -> Result<Option<nat>, DecodeError> {
    if !is_integer(word) {
        Err(DecodeError::InvalidToken)
    } else {
        let n = integer_value(word);
        if n == 0 {
            Ok(None)
        } else if n > num_vars || -n > num_vars {
            Err(DecodeError::VariableOutOfRange)
        } else if n < 0 {
            Ok(Some((-n - 1) as nat))
        } else {
            Ok(None)
        }
    }
}

/// The truth values after taking in `words` one by one, starting from
/// `values`; the first word that is not acceptable is the error.
pub open spec fn apply_words(values: Seq<bool>, words: Seq<Seq<u8>>) -> Result<
    Seq<bool>,
    DecodeError,
>
    decreases words.len(),
{
    if words.len() == 0 {
        Ok(values)
    } else {
        match word_meaning(words[0], values.len()) {
            Err(e) => Err(e),
            Ok(None) => apply_words(values, words.skip(1)),
            Ok(Some(v)) => apply_words(values.update(v as int, false), words.skip(1)),
        }
    }
}

/// The words of the answer `s` that follow its `SAT` line.
pub open spec fn answer_words(s: Seq<u8>) -> Seq<Seq<u8>> {
    words(from_header(s).skip(sat_line().len() as int))
}

/// What the answer `s` says of an instance with `num_vars` variables:
/// `Ok(None)` that it cannot be satisfied, `Ok(Some(values))` that `values`
/// satisfies it, and an error that `s` is no answer at all. The header is
/// looked for after the empty lines that `s` starts with.
pub open spec fn decode_solution(s: Seq<u8>, num_vars: nat) -> Result<
    Option<Seq<bool>>,
    DecodeError,
> {
    if unsat_line().is_prefix_of(from_header(s)) {
        Ok(None)
    } else if sat_line().is_prefix_of(from_header(s)) {
        match apply_words(Seq::new(num_vars, |i: int| true), answer_words(s)) {
            Ok(values) => Ok(Some(values)),
            Err(e) => Err(e),
        }
    } else {
        Err(DecodeError::MissingHeader)
    }
}

/// What a decoded answer says as the contracts see it: the assignment by
/// its truth values.
pub open spec fn solution_view(solution: Result<Option<Assignment>, DecodeError>) -> Result<
    Option<Seq<bool>>,
    DecodeError,
> {
    match solution {
        Ok(Some(assignment)) => Ok(Some(assignment@)),
        Ok(None) => Ok(None),
        Err(e) => Err(e),
    }
}

/// Whether one of `words` is the negative number of variable `v`, which
/// declares the variable false.
pub open spec fn declared_false(words: Seq<Seq<u8>>, v: nat) -> bool {
    exists|k: int|
        0 <= k < words.len() && is_integer(#[trigger] words[k]) && integer_value(words[k]) == -(v
            + 1)
}

/// Whether one of `words` is the number of variable `v`, negative or not.
pub open spec fn mentioned(words: Seq<Seq<u8>>, v: nat) -> bool {
    exists|k: int|
        0 <= k < words.len() && is_integer(#[trigger] words[k]) && (integer_value(words[k]) == v
            + 1 || integer_value(words[k]) == -(v + 1))
}

/// Where every word is acceptable, taking them in changes no length and
/// leaves a variable true exactly if it was true before and no word
/// declares it false.
pub proof fn lemma_apply_words(values: Seq<bool>, words: Seq<Seq<u8>>, out: Seq<bool>)
    requires
        apply_words(values, words) == Ok::<Seq<bool>, DecodeError>(out),
    ensures
        out.len() == values.len(),
        forall|v: int|
            0 <= v < values.len() ==> out[v] == (values[v] && !declared_false(words, v as nat)),
    decreases words.len(),
{
    if words.len() > 0 {
        let word = words[0];
        let rest = words.skip(1);
        let next = match word_meaning(word, values.len()) {
            Ok(Some(u)) => values.update(u as int, false),
            _ => values,
        };
        lemma_apply_words(next, rest, out);
        assert forall|v: int| 0 <= v < values.len() implies out[v] == (values[v]
            && !declared_false(words, v as nat)) by {
            let here = is_integer(word) && integer_value(word) == -(v + 1);
            if declared_false(rest, v as nat) {
                let k = choose|k: int|
                    0 <= k < rest.len() && is_integer(#[trigger] rest[k]) && integer_value(
                        rest[k],
                    ) == -(v + 1);
                assert(words[k + 1] == rest[k]);
            }
            if declared_false(words, v as nat) {
                let k = choose|k: int|
                    0 <= k < words.len() && is_integer(#[trigger] words[k]) && integer_value(
                        words[k],
                    ) == -(v + 1);
                if k > 0 {
                    assert(rest[k - 1] == words[k]);
                }
            }
            assert(declared_false(words, v as nat) == (here || declared_false(rest, v as nat)));
        }
    }
}

/// An assignment that was decoded gives a value to each variable of the
/// instance, and makes a variable false exactly if some word of the answer
/// is its negative number.
pub proof fn lemma_decoded_values(s: Seq<u8>, num_vars: nat, values: Seq<bool>)
    requires
        decode_solution(s, num_vars) == Ok::<Option<Seq<bool>>, DecodeError>(Some(values)),
    ensures
        values.len() == num_vars,
        forall|v: int|
            0 <= v < num_vars ==> values[v] == !declared_false(answer_words(s), v as nat),
{
    lemma_apply_words(Seq::new(num_vars, |i: int| true), answer_words(s), values);
}

/// A variable that the answer does not mention is true.
pub proof fn lemma_unmentioned_variable_is_true(
    s: Seq<u8>,
    num_vars: nat,
    values: Seq<bool>,
    v: nat,
)
    requires
        decode_solution(s, num_vars) == Ok::<Option<Seq<bool>>, DecodeError>(Some(values)),
        v < num_vars,
        !mentioned(answer_words(s), v),
    ensures
        (Lit { var: v, negated: false }).eval(values),
{
    lemma_decoded_values(s, num_vars, values);
    if declared_false(answer_words(s), v) {
        let ws = answer_words(s);
        let k = choose|k: int|
            0 <= k < ws.len() && is_integer(#[trigger] ws[k]) && integer_value(ws[k]) == -(v + 1);
        assert(mentioned(ws, v));
    }
}

/// An answer that starts with the line `UNSAT` says that the instance cannot
/// be satisfied, whatever follows that line.
pub proof fn lemma_unsat_ignores_rest(rest: Seq<u8>, num_vars: nat)
    ensures
        decode_solution(unsat_line() + rest, num_vars) == Ok::<Option<Seq<bool>>, DecodeError>(
            None,
        ),
{
    let s = unsat_line() + rest;
    assert(s[0] == UPPER_U);
    assert(from_header(s) =~= s);
    assert(s.subrange(0, unsat_line().len() as int) =~= unsat_line());
}

/// An empty line in front of an answer changes nothing of what it says.
pub proof fn lemma_empty_line_is_skipped(s: Seq<u8>, num_vars: nat)
    ensures
        decode_solution(seq![NEWLINE] + s, num_vars) == decode_solution(s, num_vars),
{
    let longer = seq![NEWLINE] + s;
    assert(longer.skip(1) =~= s);
    lemma_leading_empty_lines_bound(s);
    assert(from_header(longer) =~= from_header(s));
}

/// Counts the empty lines that `s` starts with.
pub fn skip_empty_lines(s: &[u8]) -> (count: usize)
    ensures
        count == leading_empty_lines(s@),
        count <= s@.len(),
{
    let mut i: usize = 0;
    assert(s@.skip(0) =~= s@);
    while i < s.len() && s[i] == NEWLINE
        invariant
            i <= s@.len(),
            leading_empty_lines(s@) == i + leading_empty_lines(s@.skip(i as int)),
        decreases s.len() - i,
    {
        assert(s@.skip(i as int).skip(1) =~= s@.skip(i + 1));
        i += 1;
    }
    i
}

/// Tests whether `s` starts with the line `SAT`.
pub fn starts_with_sat_line(s: &[u8]) -> (found: bool)
    ensures
        found == sat_line().is_prefix_of(s@),
{
    s.len() >= 4 && s[0] == UPPER_S && s[1] == UPPER_A && s[2] == UPPER_T && s[3] == NEWLINE
}

/// Tests whether `s` starts with the line `UNSAT`.
pub fn starts_with_unsat_line(s: &[u8]) -> (found: bool)
    ensures
        found == unsat_line().is_prefix_of(s@),
{
    s.len() >= 6 && s[0] == UPPER_U && s[1] == UPPER_N && s[2] == UPPER_S && s[3] == UPPER_A
        && s[4] == UPPER_T && s[5] == NEWLINE
}

/// Reads one word of an answer for an instance with `num_vars` variables:
/// returns the index of the variable that the word declares false, `None`
/// where it declares none, or why the word is not acceptable.
pub fn read_word(word: &[u8], num_vars: usize) -> (meaning: Result<Option<usize>, DecodeError>)
    ensures
        word_meaning(word@, num_vars as nat) == match meaning {
            Ok(Some(v)) => Ok::<Option<nat>, DecodeError>(Some(v as nat)),
            Ok(None) => Ok(None),
            Err(e) => Err(e),
        },
{
    let negative = word.len() > 0 && word[0] == MINUS;
    let first: usize = if word.len() > 0 && (word[0] == MINUS || word[0] == PLUS) {
        1
    } else {
        0
    };
    let (end, magnitude) = read_decimal(word, first, num_vars);
    proof {
        let digits = word@.skip(first as int);
        lemma_digit_run(digits);
        if end == word@.len() {
            assert(digits.take(digit_run(digits) as int) =~= digits);
            assert(word@.subrange(first as int, end as int) =~= digits);
        }
    }
    if end == first || end < word.len() {
        return Err(DecodeError::InvalidToken);
    }
    match magnitude {
        None => Err(DecodeError::VariableOutOfRange),
        Some(m) => if m == 0 || !negative {
            Ok(None)
        } else {
            Ok(Some(m - 1))
        },
    }
}

} // verus!
