//! White space in UTF-8 text.
//!
//! The white-space characters are those that Unicode gives the property
//! `White_Space`: the six of ASCII, and nineteen beyond it that take two or
//! three bytes each. Each of the longer ones starts with a byte that occurs
//! nowhere else in a character, so in well-formed text a match on bytes is a
//! match on characters.

use vstd::prelude::*;
use super::ascii::{byte_is_space, is_space};

verus! {

/// The length in bytes of the white-space character that `s` starts with,
/// or zero where it starts with none.
pub open spec fn space_length(s: Seq<u8>) -> nat {
    if s.len() >= 1 && is_space(s[0]) {
        // U+0009 to U+000D, U+0020
        1
    } else if s.len() >= 2 && s[0] == 0xC2 && (s[1] == 0x85 || s[1] == 0xA0) {
        // U+0085 next line, U+00A0 no-break space
        2
    } else if s.len() >= 3 && s[0] == 0xE1 && s[1] == 0x9A && s[2] == 0x80 {
        // U+1680 ogham space mark
        3
    } else if s.len() >= 3 && s[0] == 0xE2 && s[1] == 0x80 && (0x80 <= s[2] <= 0x8A || s[2]
        == 0xA8 || s[2] == 0xA9 || s[2] == 0xAF) {
        // U+2000 to U+200A, U+2028 line separator, U+2029 paragraph
        // separator, U+202F narrow no-break space
        3
    } else if s.len() >= 3 && s[0] == 0xE2 && s[1] == 0x81 && s[2] == 0x9F {
        // U+205F medium mathematical space
        3
    } else if s.len() >= 3 && s[0] == 0xE3 && s[1] == 0x80 && s[2] == 0x80 {
        // U+3000 ideographic space
        3
    } else {
        0
    }
}

/// The length of the white space that `s` starts with: of all the
/// white-space characters before its first byte that starts none.
pub open spec fn leading_space(s: Seq<u8>) -> nat
    decreases s.len(),
{
    let n = space_length(s);
    if n > 0 {
        n + leading_space(s.skip(n as int))
    } else {
        0
    }
}

/// The number of bytes of `s` before the first white-space character, or
/// before its end where it holds none.
pub open spec fn word_length(s: Seq<u8>) -> nat
    decreases s.len(),
{
    if s.len() > 0 && space_length(s) == 0 {
        1 + word_length(s.skip(1))
    } else {
        0
    }
}

/// Neither the white space nor the word that `s` starts with is longer
/// than `s`.
pub proof fn lemma_lengths_bound(s: Seq<u8>)
    ensures
        leading_space(s) <= s.len(),
        word_length(s) <= s.len(),
    decreases s.len(),
{
    let n = space_length(s);
    if n > 0 {
        lemma_lengths_bound(s.skip(n as int));
    }
    if s.len() > 0 {
        lemma_lengths_bound(s.skip(1));
    }
}

/// Finds the length of the white-space character that starts at `from`.
pub fn space_at(s: &[u8], from: usize) -> (length: usize)
    requires
        from <= s@.len(),
    ensures
        length == space_length(s@.skip(from as int)),
        from + length <= s@.len(),
{
    let left = s.len() - from;
    if left == 0 {
        return 0;
    }
    let first = s[from];
    if byte_is_space(first) {
        return 1;
    }
    if left >= 2 && first == 0xC2 {
        let second = s[from + 1];
        return if second == 0x85 || second == 0xA0 {
            2
        } else {
            0
        };
    }
    if left < 3 {
        return 0;
    }
    let second = s[from + 1];
    let third = s[from + 2];
    let found = (first == 0xE1 && second == 0x9A && third == 0x80) || (first == 0xE2 && second
        == 0x80 && ((0x80 <= third && third <= 0x8A) || third == 0xA8 || third == 0xA9 || third
        == 0xAF)) || (first == 0xE2 && second == 0x81 && third == 0x9F) || (first == 0xE3
        && second == 0x80 && third == 0x80);
    if found {
        3
    } else {
        0
    }
}

/// Finds where the white space that starts at `from` ends.
pub fn skip_space(s: &[u8], from: usize) -> (to: usize)
    requires
        from <= s@.len(),
    ensures
        to == from + leading_space(s@.skip(from as int)),
        to <= s@.len(),
{
    let mut i: usize = from;
    loop
        invariant_except_break
            leading_space(s@.skip(from as int)) == (i - from) + leading_space(s@.skip(i as int)),
        invariant
            from <= i <= s@.len(),
        ensures
            leading_space(s@.skip(from as int)) == i - from,
        decreases s@.len() - i,
    {
        let n = space_at(s, i);
        if n == 0 {
            break ;
        }
        assert(s@.skip(i as int).skip(n as int) =~= s@.skip(i + n));
        assert(i + n <= s.len());
        i += n;
    }
    i
}

/// Finds where the word that starts at `from` ends.
pub fn skip_word(s: &[u8], from: usize) -> (to: usize)
    requires
        from <= s@.len(),
    ensures
        to == from + word_length(s@.skip(from as int)),
        to <= s@.len(),
{
    let mut i: usize = from;
    while i < s.len() && space_at(s, i) == 0
        invariant
            from <= i <= s@.len(),
            word_length(s@.skip(from as int)) == (i - from) + word_length(s@.skip(i as int)),
        decreases s.len() - i,
    {
        assert(s@.skip(i as int).skip(1) =~= s@.skip(i + 1));
        i += 1;
    }
    i
}

} // verus!
