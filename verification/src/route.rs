//! Reading the local source address out of what a route query printed.
//!
//! The answer to "which way do packets to this destination go" is a line of
//! words separated by white space, in which the word `src` is followed by the
//! address that such packets leave from, in dotted decimal notation.

use vstd::prelude::*;

verus! {

/// Why no source address could be read.
#[derive(Debug, Clone, Copy, PartialEq, Eq, Structural)]
pub enum RouteError {
    /// There is no word `src`, or no word follows it.
    NoSourceAddress,
    /// The word that follows `src` is no IPv4 address.
    InvalidSourceAddress,
}

/// ASCII white space: tab, line feed, form feed, carriage return and space.
pub open spec fn is_space(byte: u8) -> bool {
    byte == 0x09 || byte == 0x0A || byte == 0x0C || byte == 0x0D || byte == 0x20
}

/// The word `src`.
pub open spec fn src_word() -> Seq<u8> {
    seq![0x73u8, 0x72u8, 0x63u8]
}

/// The index of the first byte at or after `from` that is not white space,
/// or the length where only white space follows.
pub open spec fn skip_spaces(bytes: Seq<u8>, from: int) -> int
    decreases bytes.len() - from,
{
    if 0 <= from < bytes.len() && is_space(bytes[from]) {
        skip_spaces(bytes, from + 1)
    } else {
        from
    }
}

/// The index of the first byte at or after `from` that is white space, or
/// the length where none follows.
pub open spec fn skip_word(bytes: Seq<u8>, from: int) -> int
    decreases bytes.len() - from,
{
    if 0 <= from < bytes.len() && !is_space(bytes[from]) {
        skip_word(bytes, from + 1)
    } else {
        from
    }
}

/// Skipping never goes back, and a word that starts at `from` ends after it.
pub proof fn lemma_skip_moves_on(bytes: Seq<u8>, from: int)
    requires
        0 <= from <= bytes.len(),
    ensures
        from <= skip_spaces(bytes, from) <= bytes.len(),
        from <= skip_word(bytes, from) <= bytes.len(),
        skip_spaces(bytes, from) < bytes.len() ==> !is_space(bytes[skip_spaces(bytes, from)]),
        from < bytes.len() && !is_space(bytes[from]) ==> from < skip_word(bytes, from),
    decreases bytes.len() - from,
{
    if from < bytes.len() {
        lemma_skip_moves_on(bytes, from + 1);
    }
}

/// The word that follows the first word `src` at or after `from`, if there
/// is such a word.
pub open spec fn source_word(bytes: Seq<u8>, from: int) -> Option<Seq<u8>>
    decreases bytes.len() - from,
{
    let start = skip_spaces(bytes, from);
    let end = skip_word(bytes, start);
    if from < 0 || start >= bytes.len() {
        None
    } else if bytes.subrange(start, end) == src_word() {
        let next = skip_spaces(bytes, end);
        if next >= bytes.len() {
            None
        } else {
            Some(bytes.subrange(next, skip_word(bytes, next)))
        }
    } else {
        proof {
            lemma_skip_moves_on(bytes, from);
            lemma_skip_moves_on(bytes, start);
        }
        source_word(bytes, end)
    }
}

/// An ASCII decimal digit.
pub open spec fn is_digit(byte: u8) -> bool {
    0x30 <= byte <= 0x39
}

/// The value of a decimal digit.
pub open spec fn digit(byte: u8) -> int {
    byte - 0x30
}

/// The number that the bytes of `word` from `from` up to `to` spell: one to
/// three decimal digits, without a leading zero unless it is the only digit,
/// and no more than 255.
pub open spec fn octet(word: Seq<u8>, from: int, to: int) -> Option<u8> {
    if to - from == 1 && is_digit(word[from]) {
        Some(digit(word[from]) as u8)
    } else if to - from == 2 && is_digit(word[from]) && is_digit(word[from + 1]) && word[from]
        != 0x30 {
        Some((digit(word[from]) * 10 + digit(word[from + 1])) as u8)
    } else if to - from == 3 && is_digit(word[from]) && is_digit(word[from + 1]) && is_digit(
        word[from + 2],
    ) && word[from] != 0x30 && digit(word[from]) * 100 + digit(word[from + 1]) * 10 + digit(
        word[from + 2],
    ) <= 255 {
        Some((digit(word[from]) * 100 + digit(word[from + 1]) * 10 + digit(word[from + 2])) as u8)
    } else {
        None
    }
}

/// The index of the first dot at or after `from`, or the length where none
/// follows.
pub open spec fn next_dot(word: Seq<u8>, from: int) -> int
    decreases word.len() - from,
{
    if 0 <= from < word.len() && word[from] != 0x2E {
        next_dot(word, from + 1)
    } else {
        from
    }
}

/// The address that `word` spells in dotted decimal notation: four octets
/// separated by three dots, the first octet in the highest byte.
pub open spec fn dotted_quad(word: Seq<u8>) -> Option<u32> {
    let first = next_dot(word, 0);
    let second = next_dot(word, first + 1);
    let third = next_dot(word, second + 1);
    let end = next_dot(word, third + 1);
    if third < word.len() && end == word.len() {
        match (
            octet(word, 0, first),
            octet(word, first + 1, second),
            octet(word, second + 1, third),
            octet(word, third + 1, end),
        ) {
            (Some(a), Some(b), Some(c), Some(d)) => Some(
                (a * 0x100_0000 + b * 0x1_0000 + c * 0x100 + d) as u32,
            ),
            _ => None,
        }
    } else {
        None
    }
}

/// The source address in the answer to a route query: the address that the
/// word after the first word `src` spells.
pub open spec fn source_addr(output: Seq<u8>) -> Result<u32, RouteError> {
    match source_word(output, 0) {
        None => Err(RouteError::NoSourceAddress),
        Some(word) => match dotted_quad(word) {
            Some(addr) => Ok(addr),
            None => Err(RouteError::InvalidSourceAddress),
        },
    }
}

fn is_space_byte(byte: u8) -> (r: bool)
    ensures
        r == is_space(byte),
{
    byte == 0x09 || byte == 0x0A || byte == 0x0C || byte == 0x0D || byte == 0x20
}

fn skip_spaces_from(bytes: &[u8], from: usize) -> (r: usize)
    requires
        from <= bytes@.len(),
    ensures
        r == skip_spaces(bytes@, from as int),
        from <= r <= bytes@.len(),
{
    let mut at = from;
    while at < bytes.len() && is_space_byte(bytes[at])
        invariant
            from <= at <= bytes@.len(),
            skip_spaces(bytes@, from as int) == skip_spaces(bytes@, at as int),
        decreases bytes@.len() - at,
    {
        at += 1;
    }
    at
}

fn skip_word_from(bytes: &[u8], from: usize) -> (r: usize)
    requires
        from <= bytes@.len(),
    ensures
        r == skip_word(bytes@, from as int),
        from <= r <= bytes@.len(),
{
    let mut at = from;
    while at < bytes.len() && !is_space_byte(bytes[at])
        invariant
            from <= at <= bytes@.len(),
            skip_word(bytes@, from as int) == skip_word(bytes@, at as int),
        decreases bytes@.len() - at,
    {
        at += 1;
    }
    at
}

fn next_dot_from(word: &[u8], from: usize) -> (r: usize)
    requires
        from <= word@.len(),
    ensures
        r == next_dot(word@, from as int),
        from <= r <= word@.len(),
{
    let mut at = from;
    while at < word.len() && word[at] != 0x2E
        invariant
            from <= at <= word@.len(),
            next_dot(word@, from as int) == next_dot(word@, at as int),
        decreases word@.len() - at,
    {
        at += 1;
    }
    at
}

fn is_digit_byte(byte: u8) -> (r: bool)
    ensures
        r == is_digit(byte),
{
    0x30 <= byte && byte <= 0x39
}

/// Reads the octet that the bytes of `word` from `from` up to `to` spell.
fn parse_octet(word: &[u8], from: usize, to: usize) -> (r: Option<u8>)
    requires
        from <= to <= word@.len(),
    ensures
        r == octet(word@, from as int, to as int),
{
    let count = to - from;
    if count == 0 || count > 3 {
        return None;
    }
    if !is_digit_byte(word[from]) {
        return None;
    }
    if count == 1 {
        return Some(word[from] - 0x30);
    }
    if word[from] == 0x30 || !is_digit_byte(word[from + 1]) {
        return None;
    }
    if count == 2 {
        return Some((word[from] - 0x30) * 10 + (word[from + 1] - 0x30));
    }
    if !is_digit_byte(word[from + 2]) {
        return None;
    }
    let value: u16 = (word[from] - 0x30) as u16 * 100 + (word[from + 1] - 0x30) as u16 * 10 + (
    word[from + 2] - 0x30) as u16;
    if value <= 255 {
        Some(value as u8)
    } else {
        None
    }
}

/// Reads an IPv4 address in dotted decimal notation.
pub fn parse_dotted_quad(word: &[u8]) -> (r: Option<u32>)
    ensures
        r == dotted_quad(word@),
{
    let len = word.len();
    let first = next_dot_from(word, 0);
    if first >= len {
        return None;
    }
    let second = next_dot_from(word, first + 1);
    if second >= len {
        return None;
    }
    let third = next_dot_from(word, second + 1);
    if third >= len {
        return None;
    }
    let end = next_dot_from(word, third + 1);
    if end != len {
        return None;
    }
    match (
        parse_octet(word, 0, first),
        parse_octet(word, first + 1, second),
        parse_octet(word, second + 1, third),
        parse_octet(word, third + 1, end),
    ) {
        (Some(a), Some(b), Some(c), Some(d)) => Some(
            a as u32 * 0x100_0000 + b as u32 * 0x1_0000 + c as u32 * 0x100 + d as u32,
        ),
        _ => None,
    }
}

/// Whether the bytes of `bytes` from `start` up to `end` are the word `src`.
fn is_src(bytes: &[u8], start: usize, end: usize) -> (r: bool)
    requires
        start <= end <= bytes@.len(),
    ensures
        r == (bytes@.subrange(start as int, end as int) == src_word()),
{
    let r = end - start == 3 && bytes[start] == 0x73 && bytes[start + 1] == 0x72 && bytes[start
        + 2] == 0x63;
    proof {
        let word = bytes@.subrange(start as int, end as int);
        if r {
            assert(word =~= src_word());
        } else if end - start == 3 {
        } else {
            assert(word.len() != src_word().len());
        }
    }
    r
}

/// Reads the source address out of the answer to a route query.
pub fn parse_source_addr(output: &[u8]) -> (r: Result<u32, RouteError>)
    ensures
        r == source_addr(output@),
{
    let len = output.len();
    let mut at: usize = 0;
    loop
        invariant
            at <= len,
            len == output@.len(),
            source_word(output@, at as int) == source_word(output@, 0),
        decreases len - at,
    {
        let start = skip_spaces_from(output, at);
        if start >= len {
            return Err(RouteError::NoSourceAddress);
        }
        let end = skip_word_from(output, start);
        proof {
            lemma_skip_moves_on(output@, at as int);
        }
        if is_src(output, start, end) {
            let next = skip_spaces_from(output, end);
            if next >= len {
                return Err(RouteError::NoSourceAddress);
            }
            let stop = skip_word_from(output, next);
            let word = vstd::slice::slice_subrange(output, next, stop);
            return match parse_dotted_quad(word) {
                Some(addr) => Ok(addr),
                None => Err(RouteError::InvalidSourceAddress),
            };
        }
        at = end;
    }
}

} // verus!
