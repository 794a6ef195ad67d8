//! Sizing the coverage map: the instrumented binary reports its number of
//! edge guards, and that number (with the bytes for the correctness step in
//! front) is the size of the shared map.
use vstd::prelude::*;
use vstd::utf8::*;
use crate::text::{
    chars_of, decimal, is_decimal_digit, is_unicode_whitespace, lemma_decimal_digits,
    lemma_parse_decimal_text, lemma_parse_unsigned_bounded, parse_decimal, parse_unsigned, trim,
    trim_chars, trim_end, trim_start, NumberError,
};

verus! {

/// Why the number of coverage guards could not be had.
#[derive(Debug, Clone, Copy, PartialEq, Eq, Structural)]
pub enum CoverageError {
    /// The target binary does not exist.
    BinaryNotFound,
    /// The helper library that makes the binary print its guard count does not exist.
    GuardLibraryMissing,
    /// What the binary printed is not UTF-8.
    InvalidUtf8,
    /// What the binary printed is not a decimal number (after trimming whitespace).
    InvalidNumber(NumberError),
    /// The binary reported no guards at all.
    ZeroGuards,
}

/// The checks made before the binary is run, in the order they are made.
pub open spec fn prerequisites_result(binary_exists: bool, guard_library_exists: bool) -> Result<(), CoverageError> {
    if !binary_exists {
        Err(CoverageError::BinaryNotFound)
    } else if !guard_library_exists {
        Err(CoverageError::GuardLibraryMissing)
    } else {
        Ok(())
    }
}

/// The guard count that a run of the binary reported on standard output.
pub open spec fn guard_count_result(output: Seq<u8>) -> Result<usize, CoverageError> {
    if !valid_utf8(output) {
        Err(CoverageError::InvalidUtf8)
    } else {
        match parse_unsigned(trim(decode_utf8(output)), usize::MAX as int) {
            Err(e) => Err(CoverageError::InvalidNumber(e)),
            Ok(v) => if v == 0 {
                Err(CoverageError::ZeroGuards)
            } else {
                Ok(v as usize)
            },
        }
    }
}

/// Decides whether the guard count can be asked for: the binary must exist,
/// and so must the library that makes it print its guard count.
pub fn check_guard_prerequisites(binary_exists: bool, guard_library_exists: bool) -> (r: Result<(), CoverageError>)
    ensures
        r == prerequisites_result(binary_exists, guard_library_exists),
{
    if !binary_exists {
        Err(CoverageError::BinaryNotFound)
    } else if !guard_library_exists {
        Err(CoverageError::GuardLibraryMissing)
    } else {
        Ok(())
    }
}

/// `String::from_utf8`: the bytes as text when they are valid UTF-8.
#[verifier::external_body]
fn string_from_utf8(bytes: Vec<u8>) -> (r: Option<String>)
    ensures
        r is Some <==> valid_utf8(bytes@),
        r matches Some(s) ==> s@ == decode_utf8(bytes@),
{
    match String::from_utf8(bytes) {
        Ok(s) => Some(s),
        Err(_) => None,
    }
}

/// Reads the guard count from what the binary printed: UTF-8 text holding a
/// decimal number, surrounded by any whitespace; zero guards is an error.
pub fn guard_count_from_output(output: Vec<u8>) -> (r: Result<usize, CoverageError>)
    ensures
        r == guard_count_result(output@),
{
    let ghost bytes = output@;
    let text = match string_from_utf8(output) {
        Some(s) => s,
        None => {
            return Err(CoverageError::InvalidUtf8);
        },
    };
    let chars = chars_of(text.as_str());
    let trimmed = trim_chars(&chars);
    proof {
        lemma_parse_unsigned_bounded(trimmed@, usize::MAX as int);
    }
    match parse_decimal(&trimmed, usize::MAX as u64) {
        Err(e) => Err(CoverageError::InvalidNumber(e)),
        Ok(v) => {
            if v == 0 {
                Err(CoverageError::ZeroGuards)
            } else {
                Ok(v as usize)
            }
        },
    }
}


/// A guard count that the binary prints in decimal on a line of its own is
/// read exactly as printed.
pub proof fn lemma_printed_guard_count_is_read(n: usize)
    requires
        n > 0,
    ensures
        guard_count_result(encode_utf8(decimal(n as nat).push('\n'))) == Ok::<usize, CoverageError>(n),
{
    let text = decimal(n as nat).push('\n');
    encode_utf8_valid_utf8(text);
    encode_utf8_decode_utf8(text);
    lemma_decimal_digits(n as nat);
    let d = decimal(n as nat);
    assert(text[0] == d[0]);
    assert(is_decimal_digit(d[0]));
    assert(!is_unicode_whitespace(text[0]));
    assert(trim_start(text) == text);
    assert(text.drop_last() =~= d);
    assert(is_decimal_digit(d.last()));
    assert(trim_end(text) == trim_end(d));
    assert(trim_end(d) == d);
    lemma_parse_decimal_text(n as nat, usize::MAX as int);
}

} // verus!
