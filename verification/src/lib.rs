//! The lexical front end of an assembler: a scanner that turns source text
//! into tokens, each with the line and column at which it begins.
//!
//! `scan` holds the mathematical model of scanning, `tokenizer` the scanner
//! itself, proved against that model, and `laws` and `round_trip` what
//! follows from the model for every text.

use vstd::prelude::*;

pub mod chars;
pub mod laws;
pub mod position;
pub mod report;
pub mod round_trip;
pub mod scan;
pub mod tokenizer;

verus! {

/// Whether a file name ends in `.s`, the extension of assembly sources.
pub open spec fn has_source_extension(name: Seq<char>) -> bool {
    name.len() >= 2 && name[name.len() - 2] == '.' && name[name.len() - 1] == 's'
}

/// Whether `filename` names a source file that can be assembled: it ends in
/// `.s`, and `exists` says that a file of that name is there.
pub fn is_valid_file(filename: &str, exists: bool) -> (valid: bool)
    ensures
        valid == (has_source_extension(filename@) && exists),
{
    let length = filename.unicode_len();
    if length < 2 {
        return false;
    }
    if filename.get_char(length - 2) != '.' || filename.get_char(length - 1) != 's' {
        return false;
    }
    exists
}

} // verus!
