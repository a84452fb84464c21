//! The library's error type.

use vstd::prelude::*;
use crate::text::{int_text, joined, decimal_text};

verus! {

/// Errors raised while building or querying datasets.
#[derive(Debug)]
pub enum ChartonError {
    /// A data-level problem: missing column, inconsistent lengths, bad index.
    Data(String),
}

impl ChartonError {
    /// The message carried by the error.
    pub open spec fn message(&self) -> Seq<char> {
        match self {
            ChartonError::Data(s) => s@,
        }
    }
}

/// "Column '<name>' not found in dataset"
pub open spec fn column_not_found_text(name: Seq<char>) -> Seq<char> {
    "Column '"@ + name + "' not found in dataset"@
}

/// "Column '<name>' not found"
pub open spec fn column_missing_text(name: Seq<char>) -> Seq<char> {
    "Column '"@ + name + "' not found"@
}

/// "Type mismatch: Column '<name>' cannot be accessed as the requested type"
pub open spec fn type_mismatch_text(name: Seq<char>) -> Seq<char> {
    "Type mismatch: Column '"@ + name + "' cannot be accessed as the requested type"@
}

/// "Inconsistent column length in '<name>': expected <expected> rows, found <found>"
pub open spec fn inconsistent_length_text(name: Seq<char>, expected: int, found: int) -> Seq<char> {
    "Inconsistent column length in '"@ + name + "': expected "@ + decimal_text(expected) + " rows, found "@
        + decimal_text(found)
}

/// "Index <index> is out of bounds for Dataset with height <height>"
pub open spec fn index_out_of_bounds_text(index: int, height: int) -> Seq<char> {
    "Index "@ + decimal_text(index) + " is out of bounds for Dataset with height "@ + decimal_text(height)
}

fn three(a: &str, b: &str, c: &str) -> (r: String)
    ensures
        r@ == a@ + b@ + c@,
{
    let ab = joined(a, b);
    joined(ab.as_str(), c)
}

pub(crate) fn column_not_found(name: &str) -> (e: ChartonError)
    ensures
        e.message() == column_not_found_text(name@),
{
    ChartonError::Data(three("Column '", name, "' not found in dataset"))
}

pub(crate) fn column_missing(name: &str) -> (e: ChartonError)
    ensures
        e.message() == column_missing_text(name@),
{
    ChartonError::Data(three("Column '", name, "' not found"))
}

pub(crate) fn type_mismatch(name: &str) -> (e: ChartonError)
    ensures
        e.message() == type_mismatch_text(name@),
{
    ChartonError::Data(three("Type mismatch: Column '", name, "' cannot be accessed as the requested type"))
}

pub(crate) fn inconsistent_length(name: &str, expected: usize, found: usize) -> (e: ChartonError)
    ensures
        e.message() == inconsistent_length_text(name@, expected as int, found as int),
{
    let head = three("Inconsistent column length in '", name, "': expected ");
    let exp = int_text(expected as i128);
    let found_text = int_text(found as i128);
    let mid = three(head.as_str(), exp.as_str(), " rows, found ");
    let all = joined(mid.as_str(), found_text.as_str());
    assert(all@ == inconsistent_length_text(name@, expected as int, found as int));
    ChartonError::Data(all)
}

pub(crate) fn index_out_of_bounds(index: usize, height: usize) -> (e: ChartonError)
    ensures
        e.message() == index_out_of_bounds_text(index as int, height as int),
{
    let idx = int_text(index as i128);
    let h = int_text(height as i128);
    let first = three("Index ", idx.as_str(), " is out of bounds for Dataset with height ");
    let all = joined(first.as_str(), h.as_str());
    assert(all@ == index_out_of_bounds_text(index as int, height as int));
    ChartonError::Data(all)
}

} // verus!
