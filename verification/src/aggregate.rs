//! Aggregation operators and their names.

use vstd::prelude::*;
use vstd::string::*;

verus! {

/// The lowercase form of a string, as `str::to_lowercase` computes it.
pub uninterp spec fn lowercase_text(s: Seq<char>) -> Seq<char>;

/// `str::to_lowercase` (Unicode lowercase mapping). Its result is a function
/// of the input alone and is named by `lowercase_text`; the mapping itself is
/// not stated.
#[verifier::external_body]
fn to_lowercase(s: &str) -> (r: String)
    ensures
        r@ == lowercase_text(s@),
{
    s.to_lowercase()
}

fn text_is(s: &String, lit: &str) -> (r: bool)
    ensures
        r == (s@ == lit@),
{
    let other = String::from_str(lit);
    *s == other
}

/// How a group of values is collapsed into one value.
#[derive(Debug, Clone, Copy, PartialEq, Eq, Structural)]
pub enum AggregateOp {
    /// Total of the valid values.
    Sum,
    /// Arithmetic mean of the valid values.
    Mean,
    /// Middle value of the valid values.
    Median,
    /// Smallest valid value.
    Min,
    /// Largest valid value.
    Max,
    /// Number of records.
    Count,
}

impl AggregateOp {
    /// The operator named by an already lowercased name; unknown names mean `Sum`.
    pub open spec fn spec_from_lowercase(s: Seq<char>) -> AggregateOp {
        if s == "mean"@ || s == "avg"@ {
            AggregateOp::Mean
        } else if s == "sum"@ {
            AggregateOp::Sum
        } else if s == "min"@ {
            AggregateOp::Min
        } else if s == "max"@ {
            AggregateOp::Max
        } else if s == "count"@ || s == "n"@ {
            AggregateOp::Count
        } else if s == "median"@ {
            AggregateOp::Median
        } else {
            AggregateOp::Sum
        }
    }

    /// Picks the operator named by `lower`, a lowercased operator name:
    /// "mean"/"avg", "sum", "min", "max", "count"/"n", "median"; any other
    /// name selects `Sum`.
    pub fn from_lowercase(lower: &String) -> (r: AggregateOp)
        ensures
            r == Self::spec_from_lowercase(lower@),
    {
        if text_is(lower, "mean") || text_is(lower, "avg") {
            AggregateOp::Mean
        } else if text_is(lower, "sum") {
            AggregateOp::Sum
        } else if text_is(lower, "min") {
            AggregateOp::Min
        } else if text_is(lower, "max") {
            AggregateOp::Max
        } else if text_is(lower, "count") || text_is(lower, "n") {
            AggregateOp::Count
        } else if text_is(lower, "median") {
            AggregateOp::Median
        } else {
            AggregateOp::Sum
        }
    }
}

impl Default for AggregateOp {
    fn default() -> (r: Self)
        ensures
            r == AggregateOp::Sum,
    {
        AggregateOp::Sum
    }
}

impl<'a> From<&'a str> for AggregateOp {
    /// Parses an operator name case-insensitively (see `from_lowercase`).
    fn from(s: &'a str) -> (r: Self)
        ensures
            r == AggregateOp::spec_from_lowercase(lowercase_text(s@)),
    {
        let lower = to_lowercase(s);
        AggregateOp::from_lowercase(&lower)
    }
}

impl<'a> vstd::std_specs::convert::FromSpecImpl<&'a str> for AggregateOp {
    open spec fn obeys_from_spec() -> bool {
        true
    }

    open spec fn from_spec(v: &'a str) -> AggregateOp {
        AggregateOp::spec_from_lowercase(lowercase_text(v@))
    }
}

} // verus!
