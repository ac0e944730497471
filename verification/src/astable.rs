//! The trait of the syntax nodes that can be parsed.
use vstd::prelude::*;
use crate::error::{ParseResult, SpecResult, leaves_suffix, result_view};

verus! {

/// A syntax node that can be parsed from the start of a text.
///
/// `spec_parse` is the grammar of the node, as a function of the characters
/// of the input; `parse` computes it, and on success leaves a suffix of its
/// input.
pub trait ASTable<'a>: Sized + DeepView {
    /// The outcome of parsing `s`, as a mathematical value.
    spec fn spec_parse(s: Seq<char>) -> SpecResult<<Self as DeepView>::V>;

    /// Parses one node from the start of `s`.
    fn parse(s: &'a str) -> (r: ParseResult<'a, Self>)
        ensures
            result_view(r) == Self::spec_parse(s@),
            leaves_suffix(result_view(r), s@),
    ;
}

} // verus!
