//! The document parser's public entry point.

use vstd::prelude::*;

use crate::parse::{spec_parse_feature, Error, SpecPError};
use crate::{Feature, SpecFeature};

pub mod keyword;

verus! {

/// The parser's public face: feeds a source text through the lexer and the
/// document grammar.
pub struct Parser;

impl Parser {
    /// Parses a feature source into its document tree; the same function as
    /// [`crate::parse::parse_feature`].
    pub fn parse_feature<'a>(input: &'a str) -> (r: Result<Feature, Error<'a>>)
        ensures
            r matches Ok(f) ==> spec_parse_feature(input@) == Ok::<_, SpecPError>(f@) && f@.wf(),
            r matches Err(e) ==> spec_parse_feature(input@) == Err::<SpecFeature, _>(
                SpecPError { kind: e@.kind, line: e@.line_num },
            ) && e@.text == input@,
            input@.len() == 0 ==> r is Err,
    {
        crate::parse::parse_feature(input)
    }
}

} // verus!
