//! The plain-Polish variant: the same prefix-notation grammar read with
//! ASCII digits.  Trees and operators are shared with the Devanagari
//! variant, so the two accept structurally identical expressions.

use vstd::prelude::*;

pub use crate::ast::Node;
pub use crate::ast::Operator;
pub use crate::grammar::Expected;
pub use crate::grammar::ParseError;
pub use crate::grammar::SyntaxError;

verus! {

use crate::ast::{TreeModel, wf_tree};
use crate::grammar::{spec_parse, ParseErrModel, parse_core};
use crate::numeral::Script;

/// Parses one source line of ASCII-digit prefix notation, exactly as
/// [`spec_parse`] states; a successful parse is a well-formed tree.
pub fn parse(source: &str) -> (r: Result<Node, ParseError>)
    ensures
        match r {
            Ok(node) => spec_parse(Script::Ascii, source@) == Ok::<TreeModel, ParseErrModel>(node@)
                && wf_tree(node@),
            Err(e) => spec_parse(Script::Ascii, source@) == Err::<TreeModel, ParseErrModel>(e@),
        },
{
    parse_core(Script::Ascii, source)
}

} // verus!
