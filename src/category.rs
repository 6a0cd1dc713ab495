use vstd::prelude::*;

verus! {

/// The category of a character: how a tokenizer treats it.
///
/// `Invalid` is the category of a character to which no scope assigns one.
#[derive(Debug, Clone, Copy, PartialEq, Eq, Structural)]
pub enum CharacterCategory {
    Escape,
    BeginGroup,
    EndGroup,
    MathShift,
    AlignmentTab,
    EndOfLine,
    Parameter,
    Superscript,
    Subscript,
    Ignored,
    Space,
    Letter,
    Other,
    Active,
    Comment,
    Invalid,
}

} // verus!
