use vstd::prelude::*;

verus! {

/// What a command name is bound to: an action built into the engine, which
/// takes no arguments, or a macro defined by the user.
pub enum CommandType<F: Fn()> {
    BuiltIn(F),
    Macro,
}

} // verus!
