//! The trait that every registered command implements.

use vstd::prelude::*;
use crate::error::CommandError;
use crate::parser::views;

verus! {

/// A command that can be registered and executed.
///
/// Implementors give the command's name (the word that invokes it), its
/// syntax, a short description and detailed documentation, and say how it
/// executes on the argument strings that follow the name.
///
/// An implementation checked by Verus describes itself through the spec
/// functions: `obeys_command_spec` says that the four texts are `spec_name`,
/// `spec_syntax`, `spec_short` and `spec_docs`, and `spec_executes` relates
/// the arguments that `execute` is given to the result it returns. The
/// default bodies promise nothing: an implementation that does not define
/// them (one that Verus does not check) is held to no text, and its
/// `execute` may return anything.
pub trait Command: Send + Sync {
    /// Whether the four texts of this command are its spec functions below.
    open spec fn obeys_command_spec(&self) -> bool {
        false
    }

    /// The name of the command.
    closed spec fn spec_name(&self) -> Seq<char> {
        arbitrary()
    }

    /// The syntax string of the command.
    closed spec fn spec_syntax(&self) -> Seq<char> {
        arbitrary()
    }

    /// The short description of the command.
    closed spec fn spec_short(&self) -> Seq<char> {
        arbitrary()
    }

    /// The detailed documentation of the command.
    closed spec fn spec_docs(&self) -> Seq<char> {
        arbitrary()
    }

    /// Whether `execute`, given arguments whose views are `args`, may return `r`.
    open spec fn spec_executes(&self, args: Seq<Seq<char>>, r: Result<(), CommandError>) -> bool {
        true
    }

    /// Returns the name of the command (e.g. "spawn", "teleport").
    fn name(&self) -> (r: &str)
        ensures
            self.obeys_command_spec() ==> r@ == self.spec_name(),
    ;

    /// Returns the syntax string for the command (e.g. "spawn <entity> <count>").
    fn syntax(&self) -> (r: &str)
        ensures
            self.obeys_command_spec() ==> r@ == self.spec_syntax(),
    ;

    /// Returns a short one-line description of the command.
    fn short(&self) -> (r: &str)
        ensures
            self.obeys_command_spec() ==> r@ == self.spec_short(),
    ;

    /// Returns detailed documentation for the command.
    fn docs(&self) -> (r: &str)
        ensures
            self.obeys_command_spec() ==> r@ == self.spec_docs(),
    ;

    /// Returns `true` if this command is asynchronous. The default is `false`.
    fn is_async(&self) -> (b: bool)
        default_ensures
            !b,
    {
        false
    }

    /// Executes the command synchronously with the provided arguments.
    ///
    /// A command that only runs asynchronously returns
    /// [`CommandError::RequiresAsyncRuntime`] here.
    fn execute(&self, args: Vec<String>) -> (r: Result<(), CommandError>)
        ensures
            self.spec_executes(views(args@), r),
    ;
}

} // verus!
