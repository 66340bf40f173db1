//! Commands and the handlers that carry them out.

use crate::error::CommandError;
use vstd::prelude::*;

verus! {

/// One entry of a shell's registry: a name to call it by, a description for
/// people, and the handler that does the work.
pub struct Command<H> {
    /// The name that a line must end with to run this command.
    pub name: String,
    /// A short description of what the command does. It is carried for help
    /// texts and plays no part in dispatch.
    pub description: String,
    /// What runs when the command is called.
    pub handler: H,
}

/// A command as contracts see it: its texts as character sequences, its
/// handler as it is.
pub ghost struct CommandView<H> {
    pub name: Seq<char>,
    pub description: Seq<char>,
    pub handler: H,
}

impl<H> View for Command<H> {
    type V = CommandView<H>;

    open spec fn view(&self) -> CommandView<H> {
        CommandView { name: self.name@, description: self.description@, handler: self.handler }
    }
}

impl<H> DeepView for Command<H> {
    type V = CommandView<H>;

    open spec fn deep_view(&self) -> CommandView<H> {
        self@
    }
}

/// The behaviour behind a command.
///
/// A handler is given the argument tokens of the line and the whole registry
/// of the shell that called it, its own command included, so that it can list
/// the other commands or run them. It answers with success or with a
/// classified failure.
pub trait Handler: Sized {
    /// Whether `outcome` is an answer this handler may give when it is run on
    /// `arguments` and `registry`.
    ///
    /// A handler that states nothing about itself may give any answer. One
    /// that overrides this says what its `run` is then proved to keep to.
    open spec fn may_return(
        &self,
        arguments: Seq<Seq<char>>,
        registry: Seq<CommandView<Self>>,
        outcome: Result<(), CommandError>,
    ) -> bool {
        true
    }

    /// Carries the command out. The answer is one that `may_return` admits
    /// for what the handler was run on.
    fn run(&self, arguments: &[String], registry: &[Command<Self>]) -> (outcome: Result<
        (),
        CommandError,
    >)
        ensures
            self.may_return(arguments.deep_view(), registry.deep_view(), outcome),
    ;
}

impl<H: Handler> Command<H> {
    /// Runs the command's handler on `arguments` and `commands` and hands its
    /// answer back unchanged.
    pub fn invoke(&self, arguments: &[String], commands: &[Command<H>]) -> (outcome: Result<
        (),
        CommandError,
    >)
        ensures
            self@.handler.may_return(arguments.deep_view(), commands.deep_view(), outcome),
    {
        self.handler.run(arguments, commands)
    }
}

} // verus!
