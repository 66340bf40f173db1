//! The shell: a registry of commands and the dispatch of one line to one of
//! them.

use crate::command::{Command, CommandView, Handler};
use crate::error::CommandError;
use crate::tokens::{
    lemma_blank_line_has_one_empty_token, lemma_tokens_are_pieces, tokenize, tokens, trim,
};
use vstd::prelude::*;

verus! {

/// The position of the last command named `name`, if any command has that
/// name. Where several commands share a name, the one registered last hides
/// the others.
pub open spec fn last_named<H>(commands: Seq<CommandView<H>>, name: Seq<char>) -> Option<int>
    decreases commands.len(),
{
    if commands.len() == 0 {
        None
    } else if commands.last().name == name {
        Some(commands.len() - 1)
    } else {
        last_named(commands.drop_last(), name)
    }
}

/// `last_named` finds a command of the name asked for, and the last such
/// one: it answers with a position in the registry whose command has the name
/// and after which no command has it, or with `None` where no command has it.
pub proof fn lemma_last_named_is_last<H>(commands: Seq<CommandView<H>>, name: Seq<char>)
    ensures
        match last_named(commands, name) {
            Some(position) => {
                &&& 0 <= position < commands.len()
                &&& commands[position].name == name
                &&& forall|later: int|
                    position < later < commands.len() ==> commands[later].name != name
            },
            None => forall|any: int| 0 <= any < commands.len() ==> commands[any].name != name,
        },
    decreases commands.len(),
{
    if commands.len() > 0 && commands.last().name != name {
        let earlier = commands.drop_last();
        lemma_last_named_is_last(earlier, name);
        match last_named(earlier, name) {
            Some(position) => {
                assert(commands[position] == earlier[position]);
                assert forall|later: int| position < later < commands.len() implies commands[later].name
                    != name by {
                    if later < earlier.len() {
                        assert(commands[later] == earlier[later]);
                    }
                }
            },
            None => {
                assert forall|any: int| 0 <= any < commands.len() implies commands[any].name
                    != name by {
                    if any < earlier.len() {
                        assert(commands[any] == earlier[any]);
                    }
                }
            },
        }
    }
}

/// What the tokens of a line ask for: the last token names the command, the
/// tokens before it are its arguments.
///
/// The answer is the position of the command to run together with its
/// arguments, `Empty` where there is no token at all, and `NotFound` where no
/// command has the name asked for.
pub open spec fn resolution<H>(commands: Seq<CommandView<H>>, tokens: Seq<Seq<char>>) -> Result<
    (int, Seq<Seq<char>>),
    CommandError,
> {
    if tokens.len() == 0 {
        Err(CommandError::Empty)
    } else {
        match last_named(commands, tokens.last()) {
            Some(position) => Ok((position, tokens.drop_last())),
            None => Err(CommandError::NotFound),
        }
    }
}

/// The fixed prompt of a shell that was given none.
pub open spec fn default_prompt() -> Seq<char> {
    "cmdshell> "@
}

/// A shell as contracts see it.
pub ghost struct ShellView<H> {
    /// The prompt the shell was given, if it was given one.
    pub prefix: Option<Seq<char>>,
    /// The registry, in the order of registration.
    pub commands: Seq<CommandView<H>>,
}

impl<H: Handler> ShellView<H> {
    /// The text to show before a line is read.
    pub open spec fn prompt(self) -> Seq<char> {
        match self.prefix {
            Some(text) => text,
            None => default_prompt(),
        }
    }

    /// Whether the outcome of processing `line` is determined: whether `line`
    /// resolves to no command, or to one whose handler can give one answer
    /// only on what it is run on.
    pub open spec fn is_determined(self, line: Seq<char>) -> bool {
        forall|one: Result<(), CommandError>, other: Result<(), CommandError>|
            self.may_return(line, one) && self.may_return(line, other) ==> one == other
    }

    /// Whether processing `line` may end with `outcome`.
    ///
    /// A line that resolves to no command ends with the error of the
    /// resolution. Any other line ends with an answer that the handler of the
    /// resolved command may give on the line's arguments and the whole
    /// registry.
    pub open spec fn may_return(self, line: Seq<char>, outcome: Result<(), CommandError>) -> bool {
        match resolution(self.commands, tokens(line)) {
            Ok((position, arguments)) => self.commands[position].handler.may_return(
                arguments,
                self.commands,
                outcome,
            ),
            Err(error) => outcome == Err::<(), CommandError>(error),
        }
    }
}

/// Among commands of one name the last registered one is chosen: a command
/// of the name asked for, with no command of that name after it, is the one
/// that `last_named` finds.
pub proof fn lemma_last_registration_wins<H>(
    commands: Seq<CommandView<H>>,
    name: Seq<char>,
    position: int,
)
    requires
        0 <= position < commands.len(),
        commands[position].name == name,
        forall|later: int| position < later < commands.len() ==> commands[later].name != name,
    ensures
        last_named(commands, name) == Some(position),
{
    lemma_last_named_is_last(commands, name);
}

/// Resolution fails with `Empty` exactly where there is no token at all.
pub proof fn lemma_empty_means_no_token<H>(commands: Seq<CommandView<H>>, tokens: Seq<Seq<char>>)
    ensures
        resolution(commands, tokens) == Err::<(int, Seq<Seq<char>>), CommandError>(
            CommandError::Empty,
        ) <==> tokens.len() == 0,
{
}

/// A line always has a last token, so its resolution never fails with
/// `Empty`: it finds a command or fails with `NotFound`.
pub proof fn lemma_line_names_a_command<H>(commands: Seq<CommandView<H>>, line: Seq<char>)
    ensures
        resolution(commands, tokens(line)) != Err::<(int, Seq<Seq<char>>), CommandError>(
            CommandError::Empty,
        ),
{
    lemma_tokens_are_pieces(line);
}

/// A line of white space alone, the empty line included, asks for the
/// command whose name is empty, with no arguments. Where no command has the
/// empty name, it is not found.
pub proof fn lemma_blank_line_asks_for_empty_name<H>(
    commands: Seq<CommandView<H>>,
    line: Seq<char>,
)
    requires
        trim(line).len() == 0,
    ensures
        resolution(commands, tokens(line)) == match last_named(commands, Seq::<char>::empty()) {
            Some(position) => Ok::<(int, Seq<Seq<char>>), CommandError>(
                (position, Seq::<Seq<char>>::empty()),
            ),
            None => Err::<(int, Seq<Seq<char>>), CommandError>(CommandError::NotFound),
        },
{
    lemma_blank_line_has_one_empty_token(line);
    assert(tokens(line).last() == Seq::<char>::empty());
    assert(tokens(line).drop_last() =~= Seq::<Seq<char>>::empty());
}

/// A line whose last token is the name of no command ends with `NotFound`,
/// whatever the tokens before it are.
pub proof fn lemma_unknown_name_is_not_found<H: Handler>(
    shell: ShellView<H>,
    line: Seq<char>,
    outcome: Result<(), CommandError>,
)
    requires
        forall|any: int|
            0 <= any < shell.commands.len() ==> shell.commands[any].name != tokens(line).last(),
        shell.may_return(line, outcome),
    ensures
        outcome == Err::<(), CommandError>(CommandError::NotFound),
{
    lemma_tokens_are_pieces(line);
    lemma_last_named_is_last(shell.commands, tokens(line).last());
}

/// The answer of the handler is returned as it is. Where a line resolves to
/// a command whose handler, on the line's arguments and the whole registry,
/// can give no answer but `expected`, processing the line ends with
/// `expected`: a reported failure stays `ExecutionError`, success stays
/// success.
pub proof fn lemma_handler_answer_is_returned<H: Handler>(
    shell: ShellView<H>,
    line: Seq<char>,
    position: int,
    arguments: Seq<Seq<char>>,
    expected: Result<(), CommandError>,
    outcome: Result<(), CommandError>,
)
    requires
        resolution(shell.commands, tokens(line)) == Ok::<(int, Seq<Seq<char>>), CommandError>(
            (position, arguments),
        ),
        forall|answer: Result<(), CommandError>|
            shell.commands[position].handler.may_return(arguments, shell.commands, answer)
                ==> answer == expected,
        shell.may_return(line, outcome),
    ensures
        outcome == expected,
{
}

/// Two shells made from the same prefix and the same commands behave alike:
/// they show the same prompt, and fed the same lines they end with the same
/// outcomes, line by line, as far as the handlers' answers are determined by
/// what they are run on.
pub proof fn lemma_equal_shells_agree<H: Handler>(
    first: ShellView<H>,
    second: ShellView<H>,
    lines: Seq<Seq<char>>,
    first_outcomes: Seq<Result<(), CommandError>>,
    second_outcomes: Seq<Result<(), CommandError>>,
)
    requires
        first.prefix == second.prefix,
        first.commands == second.commands,
        first_outcomes.len() == lines.len(),
        second_outcomes.len() == lines.len(),
        forall|i: int| 0 <= i < lines.len() ==> first.is_determined(#[trigger] lines[i]),
        forall|i: int|
            0 <= i < lines.len() ==> first.may_return(lines[i], #[trigger] first_outcomes[i]),
        forall|i: int|
            0 <= i < lines.len() ==> second.may_return(lines[i], #[trigger] second_outcomes[i]),
    ensures
        first.prompt() == second.prompt(),
        first_outcomes == second_outcomes,
{
    assert forall|i: int| 0 <= i < lines.len() implies first_outcomes[i] == second_outcomes[i] by {
        assert(first.is_determined(lines[i]));
        assert(first.may_return(lines[i], first_outcomes[i]));
        assert(second.may_return(lines[i], second_outcomes[i]));
    }
    assert(first_outcomes =~= second_outcomes);
}

/// A registry of commands together with the prompt to show for them.
///
/// The registry is fixed when the shell is made and keeps the order in which
/// the commands were given.
pub struct Shell<H> {
    prefix: Option<String>,
    available_commands: Vec<Command<H>>,
}

impl<H> View for Shell<H> {
    type V = ShellView<H>;

    closed spec fn view(&self) -> ShellView<H> {
        ShellView {
            prefix: match self.prefix {
                Some(text) => Some(text@),
                None => None,
            },
            commands: self.available_commands.deep_view(),
        }
    }
}

impl<H: Handler> Shell<H> {
    /// Makes a shell that shows `prefix` as its prompt, or the default prompt
    /// where `prefix` is `None`, and that knows `available_commands` in the
    /// order given. Names are taken as they are: they may repeat and may be
    /// empty.
    pub fn new(prefix: Option<&str>, available_commands: Vec<Command<H>>) -> (shell: Self)
        ensures
            shell@.prefix == match prefix {
                Some(text) => Some(text@),
                None => None,
            },
            shell@.commands == available_commands.deep_view(),
    {
        let prefix = match prefix {
            Some(text) => Some(text.to_string()),
            None => None,
        };
        Shell { prefix, available_commands }
    }

    /// The text to show before a line is read: the prefix the shell was made
    /// with, with nothing added, or the default prompt.
    pub fn prompt(&self) -> (text: &str)
        ensures
            text@ == self@.prompt(),
    {
        match &self.prefix {
            Some(text) => text.as_str(),
            None => "cmdshell> ",
        }
    }

    /// Finds the last command whose name is `name`.
    fn position_of(&self, name: &String) -> (found: Option<usize>)
        ensures
            last_named(self@.commands, name@) == match found {
                Some(position) => Some(position as int),
                None => None,
            },
    {
        let mut remaining: usize = self.available_commands.len();
        assert(self@.commands.take(remaining as int) =~= self@.commands);
        while remaining > 0
            invariant
                remaining <= self.available_commands.len(),
                last_named(self@.commands, name@) == last_named(
                    self@.commands.take(remaining as int),
                    name@,
                ),
            decreases remaining,
        {
            let ghost considered = self@.commands.take(remaining as int);
            remaining -= 1;
            proof {
                assert(considered.last() == self.available_commands@[remaining as int]@);
                assert(considered.drop_last() =~= self@.commands.take(remaining as int));
            }
            if self.available_commands[remaining].name == *name {
                return Some(remaining);
            }
        }
        None
    }

    /// Decides what `tokens` ask for, without running anything: the position
    /// in the registry of the command to run and the arguments to run it on.
    pub fn resolve(&self, tokens: Vec<String>) -> (found: Result<(usize, Vec<String>), CommandError>)
        ensures
            resolution(self@.commands, tokens.deep_view()) == match found {
                Ok((position, arguments)) => Ok((position as int, arguments.deep_view())),
                Err(error) => Err(error),
            },
    {
        let mut arguments = tokens;
        match arguments.pop() {
            Some(requested) => {
                assert(tokens.deep_view().last() == requested@);
                assert(tokens.deep_view().drop_last() =~= arguments.deep_view());
                match self.position_of(&requested) {
                    Some(position) => Ok((position, arguments)),
                    None => Err(CommandError::NotFound),
                }
            },
            None => Err(CommandError::Empty),
        }
    }

    /// Carries out one line of input.
    ///
    /// The line is split into tokens, the last token is taken as the name of
    /// the command, and the handler of the last registered command of that
    /// name is run on the tokens before it and on the whole registry. The
    /// handler's answer is returned as it is.
    pub fn process(&self, line: &str) -> (outcome: Result<(), CommandError>)
        ensures
            self@.may_return(line@, outcome),
    {
        match self.resolve(tokenize(line)) {
            Ok((position, arguments)) => {
                proof {
                    lemma_last_named_is_last(self@.commands, tokens(line@).last());
                }
                self.available_commands[position].invoke(
                    arguments.as_slice(),
                    self.available_commands.as_slice(),
                )
            },
            Err(error) => Err(error),
        }
    }
}

} // verus!
