use cmdshell::{tokenize, Command, CommandError, Handler, Shell};
use std::cell::RefCell;
use std::rc::Rc;

/// What a handler was run on.
#[derive(Debug, Clone, PartialEq, Eq)]
struct Call {
    tag: &'static str,
    arguments: Vec<String>,
    registry: Vec<(String, String)>,
}

/// A handler that writes down what it is run on and gives a fixed answer.
struct Probe {
    tag: &'static str,
    answer: Result<(), CommandError>,
    log: Rc<RefCell<Vec<Call>>>,
}

impl Handler for Probe {
    fn run(&self, arguments: &[String], registry: &[Command<Probe>]) -> Result<(), CommandError> {
        self.log.borrow_mut().push(Call {
            tag: self.tag,
            arguments: arguments.to_vec(),
            registry: registry.iter().map(|c| (c.name.clone(), c.description.clone())).collect(),
        });
        self.answer
    }
}

fn command(
    name: &str,
    tag: &'static str,
    answer: Result<(), CommandError>,
    log: &Rc<RefCell<Vec<Call>>>,
) -> Command<Probe> {
    Command {
        name: name.to_string(),
        description: format!("about {}", tag),
        handler: Probe { tag, answer, log: Rc::clone(log) },
    }
}

fn strings(items: &[&str]) -> Vec<String> {
    items.iter().map(|s| s.to_string()).collect()
}

fn new_log() -> Rc<RefCell<Vec<Call>>> {
    Rc::new(RefCell::new(Vec::new()))
}

#[test]
fn the_last_token_names_the_command() {
    let log = new_log();
    let shell = Shell::new(None, vec![command("echo", "echo", Ok(()), &log)]);
    assert_eq!(shell.resolve(tokenize("echo a b")), Err(CommandError::NotFound));
    assert_eq!(shell.process("echo a b"), Err(CommandError::NotFound));
    assert!(log.borrow().is_empty());

    let shell = Shell::new(
        None,
        vec![command("echo", "echo", Ok(()), &log), command("b", "b", Ok(()), &log)],
    );
    assert_eq!(shell.resolve(tokenize("echo a b")), Ok((1, strings(&["echo", "a"]))));
    assert_eq!(shell.process("echo a b"), Ok(()));
    assert_eq!(log.borrow().len(), 1);
    assert_eq!(log.borrow()[0].tag, "b");
    assert_eq!(log.borrow()[0].arguments, strings(&["echo", "a"]));
}

#[test]
fn arguments_come_before_the_name() {
    let log = new_log();
    let shell = Shell::new(None, vec![command("echo", "echo", Ok(()), &log)]);
    assert_eq!(shell.process("a b echo\n"), Ok(()));
    assert_eq!(shell.process("echo"), Ok(()));
    assert_eq!(shell.process("a  echo"), Ok(()));
    let log = log.borrow();
    assert_eq!(log.len(), 3);
    assert_eq!(log[0].arguments, strings(&["a", "b"]));
    assert_eq!(log[1].arguments, strings(&[]));
    assert_eq!(log[2].arguments, strings(&["a", ""]));
}

#[test]
fn unknown_command_is_not_found() {
    let log = new_log();
    let shell = Shell::new(
        None,
        vec![command("help", "help", Ok(()), &log), command("version", "version", Ok(()), &log)],
    );
    assert_eq!(shell.process("nosuch"), Err(CommandError::NotFound));
    assert_eq!(shell.process("help nosuch"), Err(CommandError::NotFound));
    assert_eq!(shell.process("Help"), Err(CommandError::NotFound));
    assert_eq!(shell.process("hel"), Err(CommandError::NotFound));
    assert_eq!(shell.process("help\tversion"), Err(CommandError::NotFound));
    assert!(log.borrow().is_empty());

    let bare: Shell<Probe> = Shell::new(None, Vec::new());
    assert_eq!(bare.process("help"), Err(CommandError::NotFound));
}

#[test]
fn the_first_token_does_not_decide() {
    let log = new_log();
    let shell = Shell::new(None, vec![command("echo", "echo", Ok(()), &log)]);
    assert_eq!(shell.process("nosuch echo"), Ok(()));
    assert_eq!(log.borrow()[0].arguments, strings(&["nosuch"]));
}

#[test]
fn later_registration_shadows_earlier() {
    let log = new_log();
    let shell = Shell::new(
        None,
        vec![
            command("dup", "first", Ok(()), &log),
            command("other", "other", Ok(()), &log),
            command("dup", "second", Err(CommandError::ExecutionError), &log),
            command("last", "last", Ok(()), &log),
        ],
    );
    assert_eq!(shell.resolve(strings(&["dup"])), Ok((2, strings(&[]))));
    assert_eq!(shell.process("dup"), Err(CommandError::ExecutionError));
    assert_eq!(log.borrow().len(), 1);
    assert_eq!(log.borrow()[0].tag, "second");
    assert_eq!(shell.resolve(strings(&["x", "other"])), Ok((1, strings(&["x"]))));
    assert_eq!(shell.resolve(strings(&["last"])), Ok((3, strings(&[]))));
}

#[test]
fn handler_failure_is_passed_on() {
    let log = new_log();
    let shell = Shell::new(
        None,
        vec![
            command("fail", "fail", Err(CommandError::ExecutionError), &log),
            command("lost", "lost", Err(CommandError::NotFound), &log),
            command("void", "void", Err(CommandError::Empty), &log),
            command("fine", "fine", Ok(()), &log),
        ],
    );
    assert_eq!(shell.process("fail"), Err(CommandError::ExecutionError));
    assert_eq!(shell.process("lost"), Err(CommandError::NotFound));
    assert_eq!(shell.process("void"), Err(CommandError::Empty));
    assert_eq!(shell.process("fine"), Ok(()));
    assert_eq!(log.borrow().len(), 4);
}

#[test]
fn handler_sees_the_whole_registry() {
    let log = new_log();
    let shell = Shell::new(
        None,
        vec![
            command("help", "help", Ok(()), &log),
            command("version", "version", Ok(()), &log),
            command("help", "again", Ok(()), &log),
        ],
    );
    let whole = vec![
        ("help".to_string(), "about help".to_string()),
        ("version".to_string(), "about version".to_string()),
        ("help".to_string(), "about again".to_string()),
    ];
    assert_eq!(shell.process("version"), Ok(()));
    assert_eq!(shell.process("x help"), Ok(()));
    let log = log.borrow();
    assert_eq!(log[0].tag, "version");
    assert_eq!(log[0].registry, whole);
    assert_eq!(log[1].tag, "again");
    assert_eq!(log[1].registry, whole);
}

#[test]
fn no_token_is_empty() {
    let log = new_log();
    let shell = Shell::new(None, vec![command("help", "help", Ok(()), &log)]);
    assert_eq!(shell.resolve(Vec::new()), Err(CommandError::Empty));
}

#[test]
fn blank_line_asks_for_the_empty_name() {
    let log = new_log();
    let shell = Shell::new(None, vec![command("help", "help", Ok(()), &log)]);
    assert_eq!(shell.process(""), Err(CommandError::NotFound));
    assert_eq!(shell.process("\n"), Err(CommandError::NotFound));
    assert_eq!(shell.process("   \t "), Err(CommandError::NotFound));
    assert!(log.borrow().is_empty());

    let shell = Shell::new(
        None,
        vec![command("help", "help", Ok(()), &log), command("", "nameless", Ok(()), &log)],
    );
    assert_eq!(shell.resolve(tokenize(" \n")), Ok((1, strings(&[]))));
    assert_eq!(shell.process(" \n"), Ok(()));
    assert_eq!(log.borrow()[0].tag, "nameless");
    assert_eq!(log.borrow()[0].arguments, strings(&[]));
}

#[test]
fn equal_shells_give_equal_results() {
    let lines = ["help", "nosuch", "", "a b fail", "fail help", "  version  "];
    let mut results = Vec::new();
    let mut logs = Vec::new();
    for _ in 0..2 {
        let log = new_log();
        let shell = Shell::new(
            Some("> "),
            vec![
                command("help", "help", Ok(()), &log),
                command("fail", "fail", Err(CommandError::ExecutionError), &log),
            ],
        );
        results.push(lines.iter().map(|l| shell.process(l)).collect::<Vec<_>>());
        logs.push(log.borrow().clone());
    }
    assert_eq!(results[0], results[1]);
    assert_eq!(logs[0], logs[1]);
    assert_eq!(
        results[0],
        vec![
            Ok(()),
            Err(CommandError::NotFound),
            Err(CommandError::NotFound),
            Err(CommandError::ExecutionError),
            Ok(()),
            Err(CommandError::NotFound),
        ]
    );
}

#[test]
fn processing_keeps_no_state() {
    let log = new_log();
    let shell = Shell::new(None, vec![command("help", "help", Ok(()), &log)]);
    assert_eq!(shell.process("nosuch"), Err(CommandError::NotFound));
    assert_eq!(shell.process("help"), Ok(()));
    assert_eq!(shell.process("nosuch"), Err(CommandError::NotFound));
    assert_eq!(shell.process("help"), Ok(()));
    assert_eq!(log.borrow().len(), 2);
    assert_eq!(log.borrow()[0], log.borrow()[1]);
}

#[test]
fn invoke_runs_the_handler_on_what_it_is_given() {
    let log = new_log();
    let one = command("one", "one", Err(CommandError::ExecutionError), &log);
    let others = vec![command("two", "two", Ok(()), &log)];
    assert_eq!(one.invoke(&strings(&["x", "y"]), &others), Err(CommandError::ExecutionError));
    let log = log.borrow();
    assert_eq!(log.len(), 1);
    assert_eq!(log[0].tag, "one");
    assert_eq!(log[0].arguments, strings(&["x", "y"]));
    assert_eq!(log[0].registry, vec![("two".to_string(), "about two".to_string())]);
}

#[test]
fn prompt_is_the_prefix_or_the_default() {
    let plain: Shell<Probe> = Shell::new(None, Vec::new());
    assert_eq!(plain.prompt(), "cmdshell> ");
    let custom: Shell<Probe> = Shell::new(Some("$"), Vec::new());
    assert_eq!(custom.prompt(), "$");
    let empty: Shell<Probe> = Shell::new(Some(""), Vec::new());
    assert_eq!(empty.prompt(), "");
}

#[test]
fn errors_render_as_sentences() {
    assert_eq!(CommandError::Empty.to_string(), "No command given");
    assert_eq!(CommandError::NotFound.to_string(), "Command not found");
    assert_eq!(CommandError::ExecutionError.to_string(), "Error while executing command");
}
