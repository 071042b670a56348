use quark::{Command, CommandError, Quark};

struct TestCommand {
    name: String,
}

impl Command for TestCommand {
    fn name(&self) -> &str {
        &self.name
    }

    fn syntax(&self) -> &str {
        "test <arg>"
    }

    fn short(&self) -> &str {
        "Test command"
    }

    fn docs(&self) -> &str {
        "This is a test command"
    }

    fn execute(&self, args: Vec<String>) -> quark::Result<()> {
        if args.len() != 1 {
            return Err(CommandError::ArgumentCountMismatch {
                expected: 1,
                got: args.len(),
            });
        }
        Ok(())
    }
}

struct Documented {
    name: &'static str,
    docs: &'static str,
}

impl Command for Documented {
    fn name(&self) -> &str {
        self.name
    }

    fn syntax(&self) -> &str {
        self.name
    }

    fn short(&self) -> &str {
        "documented"
    }

    fn docs(&self) -> &str {
        self.docs
    }

    fn execute(&self, args: Vec<String>) -> quark::Result<()> {
        Err(CommandError::ExecutionError(args.join("|")))
    }
}

struct AsyncCommand;

impl Command for AsyncCommand {
    fn name(&self) -> &str {
        "async_cmd"
    }

    fn syntax(&self) -> &str {
        "async_cmd"
    }

    fn short(&self) -> &str {
        "Async command"
    }

    fn docs(&self) -> &str {
        "An async command"
    }

    fn is_async(&self) -> bool {
        true
    }

    fn execute(&self, _args: Vec<String>) -> quark::Result<()> {
        Err(CommandError::RequiresAsyncRuntime)
    }
}

#[test]
fn test_new_registry() {
    let registry = Quark::new();
    assert_eq!(registry.len(), 0);
    assert!(registry.is_empty());
}

#[test]
fn test_register_command() {
    let mut registry = Quark::new();
    registry.register_command(TestCommand {
        name: "test".to_string(),
    });
    assert_eq!(registry.len(), 1);
    assert!(!registry.is_empty());
}

#[test]
fn test_run_command() {
    let mut registry = Quark::new();
    registry.register_command(TestCommand {
        name: "test".to_string(),
    });

    assert!(registry.run("test arg1").is_ok());
    assert!(registry.run("test").is_err()); // Wrong arg count
    assert!(registry.run("nonexistent arg").is_err()); // Command not found
}

#[test]
fn test_list_commands() {
    let mut registry = Quark::new();
    registry.register_command(TestCommand {
        name: "cmd1".to_string(),
    });
    registry.register_command(TestCommand {
        name: "cmd2".to_string(),
    });

    let commands = registry.list();
    assert_eq!(commands.len(), 2);
}

#[test]
fn test_get_docs() {
    let mut registry = Quark::new();
    registry.register_command(TestCommand {
        name: "test".to_string(),
    });

    assert_eq!(registry.get_docs("test"), Some("This is a test command"));
    assert_eq!(registry.get_docs("nonexistent"), None);
}

#[test]
fn test_default() {
    let registry = Quark::default();
    assert!(registry.is_empty());
}

#[test]
fn registering_a_name_again_replaces_the_command() {
    let mut registry = Quark::new();
    registry.register_command(Documented { name: "help", docs: "first" });
    registry.register_command(Documented { name: "other", docs: "other docs" });
    registry.register_command(Documented { name: "help", docs: "second" });
    assert_eq!(registry.len(), 2);
    assert_eq!(registry.get_docs("help"), Some("second"));
    assert_eq!(registry.get_docs("other"), Some("other docs"));
}

#[test]
fn run_reports_each_failure() {
    let mut registry = Quark::new();
    registry.register_command(Documented { name: "echo", docs: "echo" });
    registry.register_command(AsyncCommand);

    match registry.run("   ") {
        Err(CommandError::ParseError(msg)) => assert_eq!(msg, "Empty command string"),
        other => panic!("unexpected {:?}", other),
    }
    match registry.run("missing a b") {
        Err(CommandError::NotFound(name)) => assert_eq!(name, "missing"),
        other => panic!("unexpected {:?}", other),
    }
    assert!(matches!(registry.run("async_cmd"), Err(CommandError::RequiresAsyncRuntime)));
    // The parsed arguments are handed to the command as they are.
    match registry.run("echo a 'b c' d") {
        Err(CommandError::ExecutionError(joined)) => assert_eq!(joined, "a|b c|d"),
        other => panic!("unexpected {:?}", other),
    }
}

#[test]
fn resolve_gives_name_and_arguments() {
    let mut registry = Quark::new();
    registry.register_command(Documented { name: "go", docs: "go" });
    let (name, args) = registry.resolve("go north \"far away\"").unwrap();
    assert_eq!(name, "go");
    assert_eq!(args, vec!["north", "far away"]);
    assert!(matches!(registry.resolve("stay"), Err(CommandError::NotFound(n)) if n == "stay"));
    assert!(matches!(registry.resolve("go 'open"), Err(CommandError::ParseError(_))));
}

#[test]
fn list_follows_first_registration_order() {
    let mut registry = Quark::new();
    registry.register_command(Documented { name: "b", docs: "1" });
    registry.register_command(Documented { name: "a", docs: "2" });
    registry.register_command(Documented { name: "b", docs: "3" });
    let listed: Vec<(&str, &str)> = registry
        .list()
        .iter()
        .map(|c| (c.registered_name(), c.docs()))
        .collect();
    assert_eq!(listed, vec![("b", "3"), ("a", "2")]);
}

#[test]
fn register_named_uses_the_given_name() {
    let mut registry = Quark::new();
    registry.register_named("alias".to_string(), Box::new(Documented { name: "real", docs: "d" }));
    assert_eq!(registry.get_docs("alias"), Some("d"));
    assert_eq!(registry.get_docs("real"), None);
    assert!(registry.run("alias x").is_err());
}

#[test]
fn count_is_the_number_of_distinct_names() {
    let mut registry = Quark::new();
    for name in ["a", "b", "a", "c", "b", "a"] {
        registry.register_command(Documented { name, docs: "d" });
    }
    assert_eq!(registry.len(), 3);
}

#[test]
fn list_keeps_the_last_command_under_each_name() {
    let mut registry = Quark::new();
    registry.register_command(Documented { name: "x", docs: "old" });
    registry.register_command(Documented { name: "y", docs: "why" });
    registry.register_command(Documented { name: "x", docs: "new" });
    let listed: Vec<(&str, &str, &str)> =
        registry.list().iter().map(|c| (c.registered_name(), c.name(), c.docs())).collect();
    assert_eq!(listed, vec![("x", "x", "new"), ("y", "y", "why")]);
}

#[test]
fn run_returns_the_command_result_unchanged() {
    let mut registry = Quark::new();
    registry.register_command(TestCommand {
        name: "test".to_string(),
    });
    assert!(matches!(registry.run("test arg1"), Ok(())));
    assert!(matches!(
        registry.run("test"),
        Err(CommandError::ArgumentCountMismatch { expected: 1, got: 0 })
    ));
    assert!(matches!(
        registry.run("test a b"),
        Err(CommandError::ArgumentCountMismatch { expected: 1, got: 2 })
    ));
}

#[test]
fn listed_entry_executes_as_the_registered_command() {
    let mut registry = Quark::new();
    registry.register_command(TestCommand {
        name: "test".to_string(),
    });
    let listed = registry.list();
    assert_eq!(listed.len(), 1);
    assert!(matches!(listed[0].execute(vec!["one".to_string()]), Ok(())));
    assert!(matches!(
        listed[0].execute(vec![]),
        Err(CommandError::ArgumentCountMismatch { expected: 1, got: 0 })
    ));
}
