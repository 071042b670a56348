use quark::{Command, CommandError};

struct TestCommand;

impl Command for TestCommand {
    fn name(&self) -> &str {
        "test"
    }

    fn syntax(&self) -> &str {
        "test <arg>"
    }

    fn short(&self) -> &str {
        "Test command"
    }

    fn docs(&self) -> &str {
        "This is a test command"
    }

    fn execute(&self, args: Vec<String>) -> quark::Result<()> {
        if args.len() != 1 {
            return Err(CommandError::ArgumentCountMismatch {
                expected: 1,
                got: args.len(),
            });
        }
        Ok(())
    }
}

struct AsyncOnly;

impl Command for AsyncOnly {
    fn name(&self) -> &str {
        "later"
    }

    fn syntax(&self) -> &str {
        "later"
    }

    fn short(&self) -> &str {
        "Runs asynchronously"
    }

    fn docs(&self) -> &str {
        "Only runs asynchronously"
    }

    fn is_async(&self) -> bool {
        true
    }

    fn execute(&self, _args: Vec<String>) -> quark::Result<()> {
        Err(CommandError::RequiresAsyncRuntime)
    }
}

#[test]
fn test_command_trait() {
    let cmd = TestCommand;
    assert_eq!(cmd.name(), "test");
    assert_eq!(cmd.syntax(), "test <arg>");
    assert_eq!(cmd.short(), "Test command");
    assert_eq!(cmd.docs(), "This is a test command");
    assert!(!cmd.is_async());
}

#[test]
fn test_command_execute() {
    let cmd = TestCommand;
    assert!(cmd.execute(vec!["arg1".to_string()]).is_ok());
    assert!(cmd.execute(vec![]).is_err());
    assert!(cmd.execute(vec!["arg1".to_string(), "arg2".to_string()]).is_err());
}

#[test]
fn test_command_is_send_sync() {
    fn assert_send_sync<T: Send + Sync>() {}
    assert_send_sync::<Box<dyn Command>>();
}

#[test]
fn async_only_command_refuses_synchronous_execution() {
    let cmd = AsyncOnly;
    assert!(cmd.is_async());
    assert!(matches!(cmd.execute(vec![]), Err(CommandError::RequiresAsyncRuntime)));
}
