use caboose::registry::{Command, CommandContext, CommandRegistry};

struct MockContext;
impl CommandContext for MockContext {}

struct TestCommand;
impl Command for TestCommand {
    fn name(&self) -> &str {
        "test"
    }
    fn aliases(&self) -> Vec<&str> {
        vec!["t"]
    }
    fn description(&self) -> &str {
        "Test command"
    }
    fn usage(&self) -> &str {
        "/test"
    }
    fn execute<X: CommandContext>(&self, _args: Vec<String>, _ctx: &mut X) -> Result<String, String> {
        Ok("executed".to_string())
    }
}

struct OneArg;
impl Command for OneArg {
    fn name(&self) -> &str {
        "search"
    }
    fn description(&self) -> &str {
        "Search logs"
    }
    fn usage(&self) -> &str {
        "/search <query>"
    }
    fn min_args(&self) -> usize {
        1
    }
    fn max_args(&self) -> Option<usize> {
        Some(1)
    }
    fn execute<X: CommandContext>(&self, args: Vec<String>, _ctx: &mut X) -> Result<String, String> {
        Ok(args[0].clone())
    }
}

#[test]
fn test_register_and_find() {
    let mut registry = CommandRegistry::new();
    registry.register(TestCommand);
    assert!(registry.find("test").is_some());
    assert!(registry.find("t").is_some());
    assert!(registry.find("unknown").is_none());
}

#[test]
fn test_execute_command() {
    let mut registry = CommandRegistry::new();
    registry.register(TestCommand);
    let mut ctx = MockContext;
    let result = registry.execute("test", vec![], &mut ctx);
    assert!(result.is_ok());
}

#[test]
fn test_unknown_command() {
    let registry: CommandRegistry<TestCommand> = CommandRegistry::new();
    let mut ctx = MockContext;
    let result = registry.execute("unknown", vec![], &mut ctx);
    assert!(result.is_err());
    assert_eq!(result.unwrap_err(), "Unknown command: 'unknown'. Type /help for available commands.");
}

#[test]
fn argument_counts_are_checked() {
    let mut registry = CommandRegistry::new();
    registry.register(OneArg);
    let mut ctx = MockContext;
    assert_eq!(registry.execute("search", vec!["x".to_string()], &mut ctx), Ok("x".to_string()));
    assert_eq!(
        registry.execute("search", vec![], &mut ctx).unwrap_err(),
        "Too few arguments. Expected at least 1, got 0.\nUsage: /search <query>"
    );
    assert_eq!(
        registry.execute("search", vec!["a".to_string(), "b".to_string()], &mut ctx).unwrap_err(),
        "Too many arguments. Expected at most 1, got 2.\nUsage: /search <query>"
    );
    assert_eq!(registry.primary_names(), vec!["search".to_string()]);
    assert_eq!(registry.all_names(), vec!["search".to_string()]);
    assert_eq!(registry.get_metadata()[0].usage, "/search <query>");
}

struct Named(&'static str, Vec<&'static str>);
impl Command for Named {
    fn name(&self) -> &str {
        self.0
    }
    fn aliases(&self) -> Vec<&str> {
        self.1.clone()
    }
    fn description(&self) -> &str {
        "named"
    }
    fn usage(&self) -> &str {
        "/named"
    }
    fn execute<X: CommandContext>(&self, _args: Vec<String>, _ctx: &mut X) -> Result<String, String> {
        Ok(self.0.to_string())
    }
}

#[test]
fn names_win_over_aliases_and_later_aliases_win() {
    let mut registry = CommandRegistry::new();
    registry.register(Named("view", vec!["v", "s"]));
    registry.register(Named("search", vec!["s"]));
    registry.register(Named("s", vec![]));
    let mut ctx = MockContext;
    assert_eq!(registry.find("v").unwrap().name(), "view");
    assert_eq!(registry.find("s").unwrap().name(), "s");
    assert_eq!(registry.execute("v", vec![], &mut ctx), Ok("view".to_string()));
    let mut second = CommandRegistry::new();
    second.register(Named("view", vec!["x"]));
    second.register(Named("search", vec!["x"]));
    assert_eq!(second.find("x").unwrap().name(), "search");
    assert_eq!(second.get_metadata()[1].aliases, vec!["x".to_string()]);
}
