use caboose::command::{AutocompleteEngine, CommandMetadata, CommandParser};
use caboose::history::CommandHistory;

fn create_test_engine() -> AutocompleteEngine {
    let commands = vec![
        CommandMetadata {
            name: "search".to_string(),
            aliases: vec!["s".to_string(), "find".to_string()],
            description: "Search logs".to_string(),
            usage: "/search <query>".to_string(),
            arg_hints: vec!["error".to_string(), "warn".to_string()],
        },
        CommandMetadata {
            name: "quit".to_string(),
            aliases: vec!["q".to_string(), "exit".to_string()],
            description: "Quit application".to_string(),
            usage: "/quit".to_string(),
            arg_hints: vec![],
        },
        CommandMetadata {
            name: "query_analysis".to_string(),
            aliases: vec![],
            description: "Show query analysis".to_string(),
            usage: "/query_analysis".to_string(),
            arg_hints: vec![],
        },
    ];
    AutocompleteEngine::new(commands)
}

#[test]
fn test_exact_prefix_match() {
    let engine = create_test_engine();
    let suggestions = engine.get_suggestions("sea", 5);
    assert!(!suggestions.is_empty());
    assert_eq!(suggestions[0].text, "search");
    assert!(suggestions[0].score > 800);
}

#[test]
fn test_alias_match() {
    let engine = create_test_engine();
    let suggestions = engine.get_suggestions("s", 5);
    assert!(!suggestions.is_empty());
}

#[test]
fn test_empty_input_returns_all() {
    let engine = create_test_engine();
    let suggestions = engine.get_suggestions("", 10);
    assert_eq!(suggestions.len(), 3);
}

#[test]
fn test_fuzzy_subsequence_match() {
    let engine = create_test_engine();
    let suggestions = engine.get_suggestions("qua", 5);
    assert!(!suggestions.is_empty());
    assert!(suggestions.iter().any(|s| s.text == "query_analysis"));
}

#[test]
fn test_no_match() {
    let engine = create_test_engine();
    let suggestions = engine.get_suggestions("xyz", 5);
    assert!(suggestions.is_empty());
}

#[test]
fn test_max_results() {
    let engine = create_test_engine();
    let suggestions = engine.get_suggestions("q", 1);
    assert_eq!(suggestions.len(), 1);
}

#[test]
fn test_arg_suggestions() {
    let engine = create_test_engine();
    let hints = engine.get_arg_suggestions("search");
    assert_eq!(hints, vec!["error", "warn"]);
}

#[test]
fn alias_suggestion_names_its_command() {
    let engine = create_test_engine();
    let suggestions = engine.get_suggestions("exit", 5);
    let alias = suggestions.iter().find(|s| s.text == "exit").unwrap();
    assert_eq!(alias.score, 1000);
    assert_eq!(alias.description, "Quit application (alias for quit)");
}

#[test]
fn suggestions_come_best_first() {
    let engine = create_test_engine();
    let suggestions = engine.get_suggestions("q", 5);
    assert_eq!(suggestions[0].text, "q");
    assert_eq!(suggestions[0].score, 1000);
    for w in suggestions.windows(2) {
        assert!(w[0].score >= w[1].score);
    }
}

#[test]
fn test_add_command() {
    let mut history = CommandHistory::new(5);
    history.add("/search error".to_string());
    history.add("/quit".to_string());
    assert_eq!(history.len(), 2);
}

#[test]
fn test_ignore_empty() {
    let mut history = CommandHistory::new(5);
    history.add("".to_string());
    history.add("   ".to_string());
    assert_eq!(history.len(), 0);
}

#[test]
fn test_ignore_duplicates() {
    let mut history = CommandHistory::new(5);
    history.add("/quit".to_string());
    history.add("/quit".to_string());
    assert_eq!(history.len(), 1);
}

#[test]
fn test_max_size() {
    let mut history = CommandHistory::new(3);
    history.add("/cmd1".to_string());
    history.add("/cmd2".to_string());
    history.add("/cmd3".to_string());
    history.add("/cmd4".to_string());
    assert_eq!(history.len(), 3);
    assert_eq!(history.entries(), vec!["/cmd4", "/cmd3", "/cmd2"]);
}

#[test]
fn test_navigate_prev() {
    let mut history = CommandHistory::new(5);
    history.add("/cmd1".to_string());
    history.add("/cmd2".to_string());
    history.add("/cmd3".to_string());
    let prev = history.prev("");
    assert_eq!(prev, Some("/cmd3".to_string()));
    let prev = history.prev("");
    assert_eq!(prev, Some("/cmd2".to_string()));
}

#[test]
fn test_navigate_next() {
    let mut history = CommandHistory::new(5);
    history.add("/cmd1".to_string());
    history.add("/cmd2".to_string());
    history.prev("");
    history.prev("");
    let next = history.next();
    assert_eq!(next, Some("/cmd2".to_string()));
}

#[test]
fn test_temp_buffer() {
    let mut history = CommandHistory::new(5);
    history.add("/cmd1".to_string());
    let current = "/sea";
    history.prev(current);
    let next = history.next();
    assert_eq!(next, Some("/sea".to_string()));
}

#[test]
fn test_reset_navigation() {
    let mut history = CommandHistory::new(5);
    history.add("/cmd1".to_string());
    history.prev("");
    assert!(history.is_navigating());
    history.reset_navigation();
    assert!(!history.is_navigating());
}

#[test]
fn test_clear() {
    let mut history = CommandHistory::new(5);
    history.add("/cmd1".to_string());
    history.add("/cmd2".to_string());
    history.clear();
    assert_eq!(history.len(), 0);
    assert!(history.is_empty());
}

#[test]
fn prev_stops_at_oldest_entry() {
    let mut history = CommandHistory::new(5);
    history.add("/only".to_string());
    assert_eq!(history.prev("typed"), Some("/only".to_string()));
    assert_eq!(history.prev("typed"), None);
    assert_eq!(history.position(), Some(0));
}

#[test]
fn test_parse_simple_command() {
    let cmd = CommandParser::parse("/quit");
    assert_eq!(cmd.name, "quit");
    assert_eq!(cmd.args, Vec::<String>::new());
}

#[test]
fn test_parse_command_with_args() {
    let cmd = CommandParser::parse("/search error logs");
    assert_eq!(cmd.name, "search");
    assert_eq!(cmd.args, vec!["error", "logs"]);
}

#[test]
fn test_parse_command_with_quoted_args() {
    let cmd = CommandParser::parse("/export \"my file.txt\"");
    assert_eq!(cmd.name, "export");
    assert_eq!(cmd.args, vec!["my file.txt"]);
}

#[test]
fn test_parse_command_with_single_quotes() {
    let cmd = CommandParser::parse("/filter 'process name'");
    assert_eq!(cmd.name, "filter");
    assert_eq!(cmd.args, vec!["process name"]);
}

#[test]
fn test_parse_empty_command() {
    let cmd = CommandParser::parse("/");
    assert_eq!(cmd.name, "");
    assert_eq!(cmd.args, Vec::<String>::new());
}

#[test]
fn test_parse_without_slash() {
    let cmd = CommandParser::parse("quit");
    assert_eq!(cmd.name, "quit");
}

#[test]
fn test_is_command() {
    assert!(CommandParser::is_command("/quit"));
    assert!(CommandParser::is_command("  /quit  "));
    assert!(!CommandParser::is_command("quit"));
    assert!(!CommandParser::is_command(""));
}

#[test]
fn test_extract_partial_command() {
    assert_eq!(CommandParser::extract_partial_command("/sea"), "sea");
    assert_eq!(CommandParser::extract_partial_command("/search logs"), "search");
    assert_eq!(CommandParser::extract_partial_command("/"), "");
}

#[test]
fn test_tokenize() {
    assert_eq!(CommandParser::tokenize("search error logs"), vec!["search", "error", "logs"]);
    assert_eq!(CommandParser::tokenize("export \"my file.txt\""), vec!["export", "my file.txt"]);
    assert_eq!(
        CommandParser::tokenize("filter 'process name' more"),
        vec!["filter", "process name", "more"]
    );
}

#[test]
fn parse_keeps_trimmed_raw_input() {
    let cmd = CommandParser::parse("  /view logs  ");
    assert_eq!(cmd.raw, "/view logs");
    assert_eq!(cmd.name, "view");
    assert_eq!(cmd.args, vec!["logs"]);
}
