use quark::parse_command_string;
use quark::CommandError;

#[test]
fn test_simple_command() {
    let (name, args) = parse_command_string("spawn goblin 5").unwrap();
    assert_eq!(name, "spawn");
    assert_eq!(args, vec!["goblin", "5"]);
}

#[test]
fn test_command_with_no_args() {
    let (name, args) = parse_command_string("help").unwrap();
    assert_eq!(name, "help");
    assert!(args.is_empty());
}

#[test]
fn test_command_with_double_quotes() {
    let (name, args) = parse_command_string("say \"hello world\"").unwrap();
    assert_eq!(name, "say");
    assert_eq!(args, vec!["hello world"]);
}

#[test]
fn test_command_with_single_quotes() {
    let (name, args) = parse_command_string("say 'hello world'").unwrap();
    assert_eq!(name, "say");
    assert_eq!(args, vec!["hello world"]);
}

#[test]
fn test_command_with_multiple_quoted_args() {
    let (name, args) = parse_command_string("cmd \"arg one\" \"arg two\" normal").unwrap();
    assert_eq!(name, "cmd");
    assert_eq!(args, vec!["arg one", "arg two", "normal"]);
}

#[test]
fn test_command_with_escape_sequences() {
    let (name, args) = parse_command_string(r#"say "hello\nworld""#).unwrap();
    assert_eq!(name, "say");
    assert_eq!(args, vec!["hello\nworld"]);
}

#[test]
fn test_empty_string() {
    let result = parse_command_string("");
    assert!(result.is_err());
}

#[test]
fn test_whitespace_only() {
    let result = parse_command_string("   ");
    assert!(result.is_err());
}

#[test]
fn test_unclosed_quote() {
    let result = parse_command_string("say \"hello");
    assert!(result.is_err());
    if let Err(CommandError::ParseError(msg)) = result {
        assert!(msg.contains("Unclosed quote"));
    } else {
        panic!("Expected ParseError");
    }
}

#[test]
fn test_extra_whitespace() {
    let (name, args) = parse_command_string("  spawn   goblin   5  ").unwrap();
    assert_eq!(name, "spawn");
    assert_eq!(args, vec!["goblin", "5"]);
}

#[test]
fn test_mixed_quotes() {
    let (name, args) = parse_command_string(r#"cmd "double" 'single' none"#).unwrap();
    assert_eq!(name, "cmd");
    assert_eq!(args, vec!["double", "single", "none"]);
}

#[test]
fn test_numeric_arguments() {
    let (name, args) = parse_command_string("teleport 10 20 30.5").unwrap();
    assert_eq!(name, "teleport");
    assert_eq!(args, vec!["10", "20", "30.5"]);
}

fn parse_error_message(input: &str) -> String {
    match parse_command_string(input) {
        Err(CommandError::ParseError(msg)) => msg,
        other => panic!("expected a parse error, got {:?}", other),
    }
}

#[test]
fn empty_input_message() {
    assert_eq!(parse_error_message(""), "Empty command string");
    assert_eq!(parse_error_message(" \t\n "), "Empty command string");
}

#[test]
fn only_empty_quotes_has_no_command_name() {
    assert_eq!(parse_error_message("\"\""), "No command name found");
    assert_eq!(parse_error_message("'' \"\""), "No command name found");
}

#[test]
fn unclosed_quote_names_the_quote() {
    assert_eq!(parse_error_message("say \"hello"), "Unclosed quote character: \"");
    assert_eq!(parse_error_message("say 'hello"), "Unclosed quote character: '");
    // A backslash at the very end inside quotes leaves the quote open.
    assert_eq!(parse_error_message("say \"abc\\"), "Unclosed quote character: \"");
}

#[test]
fn all_escape_sequences() {
    let (_, args) = parse_command_string(r#"x "a\tb\rc\\d\"e\'f\qg""#).unwrap();
    assert_eq!(args, vec!["a\tb\rc\\d\"e'f\\qg"]);
}

#[test]
fn backslash_outside_quotes_is_ordinary() {
    let (name, args) = parse_command_string(r"path C:\dir\n").unwrap();
    assert_eq!(name, "path");
    assert_eq!(args, vec![r"C:\dir\n"]);
}

#[test]
fn other_quote_inside_quotes_is_ordinary() {
    let (_, args) = parse_command_string(r#"say "it's" 'a "b"'"#).unwrap();
    assert_eq!(args, vec!["it's", "a \"b\""]);
}

#[test]
fn quotes_join_adjacent_text() {
    let (_, args) = parse_command_string(r#"x ab"c d"ef"#).unwrap();
    assert_eq!(args, vec!["abc def"]);
}

#[test]
fn empty_quotes_give_no_argument() {
    let (name, args) = parse_command_string("say \"\" x").unwrap();
    assert_eq!(name, "say");
    assert_eq!(args, vec!["x"]);
}

#[test]
fn unicode_whitespace_separates() {
    let (name, args) = parse_command_string("\u{3000}go\u{00A0}far\u{2003}away\u{85}").unwrap();
    assert_eq!(name, "go");
    assert_eq!(args, vec!["far", "away"]);
}

#[test]
fn command_line_round_trip() {
    // A plain name and arguments that are plain or written between double quotes.
    let line = "spawn goblin \"big orc\" \"it's\" 5";
    let (name, args) = parse_command_string(line).unwrap();
    assert_eq!(name, "spawn");
    assert_eq!(args, vec!["goblin", "big orc", "it's", "5"]);
}

#[test]
fn surrounding_whitespace_does_not_matter() {
    let inner = "say 'a b' c";
    let padded = " \t say 'a b' c \n";
    let a = parse_command_string(inner).unwrap();
    let b = parse_command_string(padded).unwrap();
    assert_eq!(a, b);
}

#[test]
fn line_without_quotes_splits_at_whitespace_runs() {
    for line in ["a b", "  x\t\ty  z ", "p\\q r\u{2003}s", "one", "a\u{3000}\u{85}b\nc"] {
        let (name, args) = parse_command_string(line).unwrap();
        let mut tokens = vec![name];
        tokens.extend(args);
        let expected: Vec<String> = line.split_whitespace().map(String::from).collect();
        assert_eq!(tokens, expected);
    }
}

#[test]
fn joining_lines_with_whitespace_joins_their_tokens() {
    let a = "say 'x y'";
    let b = "\"z w\" v";
    let (an, aa) = parse_command_string(a).unwrap();
    let (bn, ba) = parse_command_string(b).unwrap();
    let (jn, ja) = parse_command_string(&format!("{a} {b}")).unwrap();
    let mut expected = aa;
    expected.push(bn);
    expected.extend(ba);
    assert_eq!(jn, an);
    assert_eq!(ja, expected);
    // An open quote in the second part stays open in the joined line.
    match parse_command_string(&format!("{a}\t'open")) {
        Err(quark::CommandError::ParseError(msg)) => assert_eq!(msg, "Unclosed quote character: '"),
        other => panic!("unexpected {:?}", other),
    }
}
