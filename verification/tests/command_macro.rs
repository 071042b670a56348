use quark::command_macro::{
    capitalize_first, check_argument_count, command_struct_name, parse_attributes, plan_command,
    replace_first_char, AttributeArg, AttributeError, MacroError, Param, ParamError,
};
use quark::CommandError;

fn pair(key: &str, value: &str) -> AttributeArg {
    AttributeArg::NameValue { key: Some(key.to_string()), value: Some(value.to_string()) }
}

fn full_args() -> Vec<AttributeArg> {
    vec![
        pair("name", "spawn"),
        pair("syntax", "spawn <entity> <count>"),
        pair("short", "Spawn entities"),
        pair("docs", "Example: spawn goblin 5"),
    ]
}

#[test]
fn capitalize_first_examples() {
    assert_eq!(capitalize_first("spawn"), "Spawn");
    assert_eq!(capitalize_first(""), "");
    assert_eq!(capitalize_first("Already"), "Already");
    assert_eq!(capitalize_first("ßeta"), "SSeta");
    assert_eq!(capitalize_first("éclair"), "Éclair");
    assert_eq!(capitalize_first("_x"), "_x");
}

#[test]
fn replace_first_char_examples() {
    assert_eq!(replace_first_char("abc", "XY"), "XYbc");
    assert_eq!(replace_first_char("", "XY"), "");
    assert_eq!(replace_first_char("é", ""), "");
}

#[test]
fn struct_names() {
    assert_eq!(command_struct_name("spawn"), "SpawnCommand");
    assert_eq!(command_struct_name("teleport_to"), "Teleport_toCommand");
    assert_eq!(command_struct_name(""), "Command");
}

#[test]
fn argument_count_check() {
    assert!(check_argument_count(2, 2).is_ok());
    match check_argument_count(2, 3) {
        Err(CommandError::ArgumentCountMismatch { expected, got }) => {
            assert_eq!((expected, got), (2, 3));
        }
        other => panic!("unexpected {:?}", other),
    }
}

#[test]
fn attributes_in_any_order() {
    let mut args = full_args();
    args.reverse();
    let m = parse_attributes(&args).unwrap();
    assert_eq!(m.name(), "spawn");
    assert_eq!(m.syntax(), "spawn <entity> <count>");
    assert_eq!(m.short(), "Spawn entities");
    assert_eq!(m.docs(), "Example: spawn goblin 5");
}

#[test]
fn later_attribute_value_wins() {
    let mut args = full_args();
    args.push(pair("name", "summon"));
    let m = parse_attributes(&args).unwrap();
    assert_eq!(m.name(), "summon");
}

#[test]
fn attribute_errors() {
    let mut args = full_args();
    args.insert(1, AttributeArg::Other);
    let e = parse_attributes(&args).unwrap_err();
    assert!(matches!(e, AttributeError::ExpectedNameValue { index: 1 }));
    assert_eq!(e.message(), "Expected name-value pair");

    let mut args = full_args();
    args[2] = AttributeArg::NameValue { key: None, value: Some("x".to_string()) };
    let e = parse_attributes(&args).unwrap_err();
    assert!(matches!(e, AttributeError::ExpectedIdentifier { index: 2 }));
    assert_eq!(e.message(), "Expected identifier");

    let mut args = full_args();
    args[3] = AttributeArg::NameValue { key: Some("docs".to_string()), value: None };
    let e = parse_attributes(&args).unwrap_err();
    assert!(matches!(e, AttributeError::ExpectedStringLiteral { index: 3 }));
    assert_eq!(e.message(), "Expected string literal");

    let mut args = full_args();
    args.push(pair("color", "red"));
    let e = parse_attributes(&args).unwrap_err();
    assert!(matches!(e, AttributeError::UnknownAttribute { index: 4 }));
    assert_eq!(e.message(), "Unknown attribute");
}

#[test]
fn missing_attributes_in_order() {
    let e = parse_attributes(&vec![]).unwrap_err();
    assert!(matches!(e, AttributeError::MissingName));
    assert_eq!(e.message(), "Missing 'name' attribute");
    let e = parse_attributes(&vec![pair("name", "a")]).unwrap_err();
    assert!(matches!(e, AttributeError::MissingSyntax));
    assert_eq!(e.message(), "Missing 'syntax' attribute");
    let e = parse_attributes(&vec![pair("name", "a"), pair("syntax", "b")]).unwrap_err();
    assert!(matches!(e, AttributeError::MissingShort));
    assert_eq!(e.message(), "Missing 'short' attribute");
    let e = parse_attributes(&vec![pair("docs", "d"), pair("name", "a"), pair("short", "c")]).unwrap_err();
    assert!(matches!(e, AttributeError::MissingSyntax));
    let e = parse_attributes(&vec![pair("name", "a"), pair("syntax", "b"), pair("short", "c")]).unwrap_err();
    assert!(matches!(e, AttributeError::MissingDocs));
    assert_eq!(e.message(), "Missing 'docs' attribute");
}

fn named(name: &str, ty: &str) -> Param {
    Param::Named { name: name.to_string(), ty: ty.to_string() }
}

#[test]
fn plan_for_a_command_function() {
    let params = vec![named("entity", "String"), named("count", "usize")];
    let plan = plan_command(&full_args(), "spawn", false, &params).unwrap();
    assert_eq!(plan.struct_name, "SpawnCommand");
    assert_eq!(plan.param_names, vec!["entity", "count"]);
    assert_eq!(plan.param_types, vec!["String", "usize"]);
    assert!(!plan.is_async);
    assert_eq!(plan.metadata.name(), "spawn");
}

#[test]
fn plan_checks_attributes_before_parameters() {
    let params = vec![Param::Receiver];
    let r = plan_command(&vec![], "spawn", true, &params);
    assert!(matches!(r, Err(MacroError::Attribute(AttributeError::MissingName))));
}

#[test]
fn plan_reports_first_bad_parameter() {
    let params = vec![named("a", "u8"), Param::Pattern, Param::Receiver];
    match plan_command(&full_args(), "f", false, &params) {
        Err(MacroError::Parameter(e)) => {
            assert!(matches!(e, ParamError::ExpectedIdentifierPattern { index: 1 }));
            assert_eq!(e.message(), "Expected simple identifier pattern");
        }
        other => panic!("unexpected {:?}", other.err()),
    }
    match plan_command(&full_args(), "f", false, &vec![Param::Receiver]) {
        Err(MacroError::Parameter(e)) => {
            assert!(matches!(e, ParamError::ExpectedTypedParameter { index: 0 }));
            assert_eq!(e.message(), "Expected typed parameter");
        }
        other => panic!("unexpected {:?}", other.err()),
    }
}
