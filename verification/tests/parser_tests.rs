use rpbox_core::{parse_variable_from_str, LuaParseError, Value};

fn get<'a>(v: &'a Value, key: &str) -> &'a Value {
    v.get(key).expect("key missing")
}

fn str_of(v: &Value) -> &str {
    v.as_str().expect("not a string").as_str()
}

#[test]
fn test_parse_simple_table() {
    let lua = r#"
        TestVar = {
            ["key1"] = "value1",
            ["key2"] = 123,
        }
    "#;
    let result = parse_variable_from_str(lua, "TestVar").unwrap();
    assert_eq!(str_of(get(&result, "key1")), "value1");
    // 123 is parsed as a 64-bit float, whose canonical rendering is 123.0
    match get(&result, "key2") {
        Value::Num(t) => assert_eq!(t.as_str(), "123.0"),
        _ => panic!("key2 is not a number"),
    }
}

#[test]
fn test_parse_nested_table() {
    let lua = r#"
        TestVar = {
            ["outer"] = {
                ["inner"] = "nested",
            },
        }
    "#;
    let result = parse_variable_from_str(lua, "TestVar").unwrap();
    assert_eq!(str_of(get(get(&result, "outer"), "inner")), "nested");
}

#[test]
fn test_parse_chinese_content() {
    let lua = r#"
        TRP3_Profiles = {
            ["test"] = {
                ["profileName"] = "芙拉莉雅",
            },
        }
    "#;
    let result = parse_variable_from_str(lua, "TRP3_Profiles").unwrap();
    assert_eq!(str_of(get(get(&result, "test"), "profileName")), "芙拉莉雅");
}

#[test]
fn test_parse_escape_sequences() {
    let lua = r#"
        TestVar = {
            ["text"] = "line1\nline2\ttab",
        }
    "#;
    let result = parse_variable_from_str(lua, "TestVar").unwrap();
    assert_eq!(str_of(get(&result, "text")), "line1\nline2\ttab");
}

#[test]
fn test_parse_boolean_and_nil() {
    let lua = r#"
        TestVar = {
            ["active"] = true,
            ["disabled"] = false,
            ["empty"] = nil,
        }
    "#;
    let result = parse_variable_from_str(lua, "TestVar").unwrap();
    assert!(matches!(get(&result, "active"), Value::Bool(true)));
    assert!(matches!(get(&result, "disabled"), Value::Bool(false)));
    assert!(matches!(get(&result, "empty"), Value::Null));
}

#[test]
fn test_parse_array() {
    let lua = r#"
        TestVar = { "a", "b", "c" }
    "#;
    let result = parse_variable_from_str(lua, "TestVar").unwrap();
    match &result {
        Value::Arr(items) => {
            assert_eq!(items.len(), 3);
            assert_eq!(str_of(&items[0]), "a");
            assert_eq!(str_of(&items[1]), "b");
            assert_eq!(str_of(&items[2]), "c");
        }
        _ => panic!("not an array"),
    }
}

#[test]
fn test_parse_with_comments() {
    let lua = r#"
        -- This is a comment
        TestVar = {
            ["key"] = "value", -- inline comment
        }
    "#;
    let result = parse_variable_from_str(lua, "TestVar").unwrap();
    assert_eq!(str_of(get(&result, "key")), "value");
}

#[test]
fn test_variable_not_found() {
    let lua = r#"OtherVar = {}"#;
    let result = parse_variable_from_str(lua, "TestVar");
    assert!(result.is_err());
}

// --- scenarios -------------------------------------------------------------

#[test]
fn scenario_keyed_table_is_object() {
    let result = parse_variable_from_str(r#"Foo = { ["a"] = 1, ["b"] = "x" }"#, "Foo").unwrap();
    match &result {
        Value::Obj(entries) => {
            assert_eq!(entries.len(), 2);
            assert_eq!(entries[0].0, "a");
            assert!(matches!(&entries[0].1, Value::Num(t) if t == "1.0"));
            assert_eq!(entries[1].0, "b");
            assert_eq!(str_of(&entries[1].1), "x");
        }
        _ => panic!("not an object"),
    }
}

#[test]
fn scenario_positional_table_is_array() {
    let result = parse_variable_from_str(r#"Foo = {"x", "y"}"#, "Foo").unwrap();
    match &result {
        Value::Arr(items) => {
            assert_eq!(items.len(), 2);
            assert_eq!(str_of(&items[0]), "x");
            assert_eq!(str_of(&items[1]), "y");
        }
        _ => panic!("not an array"),
    }
}

#[test]
fn scenario_missing_variable_is_not_a_syntax_error() {
    let result = parse_variable_from_str("Foo = { 1, 2 }\nBar = nil\n", "Baz");
    match result {
        Err(LuaParseError::VariableNotFound(name)) => assert_eq!(name, "Baz"),
        other => panic!("expected a variable-not-found error, got {:?}", other.is_ok()),
    }
}

#[test]
fn tie_break_positional_overwrites_explicit_key() {
    // the explicit key "1" is inserted first, then the positional entry
    // lands on the same stringified index and wins
    let result = parse_variable_from_str(r#"Foo = { ["1"] = "explicit", "implicit" }"#, "Foo")
        .unwrap();
    match &result {
        Value::Obj(entries) => {
            assert_eq!(entries.len(), 1);
            assert_eq!(entries[0].0, "1");
            assert_eq!(str_of(&entries[0].1), "implicit");
        }
        _ => panic!("not an object"),
    }
}

#[test]
fn empty_table_is_empty_object() {
    let result = parse_variable_from_str("Foo = {}", "Foo").unwrap();
    match &result {
        Value::Obj(entries) => assert_eq!(entries.len(), 0),
        _ => panic!("not an object"),
    }
}

#[test]
fn long_comment_skips_to_matching_closer() {
    // the single-equals closer inside must not end the double-equals comment
    let lua = "--[==[ junk ]=] more junk ]==] TestVar = { 1 }\n";
    let result = parse_variable_from_str(lua, "TestVar").unwrap();
    assert!(matches!(&result, Value::Arr(items) if items.len() == 1));
}

#[test]
fn bare_identifiers_in_tables() {
    let result = parse_variable_from_str("Foo = { bare, true, nil }", "Foo").unwrap();
    match &result {
        Value::Arr(items) => {
            assert_eq!(items.len(), 3);
            assert_eq!(str_of(&items[0]), "bare");
            assert!(matches!(&items[1], Value::Bool(true)));
            assert!(matches!(&items[2], Value::Null));
        }
        _ => panic!("not an array"),
    }
}

#[test]
fn syntax_errors_carry_the_line() {
    let result = parse_variable_from_str("Foo = {\n  \"unterminated\n", "Foo");
    match result {
        Err(LuaParseError::SyntaxError { line, .. }) => assert_eq!(line, 2),
        _ => panic!("expected a syntax error"),
    }
}

#[test]
fn unterminated_table_is_unexpected_eof() {
    let result = parse_variable_from_str("Foo = { 1, 2,\n", "Foo");
    assert!(matches!(result, Err(LuaParseError::UnexpectedEof)));
}

#[test]
fn number_canonical_forms() {
    // the lexer's number conversion must not echo the raw span back
    let result = parse_variable_from_str("Foo = 123", "Foo").unwrap();
    assert!(matches!(&result, Value::Num(t) if t == "123.0"));
    let result = parse_variable_from_str("Foo = -2.5", "Foo").unwrap();
    assert!(matches!(&result, Value::Num(t) if t == "-2.5"));
    let result = parse_variable_from_str("Foo = 1e2", "Foo").unwrap();
    assert!(matches!(&result, Value::Num(t) if t == "100.0"));
    let result = parse_variable_from_str("Foo = 1.5e", "Foo");
    assert!(matches!(result, Err(LuaParseError::SyntaxError { .. })));
}

#[test]
fn as_i64_reads_integer_parts() {
    assert_eq!(Value::Num("123".to_string()).as_i64(), Some(123));
    assert_eq!(Value::Num("-7.5".to_string()).as_i64(), Some(-7));
    assert_eq!(Value::Num("1714089600.0".to_string()).as_i64(), Some(1714089600));
    assert_eq!(Value::Num("1e5".to_string()).as_i64(), None);
    assert_eq!(Value::Str("123".to_string()).as_i64(), None);
}
