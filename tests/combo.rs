use combo_navi::combo::{
    decimal_string, parse_combo_content, serialize_combo_file, ComboCommand, ComboFile,
    InputType, KeyIdentifier, ParseError,
};

#[test]
fn test_parse_tap_command() {
    let content = "2,リーフォン,戦技,|";
    let result = parse_combo_content(content).unwrap();
    assert_eq!(result.commands.len(), 1);
    assert_eq!(result.commands[0].key, KeyIdentifier::Number(2));
    assert!(matches!(result.commands[0].input_type, InputType::Tap));
    assert_eq!(result.commands[0].character, "リーフォン");
}

#[test]
fn test_parse_hold_command() {
    let content = "U2,リーフォン,必殺技,|";
    let result = parse_combo_content(content).unwrap();
    assert_eq!(result.commands.len(), 1);
    assert_eq!(result.commands[0].key, KeyIdentifier::Number(2));
    assert!(matches!(result.commands[0].input_type, InputType::Hold { duration_ms: 300 }));
}

#[test]
fn test_parse_chain_command() {
    let content = "E,チェン,連携,|";
    let result = parse_combo_content(content).unwrap();
    assert_eq!(result.commands.len(), 1);
    assert_eq!(result.commands[0].key, KeyIdentifier::Chain);
}

#[test]
fn test_parse_full_file() {
    let content = r#"#,物理,,|
U2,リーフォン,必殺技,|
2,リーフォン,戦技,|
E,チェン,連携,|
!!!!!"#;
    let result = parse_combo_content(content).unwrap();
    assert_eq!(result.title, "物理");
    assert_eq!(result.commands.len(), 4); // Including title line
}

#[test]
fn key_from_str_reads_digits_letters_and_spaces() {
    assert_eq!(KeyIdentifier::from_str(" 7 "), Some(KeyIdentifier::Number(7)));
    assert_eq!(KeyIdentifier::from_str("+3"), Some(KeyIdentifier::Number(3)));
    assert_eq!(KeyIdentifier::from_str("E"), Some(KeyIdentifier::Chain));
    assert_eq!(KeyIdentifier::from_str("L"), Some(KeyIdentifier::HeavyAttack));
    assert_eq!(KeyIdentifier::from_str("0"), None);
    assert_eq!(KeyIdentifier::from_str("10"), None);
    assert_eq!(KeyIdentifier::from_str("256"), None);
    assert_eq!(KeyIdentifier::from_str(""), None);
    assert_eq!(KeyIdentifier::from_str("Q"), None);
}

#[test]
fn key_from_str_ignores_case() {
    // Only an upper-casing of the text turns these into the letters above.
    assert_eq!(KeyIdentifier::from_str("e"), Some(KeyIdentifier::Chain));
    assert_eq!(KeyIdentifier::from_str(" l"), Some(KeyIdentifier::HeavyAttack));
}

#[test]
fn key_from_parts_uses_the_given_upper_case() {
    assert_eq!(KeyIdentifier::from_parts("e", "E"), Some(KeyIdentifier::Chain));
    assert_eq!(KeyIdentifier::from_parts("e", "e"), None);
    assert_eq!(KeyIdentifier::from_parts("9", "9"), Some(KeyIdentifier::Number(9)));
    assert_eq!(KeyIdentifier::from_parts("x", "L"), Some(KeyIdentifier::HeavyAttack));
}

#[test]
fn parse_lowercase_hold_and_heavy_attack() {
    let result = parse_combo_content("u3,A,B,C|\nL,D,E,F|").unwrap();
    assert_eq!(result.commands.len(), 2);
    assert_eq!(result.commands[0].key, KeyIdentifier::Number(3));
    assert_eq!(result.commands[0].input_type, InputType::Hold { duration_ms: 300 });
    assert_eq!(result.commands[0].memo, "C");
    assert_eq!(result.commands[1].key, KeyIdentifier::HeavyAttack);
    assert_eq!(result.commands[1].input_type, InputType::Tap);
    assert_eq!(result.commands[1].skill_type, "E");
}

#[test]
fn parse_trims_fields_and_pipes() {
    let result = parse_combo_content("  4 , Chen ,  skill , note ||  \r\n").unwrap();
    let cmd = &result.commands[0];
    assert_eq!(cmd.key, KeyIdentifier::Number(4));
    assert_eq!(cmd.character, "Chen");
    assert_eq!(cmd.skill_type, "skill");
    assert_eq!(cmd.memo, "note");
    assert!(!cmd.is_title);
    assert_eq!(result.title, "");
}

#[test]
fn parse_missing_fields_are_empty() {
    let result = parse_combo_content("1").unwrap();
    let cmd = &result.commands[0];
    assert_eq!(cmd.key, KeyIdentifier::Number(1));
    assert_eq!(cmd.character, "");
    assert_eq!(cmd.skill_type, "");
    assert_eq!(cmd.memo, "");
}

#[test]
fn parse_untitled_title_line() {
    let result = parse_combo_content("#,,,|\n#,Second,,|\n2,a,b,|").unwrap();
    assert_eq!(result.title, "Untitled");
    assert_eq!(result.commands.len(), 3);
    assert!(result.commands[0].is_title);
    assert_eq!(result.commands[0].key, KeyIdentifier::Number(0));
    assert_eq!(result.commands[1].character, "Second");
}

#[test]
fn parse_empty_text_is_empty_file() {
    assert!(matches!(parse_combo_content(""), Err(ParseError::EmptyFile)));
    assert!(matches!(parse_combo_content("\n  \n!!!!!\n"), Err(ParseError::EmptyFile)));
}

#[test]
fn parse_invalid_key_reports_line_and_key() {
    match parse_combo_content("2,a,b,|\n\nX9,c,d,|\nQ,e,f,|") {
        Err(ParseError::InvalidKey { line, key }) => {
            assert_eq!(line, 3);
            assert_eq!(key, "X9");
        }
        other => panic!("unexpected {:?}", other),
    }
    match parse_combo_content("U,a,b,|") {
        Err(ParseError::InvalidKey { line, key }) => {
            assert_eq!(line, 1);
            assert_eq!(key, "U");
        }
        other => panic!("unexpected {:?}", other),
    }
}

#[test]
fn parse_error_messages() {
    assert_eq!(ParseError::EmptyFile.message(), "File is empty");
    let e = ParseError::InvalidKey { line: 12, key: "Z".to_string() };
    assert_eq!(e.message(), "Invalid key 'Z' at line 12");
    let e = ParseError::InvalidFormat { line: 3, content: "x".to_string() };
    assert_eq!(e.message(), "Invalid format at line 3: x");
    let e = ParseError::IoError("gone".to_string());
    assert_eq!(e.message(), "IO error: gone");
}

#[test]
fn decimal_strings() {
    assert_eq!(decimal_string(0), "0");
    assert_eq!(decimal_string(9), "9");
    assert_eq!(decimal_string(255), "255");
    assert_eq!(decimal_string(1_000_007), "1000007");
}

fn sample_command(key: KeyIdentifier, input_type: InputType, character: &str, is_title: bool) -> ComboCommand {
    ComboCommand {
        key,
        input_type,
        character: character.to_string(),
        skill_type: "s".to_string(),
        memo: "m".to_string(),
        is_title,
    }
}

#[test]
fn serialize_writes_each_kind_of_line() {
    let file = ComboFile {
        title: "T".to_string(),
        commands: vec![
            sample_command(KeyIdentifier::Number(0), InputType::Tap, "T", true),
            sample_command(KeyIdentifier::Number(2), InputType::Hold { duration_ms: 300 }, "a", false),
            sample_command(KeyIdentifier::Number(12), InputType::Tap, "b", false),
            sample_command(KeyIdentifier::Chain, InputType::Tap, "c", false),
            sample_command(KeyIdentifier::HeavyAttack, InputType::Tap, "d", false),
            sample_command(KeyIdentifier::MouseLeft, InputType::Hold { duration_ms: 300 }, "e", false),
        ],
    };
    assert_eq!(
        serialize_combo_file(&file),
        "#,T,s,m|\nU2,a,s,m|\n12,b,s,m|\nE,c,s,m|\nL,d,s,m|\nUL,e,s,m|\n!!!!!\n"
    );
}

#[test]
fn serialize_empty_combo_is_end_marker() {
    let file = ComboFile { title: String::new(), commands: vec![] };
    assert_eq!(serialize_combo_file(&file), "!!!!!\n");
}

#[test]
fn serialized_text_reads_back() {
    let text = "#,物理,,|\nU2,リーフォン,必殺技,|\n2,リーフォン,戦技,メモ|\nE,チェン,連携,|\n!!!!!\n";
    let parsed = parse_combo_content(text).unwrap();
    assert_eq!(serialize_combo_file(&parsed), text);
}

#[test]
fn input_type_default_is_tap() {
    assert_eq!(InputType::default(), InputType::Tap);
}
