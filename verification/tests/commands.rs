use rolava::commands::{normalize_whitelist, parse_invocation};

#[test]
fn parses_command_name_and_arguments() {
    let invocation = parse_invocation("  /reset now  ").unwrap();

    assert_eq!(invocation.name, "reset");
    assert_eq!(invocation.arguments, "now");
    assert!(parse_invocation("普通消息").is_none());
    assert!(parse_invocation(" / ").is_none());
}

#[test]
fn command_whitelist_ignores_empty_and_duplicate_accounts() {
    let whitelist = normalize_whitelist(&vec![
        " 10001 ".to_string(),
        "10001".to_string(),
        "".to_string(),
    ]);

    assert_eq!(whitelist.len(), 1);
    assert!(whitelist.contains(&"10001".to_string()));
}
