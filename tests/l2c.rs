use expr_lexer::l2c::{
    declaration_from, get_kv_pair, get_list, parse_declaration, write_field, write_header, write_row,
    write_string, DeclError, Declaration,
};

#[test]
fn key_value_pairs() {
    assert_eq!(get_kv_pair("regex : (?P<a>\\d+) "), Some(("regex", "(?P<a>\\d+)")));
    assert_eq!(get_kv_pair("order:a b"), Some(("order", "a b")));
    assert_eq!(get_kv_pair("k::: v :w"), Some(("k", "v :w")));
    assert_eq!(get_kv_pair("k: :v"), Some(("k", ":v")));
    assert_eq!(get_kv_pair("k:"), Some(("k", "")));
    assert_eq!(get_kv_pair("no pair here"), None);
    assert_eq!(get_kv_pair(""), None);
}

#[test]
fn lists() {
    assert_eq!(get_list("  a bb\tc\u{3000}d  "), vec!["a", "bb", "c", "d"]);
    assert_eq!(get_list(""), Vec::<String>::new());
    assert_eq!(get_list("   "), Vec::<String>::new());
    assert_eq!(get_list("one"), vec!["one"]);
}

#[test]
fn quoted_fields() {
    let mut out = b"x,".to_vec();
    write_string(&mut out, "a\"b,c\"");
    assert_eq!(out, b"x,\"a\"\"b,c\"\"\"".to_vec());
    let mut out = Vec::new();
    write_string(&mut out, "");
    assert_eq!(out, b"\"\"".to_vec());
}

#[test]
fn declarations() {
    assert!(parse_declaration("").is_none());
    assert!(parse_declaration("   \t").is_none());
    assert!(parse_declaration("  # regex: x").is_none());
    assert!(matches!(parse_declaration("no pair"), Some(Err(DeclError::NoPair))));
    assert!(matches!(parse_declaration("colour: red"), Some(Err(DeclError::UnknownKey))));
    assert!(matches!(parse_declaration("regex: (unclosed"), Some(Err(DeclError::InvalidRegex))));
    match parse_declaration("  ReGeX : (?P<level>[A-Z]+) (?P<msg>.*)") {
        Some(Ok(Declaration::Regex(re))) => {
            assert_eq!(re.as_str(), "(?P<level>[A-Z]+) (?P<msg>.*)");
        }
        _ => panic!("expected a regex declaration"),
    }
    match parse_declaration("ORDER:  level   msg ") {
        Some(Ok(Declaration::Order(names))) => assert_eq!(names, vec!["level", "msg"]),
        _ => panic!("expected an order declaration"),
    }
}

#[test]
fn declaration_keys_are_exact() {
    assert!(matches!(declaration_from("regex", "a+"), Ok(Declaration::Regex(_))));
    assert!(matches!(declaration_from("Regex", "a+"), Err(DeclError::UnknownKey)));
    assert!(matches!(declaration_from("orders", "a"), Err(DeclError::UnknownKey)));
    match declaration_from("order", "x y") {
        Ok(Declaration::Order(names)) => assert_eq!(names, vec!["x", "y"]),
        _ => panic!("expected an order declaration"),
    }
}

#[test]
fn records() {
    let mut out = Vec::new();
    write_header(&mut out, &vec!["a".to_string(), "b,c".to_string()], ",");
    assert_eq!(out, b"a,b,c\n".to_vec());
    let mut out = Vec::new();
    write_row(&mut out, &vec!["1".to_string(), "x,\"y\"".to_string(), "".to_string()], ",");
    assert_eq!(out, b"1,\"x,\"\"y\"\"\",\n".to_vec());
    let mut out = Vec::new();
    write_row(&mut out, &vec!["a;b".to_string(), "c".to_string()], ";;");
    assert_eq!(out, b"a;b;;c\n".to_vec());
    let mut out = Vec::new();
    write_row(&mut out, &Vec::new(), ",");
    assert_eq!(out, b"\n".to_vec());
    let mut out = Vec::new();
    write_field(&mut out, "plain", "");
    assert_eq!(out, b"\"plain\"".to_vec());
}
