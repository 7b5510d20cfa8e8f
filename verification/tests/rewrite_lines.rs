use passage::{
    written_key_names, written_lines_below, YamlMap,
    regex_modify_key_val_node, regex_new, regex_yaml_locate_key, write_to_data, InfoHysteria2,
    InfoMieru, PassageError, ServInfo, YamlValue, REGEX_YAML_KEY_VAL,
};

fn lines_of(v: &[&str]) -> Vec<String> {
    v.iter().map(|s| s.to_string()).collect()
}

fn sample() -> Vec<String> {
    lines_of(&[
        "proxies:",
        "  - name: mieru",
        "    server: 0.0.0.0",
        "    port: 1",
        "    username: nobody",
        "    password: none",
        "  - name: hysteria2",
        "    server: 0.0.0.0",
        "    port: 1",
        "    password: none",
        "rules:",
    ])
}

#[test]
fn regex_new_rejects_bad_pattern() {
    assert!(regex_new(REGEX_YAML_KEY_VAL).is_ok());
    match regex_new("foo(bar") {
        Err(PassageError::RegexCompile(p)) => assert_eq!(p, "foo(bar"),
        _ => panic!("expected a compile error"),
    }
}

#[test]
fn modify_writes_number_and_string() {
    let re = regex_new(REGEX_YAML_KEY_VAL).unwrap();
    let mut lines = lines_of(&["a:", "  port: 1", "  server: x.y"]);
    regex_modify_key_val_node(&mut lines, (1, YamlValue::Num(8443)), &re).unwrap();
    regex_modify_key_val_node(&mut lines, (2, YamlValue::Str("1.2.3.4".to_string())), &re).unwrap();
    assert_eq!(lines, lines_of(&["a:", "  port: 8443", "  server: \"1.2.3.4\""]));
}

#[test]
fn modify_keeps_list_item_prefix() {
    let re = regex_new(REGEX_YAML_KEY_VAL).unwrap();
    let mut lines = lines_of(&["  - name: old"]);
    regex_modify_key_val_node(&mut lines, (0, YamlValue::Str("new".to_string())), &re).unwrap();
    assert_eq!(lines[0], "  - name: \"new\"");
}

#[test]
fn modify_fails_on_unmatched_line() {
    let re = regex_new(REGEX_YAML_KEY_VAL).unwrap();
    let mut lines = lines_of(&["no value here"]);
    match regex_modify_key_val_node(&mut lines, (0, YamlValue::Num(1)), &re) {
        Err(PassageError::NoMatch(0)) => {}
        other => panic!("unexpected {:?}", other),
    }
    assert_eq!(lines, lines_of(&["no value here"]));
}

#[test]
fn modify_fails_without_second_group() {
    let re = regex_new(r"^(\w+)").unwrap();
    let mut lines = lines_of(&["abc: d"]);
    match regex_modify_key_val_node(&mut lines, (0, YamlValue::Num(1)), &re) {
        Err(PassageError::NoValueGroup(0)) => {}
        other => panic!("unexpected {:?}", other),
    }
    assert_eq!(lines[0], "abc: d");
}

#[test]
fn modify_fails_when_second_group_does_not_take_part() {
    let re = regex_new(r"^(a)|(b)").unwrap();
    let mut lines = lines_of(&["ax"]);
    assert!(matches!(
        regex_modify_key_val_node(&mut lines, (0, YamlValue::Num(1)), &re),
        Err(PassageError::NoValueGroup(0))
    ));
}

fn mieru() -> ServInfo {
    ServInfo::Mieru(vec![InfoMieru {
        server: "1.2.3.4".to_string(),
        port: 2999,
        username: "alice".to_string(),
        password: "secret".to_string(),
    }])
}

fn hysteria2() -> ServInfo {
    ServInfo::Hysteria2(vec![InfoHysteria2 {
        server: "example.org".to_string(),
        port: 443,
        password: "pw".to_string(),
    }])
}

#[test]
fn write_mieru_and_hysteria2() {
    let mut lines = sample();
    let map = regex_yaml_locate_key("proxies:", &lines);
    let re = regex_new(REGEX_YAML_KEY_VAL).unwrap();
    write_to_data(&mut lines, &map, mieru(), &"mieru".to_string(), 0, &re).unwrap();
    write_to_data(&mut lines, &map, hysteria2(), &"hysteria2".to_string(), 0, &re).unwrap();
    assert_eq!(
        lines,
        lines_of(&[
            "proxies:",
            "  - name: mieru",
            "    server: \"1.2.3.4\"",
            "    port: 2999",
            "    username: \"alice\"",
            "    password: \"secret\"",
            "  - name: hysteria2",
            "    server: \"example.org\"",
            "    port: 443",
            "    password: \"pw\"",
            "rules:",
        ])
    );
}

#[test]
fn write_missing_block() {
    let mut lines = sample();
    let map = regex_yaml_locate_key("proxies:", &lines);
    let re = regex_new(REGEX_YAML_KEY_VAL).unwrap();
    match write_to_data(&mut lines, &map, mieru(), &"trojan".to_string(), 0, &re) {
        Err(PassageError::MissingBlock(b)) => assert_eq!(b, "trojan"),
        other => panic!("unexpected {:?}", other),
    }
    assert_eq!(lines, sample());
}

#[test]
fn write_missing_field() {
    let mut lines = lines_of(&["proxies:", "  - name: mieru", "    server: a", "    port: 1", "    password: p"]);
    let before = lines.clone();
    let map = regex_yaml_locate_key("proxies:", &lines);
    let re = regex_new(REGEX_YAML_KEY_VAL).unwrap();
    match write_to_data(&mut lines, &map, mieru(), &"mieru".to_string(), 0, &re) {
        Err(PassageError::MissingField(f)) => assert_eq!(f, "username"),
        other => panic!("unexpected {:?}", other),
    }
    assert_eq!(lines, before);
}

#[test]
fn write_missing_entry() {
    let mut lines = sample();
    let map = regex_yaml_locate_key("proxies:", &lines);
    let re = regex_new(REGEX_YAML_KEY_VAL).unwrap();
    assert!(matches!(
        write_to_data(&mut lines, &map, hysteria2(), &"hysteria2".to_string(), 1, &re),
        Err(PassageError::MissingEntry(1))
    ));
    assert_eq!(lines, sample());
}

#[test]
fn write_stops_at_first_unrewritable_line() {
    // with a regex whose second group only exists on `port` lines, the server
    // line fails first and nothing is written
    let mut lines = sample();
    let map = regex_yaml_locate_key("proxies:", &lines);
    let re = regex_new(r"^\s+(port): (\S.*)$").unwrap();
    assert!(matches!(
        write_to_data(&mut lines, &map, hysteria2(), &"hysteria2".to_string(), 0, &re),
        Err(PassageError::NoMatch(7))
    ));
    assert_eq!(lines, sample());
    // with one that matches only `server` lines, the server is written before the port fails
    let re = regex_new(r"^\s+(server): (\S.*)$").unwrap();
    assert!(matches!(
        write_to_data(&mut lines, &map, hysteria2(), &"hysteria2".to_string(), 0, &re),
        Err(PassageError::NoMatch(8))
    ));
    assert_eq!(lines[7], "    server: \"example.org\"");
    assert_eq!(lines[8], "    port: 1");
}

#[test]
fn write_ignores_unrelated_out_of_range_fields() {
    let mut lines = lines_of(&["  server: a", "  port: 1", "  password: p"]);
    let mut map = YamlMap::new();
    map.insert("hysteria2".to_string(), "server".to_string(), 0, "a".to_string(), lines[0].clone());
    map.insert("hysteria2".to_string(), "port".to_string(), 1, "1".to_string(), lines[1].clone());
    map.insert("hysteria2".to_string(), "password".to_string(), 2, "p".to_string(), lines[2].clone());
    map.insert("hysteria2".to_string(), "sni".to_string(), 99, "x".to_string(), "  sni: x".to_string());
    map.insert("other".to_string(), "server".to_string(), 120, "y".to_string(), "  server: y".to_string());
    let target = hysteria2();
    let name = "hysteria2".to_string();
    assert!(written_lines_below(&map, &target, &name, lines.len()));
    let re = regex_new(REGEX_YAML_KEY_VAL).unwrap();
    write_to_data(&mut lines, &map, target, &name, 0, &re).unwrap();
    assert_eq!(lines, lines_of(&["  server: \"example.org\"", "  port: 443", "  password: \"pw\""]));
}

#[test]
fn written_lines_checked_against_line_count() {
    let mut map = YamlMap::new();
    map.insert("mieru".to_string(), "port".to_string(), 7, "1".to_string(), "  port: 1".to_string());
    let name = "mieru".to_string();
    assert!(!written_lines_below(&map, &mieru(), &name, 7));
    assert!(written_lines_below(&map, &mieru(), &name, 8));
    assert!(written_lines_below(&map, &mieru(), &"absent".to_string(), 0));
    assert_eq!(written_key_names(&mieru()), vec!["server", "port", "password", "username"]);
    assert_eq!(written_key_names(&hysteria2()), vec!["server", "port", "password"]);
}
