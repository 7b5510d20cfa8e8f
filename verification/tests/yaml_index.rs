use passage::regex_yaml_locate_key;
use passage::text::chars_of;
use passage::yaml::{dash_line, key_val_bounds, level1_line};
use passage::YamlMap;
use passage::{REGEX_YAML_KEY_VAL, REGEX_YAML_LEVEL_1_NODE};

fn sample() -> Vec<String> {
    [
        "mixed-port: 7890",
        "proxies:",
        "  - name: mieru",
        "    type: mieru",
        "    server: 1.2.3.4",
        "    port: 2999",
        "    username: alice",
        "    password: secret",
        "  - name: hysteria2",
        "    type: hysteria2",
        "    server: example.org",
        "    port: 443",
        "    password: \"pw\"",
        "proxy-groups:",
        "  - name: auto",
        "    type: select",
    ]
    .iter()
    .map(|s| s.to_string())
    .collect()
}

#[test]
fn locate_indexes_the_named_section() {
    let lines = sample();
    let map = regex_yaml_locate_key("proxies:", &lines);
    assert_eq!(
        map.get("mieru", "server"),
        Some((4, "1.2.3.4".to_string(), "    server: 1.2.3.4".to_string()))
    );
    assert_eq!(map.get("mieru", "port"), Some((5, "2999".to_string(), "    port: 2999".to_string())));
    assert_eq!(map.get("mieru", "username").map(|f| f.0), Some(6));
    assert_eq!(map.get("mieru", "password").map(|f| f.1), Some("secret".to_string()));
    assert_eq!(map.get("mieru", "type").map(|f| f.1), Some("mieru".to_string()));
    assert_eq!(map.get("hysteria2", "server").map(|f| f.0), Some(10));
    assert_eq!(map.get("hysteria2", "password").map(|f| f.1), Some("\"pw\"".to_string()));
    // the `- name:` lines open blocks and are not fields
    assert_eq!(map.get("mieru", "name"), None);
    // the next top-level node ends the section
    assert!(!map.contains_block("auto"));
    assert!(map.contains_block("mieru"));
}

#[test]
fn locate_without_the_node_is_empty() {
    let lines = sample();
    let map = regex_yaml_locate_key("rules:", &lines);
    assert!(!map.contains_block(""));
    assert!(!map.contains_block("mieru"));
    assert_eq!(map.get("mieru", "server"), None);
}

#[test]
fn locate_fields_before_first_dash_go_to_empty_block() {
    let lines: Vec<String> = ["top:", "  a: 1", "  - name: b", "    c: 2"].iter().map(|s| s.to_string()).collect();
    let map = regex_yaml_locate_key("top:", &lines);
    assert_eq!(map.get("", "a"), Some((1, "1".to_string(), "  a: 1".to_string())));
    assert_eq!(map.get("b", "c").map(|f| f.0), Some(3));
}

#[test]
fn locate_later_field_replaces_earlier() {
    let lines: Vec<String> = ["top:", "  a: 1", "  a: 2"].iter().map(|s| s.to_string()).collect();
    let map = regex_yaml_locate_key("top:", &lines);
    assert_eq!(map.get("", "a"), Some((2, "2".to_string(), "  a: 2".to_string())));
}

#[test]
fn yaml_map_insert_then_get() {
    let mut m = YamlMap::new();
    assert!(!m.contains_block("b"));
    m.insert("b".to_string(), "k".to_string(), 3, "v".to_string(), "  k: v".to_string());
    m.insert("b".to_string(), "j".to_string(), 4, "w".to_string(), "  j: w".to_string());
    m.insert("b".to_string(), "k".to_string(), 5, "x".to_string(), "  k: x".to_string());
    assert_eq!(m.get("b", "k"), Some((5, "x".to_string(), "  k: x".to_string())));
    assert_eq!(m.get("b", "j").map(|f| f.0), Some(4));
    assert_eq!(m.get("c", "k"), None);
    assert!(m.contains_block("b"));
}

#[test]
fn locate_ignores_lines_outside_the_section() {
    let lines = sample();
    let mut other = lines.clone();
    other[0] = "changed: before".to_string();
    other[15] = "    type: changed-after".to_string();
    other.push("  extra: line".to_string());
    let a = regex_yaml_locate_key("proxies:", &lines);
    let b = regex_yaml_locate_key("proxies:", &other);
    for (block, key) in [("mieru", "server"), ("mieru", "password"), ("hysteria2", "port"), ("auto", "type")] {
        assert_eq!(a.get(block, key), b.get(block, key));
    }
}

fn grammar_lines() -> Vec<&'static str> {
    vec![
        "proxies:",
        "proxy-groups:",
        "a_b-c::",
        ":",
        "x:",
        "  proxies:",
        "proxies: ",
        "pro.xies:",
        "prox!es:",
        "数据:",
        "a\u{3000}b:",
        "    server: 1.2.3.4",
        "  - name: mieru",
        "  -name: x",
        "  -  key: value with spaces",
        "\tkey: v",
        "key: v",
        "   key:v",
        "   key:  v",
        "   k:ey: v",
        "   key: \u{a0}v",
        "   -\u{2003}key: v",
        "   - : v",
        "   -: v",
        "  - - a: b",
        "   key: v\r",
        "\u{85}key: v\u{85}x",
        "  key: v\nw",
        "",
        "  ",
    ]
}

#[test]
fn level1_grammar_agrees_with_regex() {
    let re = regex::Regex::new(REGEX_YAML_LEVEL_1_NODE).unwrap();
    for line in grammar_lines() {
        let v = chars_of(line);
        assert_eq!(level1_line(&v), re.is_match(line), "line {:?}", line);
    }
}

#[test]
fn key_val_grammar_agrees_with_regex() {
    let re = regex::Regex::new(REGEX_YAML_KEY_VAL).unwrap();
    for line in grammar_lines() {
        let v = chars_of(line);
        let ours = key_val_bounds(&v).map(|(ks, ke)| {
            let key: String = v[ks..ke].iter().collect();
            let value: String = v[ke + 2..].iter().collect();
            (key, value)
        });
        let theirs = re.captures(line).map(|c| (c[1].to_string(), c[2].to_string()));
        assert_eq!(ours, theirs, "line {:?}", line);
    }
}

#[test]
fn dash_line_is_first_non_blank_dash() {
    assert!(dash_line(&chars_of("  - name: a")));
    assert!(dash_line(&chars_of("\t-x: a")));
    assert!(!dash_line(&chars_of("  name: -a")));
    assert!(!dash_line(&chars_of("   ")));
}
