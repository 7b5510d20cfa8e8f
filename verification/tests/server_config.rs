use passage::{
    json_array_only_first_element_warning, json_get_field_to_string, json_get_field_to_u16,
    InfoHysteria2, InfoMieru, JsonDoc, PassageError, ServInfo,
};

const MIERU_JSON: &str = r#"{
  "profiles": [
    {
      "user": {"name": "alice", "password": "secret"},
      "servers": [
        {"ipAddress": "1.2.3.4", "portBindings": [{"port": 2999, "protocol": "TCP"}]}
      ]
    }
  ]
}"#;

const MIERU_JSON_MANY: &str = r#"{
  "profiles": [
    {
      "user": {"name": "alice", "password": "secret"},
      "servers": [
        {"ipAddress": "1.2.3.4", "portBindings": [{"port": 2999}]},
        {"ipAddress": "5.6.7.8", "portBindings": [{"port": 3000}]}
      ]
    },
    {"user": {"name": "bob", "password": "x"}, "servers": []}
  ]
}"#;

#[test]
fn new_lists_are_empty() {
    match ServInfo::new_mieru() {
        ServInfo::Mieru(v) => assert!(v.is_empty()),
        _ => panic!("wrong kind"),
    }
    match ServInfo::new_hysteria2() {
        ServInfo::Hysteria2(v) => assert!(v.is_empty()),
        _ => panic!("wrong kind"),
    }
}

#[test]
fn load_mieru() {
    let mut serv = ServInfo::new_mieru();
    let mut warnings = Vec::new();
    ServInfo::load_config_field(&mut serv, &MIERU_JSON.to_string(), &mut warnings).unwrap();
    assert!(warnings.is_empty());
    match serv {
        ServInfo::Mieru(v) => {
            assert_eq!(v.len(), 1);
            assert_eq!(v[0].server, "1.2.3.4");
            assert_eq!(v[0].port, 2999);
            assert_eq!(v[0].username, "alice");
            assert_eq!(v[0].password, "secret");
        }
        _ => panic!("wrong kind"),
    }
}

#[test]
fn load_mieru_warns_about_extra_elements() {
    let mut serv = ServInfo::new_mieru();
    let mut warnings = Vec::new();
    ServInfo::load_config_field(&mut serv, &MIERU_JSON_MANY.to_string(), &mut warnings).unwrap();
    assert_eq!(warnings, vec!["/profiles".to_string(), "/profiles/0/servers".to_string()]);
}

#[test]
fn load_mieru_missing_field_keeps_list() {
    let mut serv = ServInfo::Mieru(vec![InfoMieru {
        server: "s".to_string(),
        port: 1,
        username: "u".to_string(),
        password: "p".to_string(),
    }]);
    let mut warnings = Vec::new();
    let json = r#"{"profiles":[{"servers":[{"ipAddress":"1.2.3.4","portBindings":[{"port":1}]}],"user":{"name":"a"}}]}"#;
    match ServInfo::load_config_field(&mut serv, &json.to_string(), &mut warnings) {
        Err(PassageError::JsonField(f)) => assert_eq!(f, "/profiles/0/user/password"),
        other => panic!("unexpected {:?}", other),
    }
    match serv {
        ServInfo::Mieru(v) => assert_eq!(v.len(), 1),
        _ => panic!("wrong kind"),
    }
}

#[test]
fn load_hysteria2() {
    let mut serv = ServInfo::new_hysteria2();
    let mut warnings = Vec::new();
    let json = r#"{"server": "[2001:db8::1]:8443", "auth": "pw"}"#;
    ServInfo::load_config_field(&mut serv, &json.to_string(), &mut warnings).unwrap();
    assert!(warnings.is_empty());
    match serv {
        ServInfo::Hysteria2(v) => {
            assert_eq!(v.len(), 1);
            assert_eq!(v[0].server, "[2001:db8::1]");
            assert_eq!(v[0].port, 8443);
            assert_eq!(v[0].password, "pw");
        }
        _ => panic!("wrong kind"),
    }
}

#[test]
fn load_hysteria2_errors() {
    let cases: Vec<(&str, &str)> = vec![
        ("not json", "json"),
        (r#"{"auth": "pw"}"#, "field"),
        (r#"{"server": "host-without-port", "auth": "pw"}"#, "format"),
        (r#"{"server": "host:99999", "auth": "pw"}"#, "port"),
        (r#"{"server": "host:-1", "auth": "pw"}"#, "port"),
        (r#"{"server": "host:443"}"#, "auth"),
    ];
    for (json, expected) in cases {
        let mut serv = ServInfo::Hysteria2(vec![InfoHysteria2 {
            server: "s".to_string(),
            port: 1,
            password: "p".to_string(),
        }]);
        let mut warnings = Vec::new();
        let r = ServInfo::load_config_field(&mut serv, &json.to_string(), &mut warnings);
        match (expected, r) {
            ("json", Err(PassageError::JsonParse)) => {}
            ("field", Err(PassageError::JsonField(f))) => assert_eq!(f, "/server"),
            ("format", Err(PassageError::BadServerFormat(v))) => assert_eq!(v, "host-without-port"),
            ("port", Err(PassageError::PortParse)) => {}
            ("auth", Err(PassageError::JsonField(f))) => assert_eq!(f, "/auth"),
            (e, r) => panic!("case {}: unexpected {:?}", e, r),
        }
        match serv {
            ServInfo::Hysteria2(v) => assert_eq!(v.len(), 1),
            _ => panic!("wrong kind"),
        }
    }
}

#[test]
fn json_fields() {
    let doc = JsonDoc::parse(r#"{"a": {"b": [1, 70000, "x"]}, "s": "str", "t~/": 5}"#).unwrap();
    assert_eq!(json_get_field_to_u16(&doc, "/a/b/0").unwrap(), 1);
    // larger numbers are cut to 16 bits, as `as u16` does
    assert_eq!(json_get_field_to_u16(&doc, "/a/b/1").unwrap(), (70000u32 % 65536) as u16);
    assert_eq!(json_get_field_to_u16(&doc, "/t~0~1").unwrap(), 5);
    assert!(matches!(json_get_field_to_u16(&doc, "/a/b/2"), Err(PassageError::JsonField(_))));
    assert!(matches!(json_get_field_to_u16(&doc, "/missing"), Err(PassageError::JsonField(_))));
    assert_eq!(json_get_field_to_string(&doc, "/s").unwrap(), "str");
    assert_eq!(json_get_field_to_string(&doc, "/a/b/2").unwrap(), "x");
    match json_get_field_to_string(&doc, "/a/b/0") {
        Err(PassageError::JsonField(f)) => assert_eq!(f, "/a/b/0"),
        other => panic!("unexpected {:?}", other),
    }
    assert!(json_array_only_first_element_warning(&doc, "/a/b"));
    assert!(!json_array_only_first_element_warning(&doc, "/s"));
    assert!(!json_array_only_first_element_warning(&doc, "/nothing"));
    assert!(matches!(JsonDoc::parse("{"), Err(PassageError::JsonParse)));
}
