use passage::text::{decimal_string, parse_u16_str, rsplit_once_char, str_eq_ignore_ascii_case};
use passage::{
    load_entry_config, next_link_after_failure, ServInfo,
    backup_file_name, classify_entry, entry_in_allowed_dirs, next_backup_counter,
    ArgGetAllSubscriptionLinks, EntryKind, MAX_BACKUPS,
};

fn args() -> ArgGetAllSubscriptionLinks {
    ArgGetAllSubscriptionLinks {
        dir: "subs".to_string(),
        allowd: vec!["hysteria2".to_string(), "mieru".to_string()],
    }
}

#[test]
fn walk_enters_allowed_dirs_only() {
    let a = args();
    assert!(entry_in_allowed_dirs(None, &a));
    assert!(entry_in_allowed_dirs(Some("Mieru"), &a));
    assert!(entry_in_allowed_dirs(Some("HYSTERIA2"), &a));
    assert!(!entry_in_allowed_dirs(Some("trojan"), &a));
    assert!(!entry_in_allowed_dirs(Some("mieru2"), &a));
}

#[test]
fn entries_are_classified() {
    assert_eq!(classify_entry(true, Some("bat"), Some("ip_update"), Some("mieru")), EntryKind::Mieru);
    assert_eq!(classify_entry(true, Some("BAT"), Some("IP_Update"), Some("Hysteria2")), EntryKind::Hysteria2);
    assert_eq!(classify_entry(true, Some("bat"), Some("ip_update"), Some("trojan")), EntryKind::OtherProvider);
    assert_eq!(classify_entry(true, Some("bat"), Some("ip_update"), None), EntryKind::NoProvider);
    assert_eq!(classify_entry(false, Some("bat"), Some("ip_update"), Some("mieru")), EntryKind::Skip);
    assert_eq!(classify_entry(true, Some("cmd"), Some("ip_update"), Some("mieru")), EntryKind::Skip);
    assert_eq!(classify_entry(true, None, Some("ip_update"), Some("mieru")), EntryKind::Skip);
    assert_eq!(classify_entry(true, Some("bat"), Some("update"), Some("mieru")), EntryKind::Skip);
}

#[test]
fn backup_names_and_counters() {
    assert_eq!(backup_file_name("config.yaml", 1), "config.yaml.bak.1");
    assert_eq!(backup_file_name("c", 1000), "c.bak.1000");
    assert_eq!(next_backup_counter(1), Some(2));
    assert_eq!(next_backup_counter(999), Some(1000));
    assert_eq!(next_backup_counter(MAX_BACKUPS), None);
    let mut tried = vec![1u32];
    let mut c = 1;
    while let Some(n) = next_backup_counter(c) {
        tried.push(n);
        c = n;
    }
    assert_eq!(tried, (1..=1000).collect::<Vec<u32>>());
}

#[test]
fn ports_parse_like_std() {
    for s in ["0", "443", "+80", "65535", "65536", "", "+", "-1", "00080", "12a", " 1", "99999999999"] {
        assert_eq!(parse_u16_str(s), s.parse::<u16>().ok(), "input {:?}", s);
    }
}

#[test]
fn decimal_round_trip() {
    for n in [0u64, 7, 10, 443, 65535, u64::MAX] {
        assert_eq!(decimal_string(n), n.to_string());
    }
    for n in [0u16, 9, 10, 8443, u16::MAX] {
        assert_eq!(parse_u16_str(&decimal_string(n as u64)), Some(n));
    }
}

#[test]
fn rsplit_at_last_colon() {
    assert_eq!(rsplit_once_char("a:b:c", ':'), Some(("a:b".to_string(), "c".to_string())));
    assert_eq!(rsplit_once_char("abc", ':'), None);
    assert_eq!(rsplit_once_char(":", ':'), Some(("".to_string(), "".to_string())));
}

#[test]
fn ascii_case_insensitive() {
    assert!(str_eq_ignore_ascii_case("Ip_Update", "ip_update"));
    assert!(!str_eq_ignore_ascii_case("ip_updatE2", "ip_update"));
    assert!(str_eq_ignore_ascii_case("Ä", "Ä"));
    assert!(!str_eq_ignore_ascii_case("Ä", "ä"));
}

#[test]
fn entry_config_goes_to_its_kind() {
    let json = r#"{"server": "h:443", "auth": "pw"}"#.to_string();
    let mut m = ServInfo::new_mieru();
    let mut h = ServInfo::new_hysteria2();
    let mut warnings = Vec::new();
    assert!(matches!(load_entry_config(EntryKind::Hysteria2, &json, &mut m, &mut h, &mut warnings), Some(Ok(()))));
    assert!(matches!(&h, ServInfo::Hysteria2(v) if v.len() == 1 && v[0].server == "h"));
    assert!(matches!(&m, ServInfo::Mieru(v) if v.is_empty()));
    assert!(matches!(load_entry_config(EntryKind::Mieru, &json, &mut m, &mut h, &mut warnings), Some(Err(_))));
    assert!(load_entry_config(EntryKind::OtherProvider, &json, &mut m, &mut h, &mut warnings).is_none());
    assert!(matches!(&h, ServInfo::Hysteria2(v) if v.len() == 1));
    assert!(warnings.is_empty());
}

#[test]
fn links_are_tried_in_order() {
    assert_eq!(next_link_after_failure(0, 3), Some(1));
    assert_eq!(next_link_after_failure(1, 3), Some(2));
    assert_eq!(next_link_after_failure(2, 3), None);
    assert_eq!(next_link_after_failure(0, 1), None);
}
