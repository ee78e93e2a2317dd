use ds_log::locator::LogPath;

fn all_kinds() -> Vec<LogPath> {
    vec![
        LogPath::Ds("/home/u/Documents/Klei/DoNotStarve/log.txt".to_string()),
        LogPath::DstLocal("/home/u/Klei/DoNotStarveTogether/client_log.txt".to_string()),
        LogPath::DstCloud("/home/u/saves/Master.zip".to_string(), "server_log.txt".to_string()),
        LogPath::External("C:\\logs\\odd \"name\".txt".to_string()),
    ]
}

#[test]
fn serialize_round_trip() {
    for l in all_kinds() {
        let s = l.serialize();
        let back = LogPath::deserialize(&s).unwrap();
        assert!(back == l);
    }
}

#[test]
fn serialize_shape() {
    assert_eq!(
        LogPath::Ds("a\"b".to_string()).serialize(),
        "{\"type\":\"ds\",\"path\":\"a\\\"b\"}"
    );
    assert_eq!(
        LogPath::DstCloud("z.zip".to_string(), "n.txt".to_string()).serialize(),
        "{\"type\":\"dstcloud\",\"path\":\"z.zip\",\"name\":\"n.txt\"}"
    );
}

#[test]
fn deserialize_errors() {
    assert!(LogPath::deserialize("not json").is_err());
    assert_eq!(
        LogPath::deserialize("{\"type\":\"ds\"}").err(),
        Some("path not found".to_string())
    );
    assert_eq!(
        LogPath::deserialize("{\"path\":\"x\"}").err(),
        Some("type not found".to_string())
    );
    assert_eq!(
        LogPath::deserialize("{\"type\":\"dstcloud\",\"path\":\"x\"}").err(),
        Some("name not found".to_string())
    );
    assert_eq!(
        LogPath::deserialize("{\"type\":\"zzz\",\"path\":\"x\"}").err(),
        Some("unknown type".to_string())
    );
    assert!(LogPath::deserialize("").is_err());
    assert!(LogPath::deserialize("[1,2]").is_err());
}

#[test]
fn from_fields_cases() {
    let l = LogPath::from_fields(Some("dst".to_string()), Some("p".to_string()), None).unwrap();
    assert!(l == LogPath::DstLocal("p".to_string()));
    let l = LogPath::from_fields(Some("external".to_string()), Some("p".to_string()), None).unwrap();
    assert!(l == LogPath::External("p".to_string()));
}

#[test]
fn labels_are_stable_and_tagged() {
    let a = LogPath::Ds("/x/log.txt".to_string());
    let la = a.to_label();
    assert_eq!(la, a.to_label());
    assert!(la.starts_with("ds-"));
    assert_eq!(la.len(), 3 + 36);
    let b = LogPath::DstLocal("/x/log.txt".to_string());
    let lb = b.to_label();
    assert!(lb.starts_with("dst-"));
    assert_ne!(la, lb);
    assert_eq!(lb, LogPath::External("/x/log.txt".to_string()).to_label());
    let c = LogPath::DstCloud("/x/log.txt".to_string(), "server_log.txt".to_string());
    let lc = c.to_label();
    assert!(lc.starts_with("dstcloud-"));
    assert_eq!(lc.len(), 9 + 36 + 1 + 36);
    assert_eq!(&lc[9..45], &lb[4..]);
    assert_ne!(LogPath::Ds("/y".to_string()).to_label(), la);
}

#[test]
fn label_is_uuid_v5_of_path() {
    let l = LogPath::Ds("http://www.example.com/".to_string()).to_label();
    let u = uuid::Uuid::new_v5(&uuid::Uuid::NAMESPACE_URL, b"http://www.example.com/");
    assert_eq!(l, format!("ds-{}", u.hyphenated()));
}

#[test]
fn game_types() {
    let kinds: Vec<String> = all_kinds().iter().map(|l| l.get_game_type()).collect();
    assert_eq!(kinds, vec!["ds", "dst", "dst", "dyn"]);
}

#[test]
fn archive_backed_only_for_cloud() {
    let zips: Vec<bool> = all_kinds().iter().map(|l| l.is_zip()).collect();
    assert_eq!(zips, vec![false, false, true, false]);
    let clouds: Vec<bool> = all_kinds().iter().map(|l| l.is_cloud()).collect();
    assert_eq!(clouds, zips);
}

#[test]
fn paths_and_names() {
    let l = LogPath::Ds("/a/b/log.txt".to_string());
    assert_eq!(l.get_path(), "/a/b/log.txt");
    assert_eq!(l.get_name(), "log.txt");
    let c = LogPath::DstCloud("/a/Master.zip".to_string(), "backup/server_log/x.txt".to_string());
    assert_eq!(c.get_path(), "/a/Master.zip");
    assert_eq!(c.get_name(), "backup/server_log/x.txt");
    assert_eq!(LogPath::External("/".to_string()).get_name(), "");
}

#[test]
fn menu_paths() {
    let c = LogPath::DstCloud("/home/u/a.zip".to_string(), "server_log.txt".to_string());
    assert_eq!(c.get_menu_path(Some("/home/u")), "~/a.zip:server_log.txt");
    assert_eq!(c.get_menu_path(None), "/home/u/a.zip:server_log.txt");
    let l = LogPath::Ds("/opt/log.txt".to_string());
    assert_eq!(l.get_menu_path(Some("/home/u")), "/opt/log.txt");
}

#[test]
fn default_locator() {
    let d = LogPath::default();
    assert!(d == LogPath::External(String::new()));
}

#[test]
fn control_characters_are_escaped() {
    assert_eq!(
        LogPath::Ds("a\\b\n\t\u{1}/é".to_string()).serialize(),
        "{\"type\":\"ds\",\"path\":\"a\\\\b\\n\\t\\u0001/é\"}"
    );
}

#[test]
fn locator_descriptor() {
    let c = LogPath::DstCloud("/s/Master.zip".to_string(), "server_log.txt".to_string());
    assert_eq!(
        c.to_ipc(1_700_000_000_250, 4096),
        "{\"game\":\"dst\",\"filename\":\"server_log.txt\",\"filepath\":\"/s/Master.zip\",\"mtime\":1700000000.250,\"filesize\":4096,\"is_zip\":true}"
    );
    let e = LogPath::External("/x/a.txt".to_string());
    assert_eq!(
        e.to_ipc(0, 0),
        "{\"game\":\"dyn\",\"filename\":\"a.txt\",\"filepath\":\"/x/a.txt\",\"mtime\":0.000,\"filesize\":0,\"is_zip\":false}"
    );
}

#[test]
fn long_digit_run_is_an_error_not_a_panic() {
    let mut s = String::from("{\"type\":\"ds\",\"path\":\"x\",\"n\":0.");
    s.push_str(&"0".repeat(32_769));
    s.push('}');
    assert_eq!(LogPath::deserialize(&s).err(), Some("digit run too long".to_string()));
    let mut ok = String::from("{\"type\":\"ds\",\"path\":\"x\",\"n\":0.");
    ok.push_str(&"0".repeat(100));
    ok.push('}');
    assert!(LogPath::deserialize(&ok).unwrap() == LogPath::Ds("x".to_string()));
}

#[test]
fn parse_errors_have_messages() {
    for bad in ["", "{", "not json", "[1,", "{\"type\":}"] {
        let e = LogPath::deserialize(bad).err().unwrap();
        assert!(!e.is_empty());
    }
}
