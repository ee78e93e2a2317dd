use ds_log::locator::LogPath;
use ds_log::recent::{RecentFileList, MAX_RECENT_FILES};
use ds_log::workshop::{is_valid_id, parse_response, query_body, SteamWorkshopIconManager};

fn log(i: usize) -> LogPath {
    LogPath::External(format!("/tmp/log_{}.txt", i))
}

#[test]
fn open_moves_to_front_without_duplicates() {
    let mut r = RecentFileList::new();
    r.on_open_file(&log(1));
    r.on_open_file(&log(2));
    r.on_open_file(&log(1));
    assert_eq!(r.len(), 2);
    assert!(r.get(0) == log(1));
    assert!(r.get(1) == log(2));
}

#[test]
fn recent_list_is_capped() {
    let mut r = RecentFileList::new();
    for i in 0..15 {
        r.on_open_file(&log(i));
    }
    assert_eq!(r.len(), MAX_RECENT_FILES);
    assert!(r.get(0) == log(14));
    assert!(r.get(MAX_RECENT_FILES - 1) == log(5));
}

#[test]
fn malformed_entries_are_skipped() {
    let mut r = RecentFileList::new();
    r.on_open_file(&log(1));
    r.on_open_file(&LogPath::DstCloud("/s/Master.zip".to_string(), "server_log.txt".to_string()));
    let mut entries = r.to_entries();
    entries.insert(1, "{broken".to_string());
    entries.push("{\"type\":\"nope\",\"path\":\"x\"}".to_string());
    let back = RecentFileList::from_entries(&entries);
    assert_eq!(back.len(), 2);
    assert!(back.get(0) == r.get(0));
    assert!(back.get(1) == r.get(1));
}

#[test]
fn catalog_id_shapes() {
    assert!(is_valid_id("2657513551"));
    assert!(is_valid_id("+5"));
    assert!(is_valid_id("123456789012345"));
    assert!(!is_valid_id("1234567890123456"));
    assert!(!is_valid_id(""));
    assert!(!is_valid_id("+"));
    assert!(!is_valid_id("12a"));
    assert!(!is_valid_id("workshop-1"));
}

#[test]
fn unknown_icon_is_queued_and_fetched() {
    let mut m = SteamWorkshopIconManager::new();
    assert_eq!(m.get_icon_url("111", 100), None);
    let batch = m.take_batch().unwrap();
    assert_eq!(batch, vec!["111".to_string()]);
    assert!(m.take_batch().is_none());
    m.finish_update(101, Some(vec![("111".to_string(), "http://icon/111".to_string())]));
    assert_eq!(m.get_icon_url("111", 200), Some("http://icon/111".to_string()));
    assert!(m.take_batch().is_none());
}

#[test]
fn stale_icon_is_requeued() {
    let mut m = SteamWorkshopIconManager::new();
    m.load_entry("7".to_string(), 1000, "u7".to_string());
    assert_eq!(m.get_icon_url("7", 2000), Some("u7".to_string()));
    assert!(m.take_batch().is_none());
    assert_eq!(m.get_icon_url("7", 1000 + 3601), Some("u7".to_string()));
    assert_eq!(m.take_batch(), Some(vec!["7".to_string()]));
}

#[test]
fn no_second_update_while_one_runs() {
    let mut m = SteamWorkshopIconManager::new();
    m.enqueue("1".to_string(), 100);
    assert!(m.take_batch().is_some());
    m.enqueue("2".to_string(), 200);
    assert!(m.take_batch().is_none());
    m.finish_update(205, None);
    m.enqueue("3".to_string(), 210);
    assert!(m.take_batch().is_none());
    m.enqueue("4".to_string(), 216);
    assert_eq!(
        m.take_batch(),
        Some(vec!["1".to_string(), "2".to_string(), "3".to_string(), "4".to_string()])
    );
}

#[test]
fn enqueue_list_filters_ids() {
    let mut m = SteamWorkshopIconManager::new();
    m.load_entry("5".to_string(), 50, "fresh".to_string());
    m.enqueue_list(
        vec!["abc".to_string(), "5".to_string(), "9".to_string(), "10".to_string()],
        60,
    );
    assert_eq!(m.take_batch(), Some(vec!["9".to_string(), "10".to_string()]));
}

#[test]
fn empty_entries_are_not_loaded() {
    let mut m = SteamWorkshopIconManager::new();
    m.load_entry(String::new(), 1, "x".to_string());
    m.load_entry("1".to_string(), 1, String::new());
    assert!(m.entries().is_empty());
    m.load_entry("1".to_string(), 1, "x".to_string());
    assert_eq!(m.entries(), vec![("1".to_string(), 1, "x".to_string())]);
}

#[test]
fn catalog_answer_is_read() {
    let v = json::parse(
        "{\"response\":{\"publishedfiledetails\":[{\"publishedfileid\":\"1\",\"preview_url\":\"u1\"},{\"publishedfileid\":\"2\"}]}}",
    )
    .unwrap();
    let r = parse_response(&v).unwrap();
    assert_eq!(
        r,
        vec![("1".to_string(), "u1".to_string()), ("2".to_string(), String::new())]
    );
    let bad = json::parse("{\"response\":{}}").unwrap();
    assert_eq!(
        parse_response(&bad).err(),
        Some("`response.publishedfiledetails` is not an array".to_string())
    );
}

#[test]
fn catalog_query_body() {
    let ids = vec!["1837053004".to_string(), "2657513551".to_string()];
    assert_eq!(
        query_body(&ids),
        "itemcount=2&publishedfileids[0]=1837053004&publishedfileids[1]=2657513551"
    );
    assert_eq!(query_body(&Vec::new()), "itemcount=0");
}
