use ds_log::live::{LogModel, LogModelState, PollAction};
use ds_log::locator::LogPath;

fn path(i: usize) -> LogPath {
    LogPath::DstLocal(format!("/logs/server_log_{}.txt", i))
}

#[test]
fn clear_inactive_removes_all_inactive() {
    let mut reg = LogModelState::new();
    for i in 0..5 {
        reg.register(&path(i));
    }
    for i in 0..5 {
        reg.set_inactive(&path(i).to_label());
    }
    assert_eq!(reg.clear_inactive(3), 0);
    assert_eq!(reg.len(), 0);
}

#[test]
fn clear_inactive_keeps_active() {
    let mut reg = LogModelState::new();
    for i in 0..6 {
        reg.register(&path(i));
    }
    reg.set_inactive(&path(1).to_label());
    reg.set_inactive(&path(4).to_label());
    assert_eq!(reg.clear_inactive(2), 4);
    assert!(reg.get_path(&path(0).to_label()).is_some());
    assert!(reg.get_path(&path(1).to_label()).is_none());
    assert!(reg.get_path(&path(5).to_label()).is_some());
}

#[test]
fn clear_inactive_below_threshold_keeps_all() {
    let mut reg = LogModelState::new();
    reg.register(&path(0));
    reg.set_inactive(&path(0).to_label());
    assert_eq!(reg.clear_inactive(1), 1);
    assert_eq!(reg.clear_inactive(0), 0);
}

#[test]
fn register_is_idempotent() {
    let mut reg = LogModelState::new();
    reg.register(&path(7));
    reg.register(&path(7));
    assert_eq!(reg.len(), 1);
    assert_eq!(reg.get_path(&path(7).to_label()), Some("/logs/server_log_7.txt".to_string()));
}

#[test]
fn unknown_label_gives_empty_results() {
    let reg = LogModelState::new();
    assert_eq!(reg.to_ipc("nope"), "");
    assert!(reg.get_mod_id_list("nope").is_empty());
    assert!(reg.get_path("nope").is_none());
}

#[test]
fn unchanged_mtime_is_not_parsed_twice() {
    let mut m = LogModel::new(path(1));
    let mut parses = 0;
    for _ in 0..2 {
        if m.poll(true, 1000) == PollAction::Refresh {
            parses += 1;
            m.apply_content(1000, b"Mode: 64-bit\n");
        }
    }
    assert_eq!(parses, 1);
    assert_eq!(m.poll(true, 2000), PollAction::Refresh);
}

#[test]
fn poll_states() {
    let mut m = LogModel::new(path(2));
    assert_eq!(m.poll(false, 0), PollAction::Missing);
    assert!(!m.file_exists());
    assert_eq!(m.poll(true, 5), PollAction::Refresh);
    assert!(m.file_exists());
    m.deactivate();
    assert_eq!(m.poll(true, 6), PollAction::Idle);
}

#[test]
fn failed_refresh_is_retried() {
    let mut m = LogModel::new(path(3));
    assert_eq!(m.poll(true, 5), PollAction::Refresh);
    assert_eq!(m.poll(true, 5), PollAction::Refresh);
}

#[test]
fn refresh_publishes_snapshot() {
    let mut reg = LogModelState::new();
    let p = path(9);
    let label = p.to_label();
    reg.register(&p);
    assert_eq!(reg.poll(&label, true, 42), Some(PollAction::Refresh));
    let content = b"ModIndex:GetModsToLoad inserting moddir, \tworkshop-9\nLoading mod: workshop-9 (Nine) Version:1\n";
    reg.apply_content(&label, 42, content);
    assert_eq!(reg.poll(&label, true, 42), Some(PollAction::Unchanged));
    assert_eq!(reg.get_mod_id_list(&label), vec!["9".to_string()]);
    let json = reg.to_ipc(&label);
    assert!(json.starts_with(&format!("{{\"label\":\"{}\",\"active\":true,\"exists\":true,\"mtime\":0.042,\"comment\":{{", label)));
    assert!(json.contains("\"debug_content\":\"ModIndex"));
    assert_eq!(reg.poll("gone", true, 42), None);
}

#[test]
fn head_holds_first_bytes() {
    let mut m = LogModel::new(path(4));
    let big = vec![b'a'; 5000];
    m.apply_content(1, &big);
    assert_eq!(m.head().len(), 4096);
    m.apply_content(2, b"xy");
    assert_eq!(m.head(), b"xy");
}

#[test]
fn fresh_model_snapshot() {
    let m = LogModel::new(path(5));
    assert!(m.is_active());
    assert_eq!(m.label(), path(5).to_label());
    assert!(*m.path() == path(5));
    assert!(m.get_mod_id_list().is_empty());
    assert_eq!(m.comment().line_count(), 0);
}

#[test]
fn room_is_made_by_clearing_inactive() {
    let mut reg = LogModelState::new();
    for i in 0..4 {
        reg.register(&path(i));
    }
    assert!(!reg.make_room(4));
    reg.set_inactive(&path(0).to_label());
    assert!(reg.make_room(4));
    assert_eq!(reg.len(), 3);
}

#[test]
fn snapshot_time_is_in_seconds() {
    let mut m = LogModel::new(path(6));
    assert!(m.to_ipc().contains("\"mtime\":0.000,"));
    m.apply_content(1_700_000_123_456, b"");
    assert!(m.to_ipc().contains("\"mtime\":1700000123.456,"));
    m.apply_content(5_007, b"");
    assert!(m.to_ipc().contains("\"mtime\":5.007,"));
}
