use ds_log::discovery::{
    is_archive_log_entry, is_client_backup_name, is_cloud_dir_name, is_cluster_dir_name,
    is_server_backup_name, is_user_dir_name,
};
use ds_log::summary::LogAbstract;

#[test]
fn backup_names() {
    assert!(is_client_backup_name("client_log_2025-01-12-20-35-47.txt"));
    assert!(!is_client_backup_name("client_log_2025-01-12-20-35-4.txt"));
    assert!(!is_client_backup_name("client_log_2025-01-12-20-35-47.log"));
    assert!(!is_client_backup_name("server_log_2025-01-12-20-35-47.txt"));
    assert!(is_server_backup_name("server_log_2023-04-01-21-43-15.txt"));
    assert!(!is_server_backup_name("server_log_2023_04-01-21-43-15.txt"));
}

#[test]
fn archive_entries() {
    assert!(is_archive_log_entry("server_log.txt"));
    assert!(is_archive_log_entry("backup/server_log/server_log_2023-03-28-21-10-49.txt"));
    assert!(!is_archive_log_entry("backup/server_log.txt"));
    assert!(!is_archive_log_entry("client_log.txt"));
}

#[test]
fn directory_names() {
    assert!(is_user_dir_name("12345"));
    assert!(!is_user_dir_name(""));
    assert!(!is_user_dir_name("12a"));
    assert!(is_cloud_dir_name("00CFB14F0C009004"));
    assert!(!is_cloud_dir_name("00cfb14f0c009004"));
    assert!(!is_cloud_dir_name("00CFB14F0C00900"));
    assert!(is_cluster_dir_name("Cluster_1"));
    assert!(!is_cluster_dir_name("cluster_1"));
}

#[test]
fn summary_of_a_log() {
    let a = LogAbstract::of_content(
        b"[00:00:01]: start\nLUA ERROR stack traceback:\n[01:02:03]: later\nno time\n",
    );
    assert!(a.has_lua_crash);
    assert_eq!(
        a.total_time,
        ("01".to_string(), "02".to_string(), "03".to_string())
    );
    assert_eq!(
        a.to_ipc("log.txt", "/x/log.txt", false),
        "{\"filename\":\"log.txt\",\"filepath\":\"/x/log.txt\",\"is_zip\":false,\"total_time\":[\"01\",\"02\",\"03\"],\"has_lua_crash\":true}"
    );
}

#[test]
fn summary_marker_must_start_the_line() {
    let a = LogAbstract::of_content(b"x LUA ERROR stack traceback:\n");
    assert!(!a.has_lua_crash);
    assert_eq!(a.total_time, (String::new(), String::new(), String::new()));
}

#[test]
fn summary_time_marker_may_end_the_line() {
    let a = LogAbstract::of_content(b"[1:2:3]:\n");
    assert_eq!(a.total_time, ("1".to_string(), "2".to_string(), "3".to_string()));
}
