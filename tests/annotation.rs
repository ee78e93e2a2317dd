use ds_log::annotation::{parse_log_content, LogComment, LogState, MAX_LINE_LEN};

fn parse(text: &str) -> LogComment {
    parse_log_content(text.as_bytes())
}

#[test]
fn launch_lines_give_build_facts() {
    let c = parse(
        "[00:01:02]: Don't Starve Together: 654321 WIN32_STEAM\nMode: 64-bit\ncGame::StartPlaying\n",
    );
    assert_eq!(c.build_version(), "654321");
    assert_eq!(c.build_platform(), "WIN32_STEAM");
    assert_eq!(c.build_arch(), "64-bit");
    assert_eq!(c.total_time(), (0, 1, 2));
    assert_eq!(c.line_count(), 3);
}

#[test]
fn single_player_title_line() {
    let c = parse("Don't Starve: 578406 OSX_STEAM\n");
    assert_eq!(c.build_version(), "578406");
    assert_eq!(c.build_platform(), "OSX_STEAM");
}

#[test]
fn version_is_captured_once() {
    let c = parse("Don't Starve: 1 A\nDon't Starve: 2 B\n");
    assert_eq!(c.build_version(), "1");
    assert_eq!(c.build_platform(), "A");
}

#[test]
fn start_playing_fills_unknown() {
    let c = parse("cGame::StartPlaying\n");
    assert_eq!(c.build_version(), "unknown");
    assert_eq!(c.build_platform(), "unknown");
    assert_eq!(c.build_arch(), "unknown");
}

#[test]
fn start_playing_keeps_known_facts() {
    let c = parse("Mode: 32-bit\ncGame::StartPlaying\r\n");
    assert_eq!(c.build_arch(), "32-bit");
    assert_eq!(c.build_version(), "unknown");
}

#[test]
fn bundle_successful_and_skipped() {
    let c = parse(
        "Mounting file system databundles/klump.zip successful.\nMounting file system databundles/images.zip skipped.\n",
    );
    assert_eq!(c.bundle_state("klump.zip"), Some(true));
    assert_eq!(c.bundle_state("images.zip"), Some(false));
    assert_eq!(c.bundle_state("other.zip"), None);
}

#[test]
fn bundle_last_write_wins() {
    let c = parse(
        "Mounting file system databundles/klump.zip successful.\nMounting file system databundles/klump.zip skipped.\n",
    );
    assert_eq!(c.bundle_state("klump.zip"), Some(false));
}

#[test]
fn bundle_line_needs_exact_ending() {
    let c = parse("Mounting file system databundles/klump.zip successful. extra\n");
    assert_eq!(c.bundle_state("klump.zip"), None);
}

#[test]
fn workshop_mod_is_recorded() {
    let c = parse(
        "ModIndex:GetModsToLoad inserting moddir, \tworkshop-111\nLoading mod: workshop-111 (Craft Pot) Version:0.15.0\n",
    );
    let m = c.loaded_mod("workshop-111").unwrap();
    assert_eq!(m.name(), "Craft Pot");
    assert_eq!(m.version(), Some("0.15.0".to_string()));
    assert_eq!(m.workshop_id(), Some("111".to_string()));
    assert_eq!(c.workshop_ids(), vec!["111".to_string()]);
}

#[test]
fn local_mod_is_recorded() {
    let c = parse(
        "ModIndex:GetModsToLoad inserting moddir, \tmoddir123\nLoading mod: moddir123 (My Mod)\n",
    );
    let m = c.loaded_mod("moddir123").unwrap();
    assert_eq!(m.name(), "My Mod");
    assert_eq!(m.version(), None);
    assert_eq!(m.workshop_id(), None);
    assert!(c.workshop_ids().is_empty());
}

#[test]
fn unregistered_local_mod_is_ignored() {
    let c = parse("Loading mod: moddir123 (My Mod)\n");
    assert!(c.loaded_mod("moddir123").is_none());
}

#[test]
fn first_load_of_a_mod_wins() {
    let c = parse(
        "Loading mod: workshop-5 (First) Version:1\nFrontend-Loading mod: workshop-5 (Second) Version:2\n",
    );
    let m = c.loaded_mod("workshop-5").unwrap();
    assert_eq!(m.name(), "First");
    assert_eq!(m.version(), Some("1".to_string()));
}

#[test]
fn frontend_prefix_and_source_marker() {
    let c = parse("[00:00:09]: scripts/mods.lua(179,1) Fontend-Loading mod: workshop-42 (Geo)\n");
    let m = c.loaded_mod("workshop-42").unwrap();
    assert_eq!(m.name(), "Geo");
    assert_eq!(c.total_time(), (0, 0, 9));
}

#[test]
fn lua_error_sets_crash_only() {
    let c = parse("LUA ERROR stack traceback:\n");
    assert!(c.has_lua_crash());
    assert!(!c.has_stacktrace());
    assert!(!c.has_c_crash());
    assert_eq!(c.build_version(), "");
    assert_eq!(c.build_arch(), "");
}

#[test]
fn lua_error_inside_a_line() {
    let c = parse("[01:02:03]: something LUA ERROR stack traceback: here\n");
    assert!(c.has_lua_crash());
    assert_eq!(c.total_time(), (1, 2, 3));
}

#[test]
fn stack_traceback_sentinel() {
    let c = parse("stack traceback:\n");
    assert!(c.has_stacktrace());
    assert!(!c.has_lua_crash());
}

#[test]
fn overlong_line_is_counted_only() {
    let mut line = String::from("Mode: ");
    while line.len() <= MAX_LINE_LEN {
        line.push('x');
    }
    let mut c = LogComment::new();
    c.parse_line_u8(line.as_bytes());
    assert_eq!(c.line_count(), 1);
    assert_eq!(c.build_arch(), "");
    let mut d = LogComment::new();
    d.parse_line_u8(&line.as_bytes()[..MAX_LINE_LEN]);
    assert_eq!(d.build_arch().len(), MAX_LINE_LEN - 6);
}

#[test]
fn last_timestamp_wins() {
    let c = parse("[00:00:01]: a\n[12:34:56]: b\nno time here\n");
    assert_eq!(c.total_time(), (12, 34, 56));
}

#[test]
fn timestamp_must_fit_in_first_twenty_chars() {
    let c = parse("[0000000001:00:00]: x\n[1:2:3]:x\n");
    assert_eq!(c.total_time(), (1, 0, 0));
    let d = parse("[00000000001:00:00]: x\n");
    assert_eq!(d.total_time(), (0, 0, 0));
}

#[test]
fn timestamp_too_large_is_not_a_timestamp() {
    let c = parse("[99999999999:0:0]: x\n");
    assert_eq!(c.total_time(), (0, 0, 0));
}

#[test]
fn terminators_are_stripped() {
    let c = parse("stack traceback:\t\r\n");
    assert!(c.has_stacktrace());
}

#[test]
fn invalid_utf8_is_tolerated() {
    let mut bytes = b"Mode: 64-bit\n".to_vec();
    bytes.extend_from_slice(&[0xff, 0xfe, b'\n']);
    let c = parse_log_content(&bytes);
    assert_eq!(c.build_arch(), "64-bit");
    assert_eq!(c.line_count(), 2);
}

#[test]
fn last_line_without_newline() {
    let c = parse("Mode: arm64");
    assert_eq!(c.build_arch(), "arm64");
    assert_eq!(c.line_count(), 1);
}

#[test]
fn empty_log() {
    let c = parse("");
    assert_eq!(c.line_count(), 0);
    assert_eq!(
        c.to_ipc(),
        "{\"fields\":[],\"has_stacktrace\":false,\"has_lua_crash\":false,\"has_c_crash\":false,\"build_version\":\"\",\"build_platform\":\"\",\"build_arch\":\"\",\"databundles_mounting_state\":{},\"mods\":[],\"total_time\":[0,0,0]}"
    );
}

#[test]
fn annotation_json() {
    let c = parse(
        "[00:01:02]: Don't Starve Together: 654321 WIN32_STEAM\nMounting file system databundles/klump.zip successful.\nLoading mod: workshop-111 (Craft \"Pot\") Version:0.15.0\nLUA ERROR stack traceback:\n",
    );
    assert_eq!(
        c.to_ipc(),
        "{\"fields\":[],\"has_stacktrace\":false,\"has_lua_crash\":true,\"has_c_crash\":false,\"build_version\":\"654321\",\"build_platform\":\"WIN32_STEAM\",\"build_arch\":\"\",\"databundles_mounting_state\":{\"klump.zip\":true},\"mods\":[{\"moddir\":\"workshop-111\",\"name\":\"Craft \\\"Pot\\\"\",\"version\":\"0.15.0\",\"workshop_id\":\"111\"}],\"total_time\":[0,1,2]}"
    );
}

#[test]
fn parse_state_default() {
    let s = LogState::default();
    assert_eq!(s.line_count(), 0);
}

#[test]
fn decoded_line_rules() {
    let mut c = LogComment::new();
    let line: Vec<char> = "[00:10:00]: Mode: x86_64".chars().collect();
    c.parse_line_chars(&line);
    assert_eq!(c.build_arch(), "x86_64");
    assert_eq!(c.total_time(), (0, 10, 0));
    assert_eq!(c.line_count(), 0);
}
