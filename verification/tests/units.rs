use adb_sink::adb::{adb_connect, classify_adb_output, count_devices, shell_response_complete,
    shell_response_extract, AdbErr};
use adb_sink::entry::{hex2u32, FileMode, SyncFile};
use adb_sink::fs::{parse_ls_output, SyncError};
use adb_sink::path::{check_clean_path, path_file_name};
use adb_sink::strutil::{matches_any_prefix, rel_join, str_contains, str_starts_with};
use adb_sink::tree::Node;

#[test]
fn hex_parses_exact_values() {
    assert_eq!(hex2u32("0"), 0);
    assert_eq!(hex2u32("1f4"), 500);
    assert_eq!(hex2u32("1F4"), 500);
    assert_eq!(hex2u32("ffffffff"), u32::MAX);
    assert_eq!(hex2u32("000081a4"), 0x81a4);
}

#[test]
fn mode_words_decode() {
    assert_eq!(FileMode::from_u32(0o100644), FileMode::File);
    assert_eq!(FileMode::from_u32(0o040755), FileMode::Dir);
    assert_eq!(FileMode::from_u32(0o120777), FileMode::Symlink);
    assert_eq!(FileMode::try_from_u32(0o100644), Some(FileMode::File));
    assert_eq!(FileMode::try_from_u32(0), None);
    assert_eq!(FileMode::from_flags(true, false, false), Some(FileMode::Dir));
    assert_eq!(FileMode::from_flags(false, true, false), Some(FileMode::File));
    assert_eq!(FileMode::from_flags(false, false, true), Some(FileMode::Symlink));
    assert_eq!(FileMode::from_flags(false, false, false), None);
}

#[test]
fn clean_paths_recognized() {
    assert!(check_clean_path("/sdcard/music"));
    assert!(check_clean_path("music"));
    assert!(!check_clean_path(""));
    assert!(!check_clean_path("/"));
    assert!(!check_clean_path("/a/"));
    assert!(!check_clean_path("/a//b"));
    assert!(!check_clean_path("/a/./b"));
    assert!(!check_clean_path("/a/../b"));
    assert!(check_clean_path("/a/.hidden"));
    assert!(check_clean_path("/a/..three"));
}

#[test]
fn strip_prefix_matches_whole_components() {
    // through the public constructor: the identity key is the stripped path
    let sf = |path: &str| SyncFile {
        mode: FileMode::File,
        size: 0,
        timestamp: 0,
        name: "x".to_string(),
        path: path.to_string(),
    };
    assert_eq!(Node::new(sf("/test/haha/foo.txt"), "/test").unwrap().strip_path, "haha/foo.txt");
    assert_eq!(Node::new(sf("/test"), "/test").unwrap().strip_path, "");
    assert!(matches!(Node::new(sf("/ab/cd"), "/ab/c"), Err(SyncError::PrefixMismatch)));
}

#[test]
fn rel_join_extends_a_key() {
    assert_eq!(rel_join("", "top"), "top");
    assert_eq!(rel_join("a", "b"), "a/b");
}

#[test]
fn file_name_is_last_component() {
    assert_eq!(path_file_name("/a/b/c.txt"), "c.txt");
    assert_eq!(path_file_name("plain"), "plain");
}

#[test]
fn string_helpers() {
    assert!(str_starts_with("adb: error: x", "adb: error:"));
    assert!(!str_starts_with("adb", "adb: error:"));
    assert!(str_contains("x\tdevice y", "\tdevice"));
    assert!(!str_contains("x\toffline", "\tdevice"));
    assert!(matches_any_prefix("cache/tmp", &vec!["cache".to_string()]));
    assert!(!matches_any_prefix("music", &vec!["cache".to_string()]));
}

#[test]
fn node_new_strips_prefix_or_fails() {
    let sf = SyncFile {
        mode: FileMode::File,
        size: 1,
        timestamp: 2,
        name: "f".to_string(),
        path: "/root/d/f".to_string(),
    };
    let n = Node::new(sf, "/root").unwrap();
    assert_eq!(n.strip_path, "d/f");

    let sf2 = SyncFile {
        mode: FileMode::File,
        size: 1,
        timestamp: 2,
        name: "f".to_string(),
        path: "/other/f".to_string(),
    };
    assert!(matches!(Node::new(sf2, "/root"), Err(SyncError::PrefixMismatch)));

    let sf3 = SyncFile {
        mode: FileMode::File,
        size: 1,
        timestamp: 2,
        name: "f".to_string(),
        path: "/root//f".to_string(),
    };
    assert!(matches!(Node::new(sf3, "/root"), Err(SyncError::MalformedPath)));
}

#[test]
fn listing_lines_decode() {
    let op = "000041ed 00001000 5f000000 somedir\n000081a4 0000000a 00000064 my file.txt\n";
    let files = parse_ls_output(op, "/sd").unwrap();
    assert_eq!(files.len(), 2);
    assert_eq!(files[0].mode, FileMode::Dir);
    assert_eq!(files[0].size, 0x1000);
    assert_eq!(files[0].timestamp, 0x5f000000);
    assert_eq!(files[0].name, "somedir");
    assert_eq!(files[0].path, "/sd/somedir");
    assert_eq!(files[1].mode, FileMode::File);
    assert_eq!(files[1].size, 10);
    assert_eq!(files[1].timestamp, 100);
    assert_eq!(files[1].name, "my file.txt");
    assert_eq!(files[1].path, "/sd/my file.txt");
}

#[test]
fn listing_skips_self_references() {
    let op = "000041ed 00000000 00000000 .\n000041ed 00000000 00000000 ..\n";
    let files = parse_ls_output(op, "/sd").unwrap();
    assert!(files.is_empty());
}

#[test]
fn malformed_listing_is_fatal() {
    assert!(matches!(parse_ls_output("garbage", "/sd"), Err(SyncError::MalformedListing)));
    assert!(matches!(parse_ls_output("zzz 00 00 x\n", "/sd"), Err(SyncError::MalformedListing)));
    // a mode word with unrecognized type bits
    assert!(matches!(
        parse_ls_output("00000000 00000001 00000001 f\n", "/sd"),
        Err(SyncError::MalformedListing)
    ));
    // a decode directory that is not slash-normalized
    assert!(matches!(parse_ls_output("", "/sd/"), Err(SyncError::MalformedPath)));
}

#[test]
fn empty_listing_is_empty() {
    assert!(parse_ls_output("", "/sd").unwrap().is_empty());
}

#[test]
fn device_lines_counted() {
    assert_eq!(count_devices("emulator-5554\tdevice\n"), 1);
    assert_eq!(count_devices("a\tdevice\r\nb\tdevice\r\n"), 2);
    assert_eq!(count_devices("a\toffline\n"), 0);
    assert!(adb_connect("a\tdevice\n").unwrap());
    assert!(!adb_connect("List of devices attached\n").unwrap());
    assert!(matches!(adb_connect("a\tdevice\nb\tdevice\n"), Err(AdbErr::Adb(_))));
}

#[test]
fn adb_output_classified() {
    assert_eq!(classify_adb_output(String::new(), "ok\n".to_string()).unwrap(), "ok\n");
    assert!(matches!(
        classify_adb_output("boom".to_string(), String::new()),
        Err(AdbErr::Adb(m)) if m == "boom"
    ));
    assert!(matches!(
        classify_adb_output(String::new(), "adb: error: no device".to_string()),
        Err(AdbErr::Adb(m)) if m == "adb: error: no device"
    ));
}

#[test]
fn shell_sentinel_found_and_stripped() {
    assert!(shell_response_complete("hello\nADBSYNCEND\n"));
    assert!(shell_response_complete("ADBSYNCEND"));
    assert!(!shell_response_complete("hello\n"));
    assert!(!shell_response_complete("ADBSYNC"));
    assert_eq!(shell_response_extract("hello\nADBSYNCEND\n"), "hello\n");
    assert_eq!(shell_response_extract("ADBSYNCEND\r\n"), "");
}
