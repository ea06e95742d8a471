use graphscope::registry::{scan_entry, DatabaseInfo, RegisterError, Registry};

fn scanned_info(name: &str, path: &str, relative: &str) -> DatabaseInfo {
    DatabaseInfo {
        id: 0,
        name: String::from(name),
        path: String::from(path),
        relative_path: String::from(relative),
    }
}

#[test]
fn listing_ids_are_contiguous_and_scanned_come_first() {
    let mut reg = Registry::new();
    // Path exists as far as the registry is told; extension is recognized.
    reg.add_database(0, "/tmp/extra.lbdb", "/tmp/extra.lbdb", true).unwrap();
    reg.add_database(0, "/tmp/more.lbdb", "/tmp/more.lbdb", true).unwrap();
    let scanned = vec![
        scanned_info("a", "/data/a.lbdb", "a.lbdb"),
        scanned_info("b", "/data/sub/b.lbdb", "sub/b.lbdb"),
    ];
    let all = reg.get_all_databases(&scanned);
    assert_eq!(all.len(), 4);
    for (i, d) in all.iter().enumerate() {
        assert_eq!(d.id, i);
    }
    assert_eq!(all[0].name, "a");
    assert_eq!(all[1].name, "b");
    assert_eq!(all[1].relative_path, "sub/b.lbdb");
    assert_eq!(all[2].name, "extra");
    assert_eq!(all[2].path, "/tmp/extra.lbdb");
    assert_eq!(all[3].name, "more");
}

#[test]
fn register_twice_succeeds_once_and_grows_by_one() {
    let mut reg = Registry::new();
    let first = reg.add_database(1, "/data/x.lbdb", "/data/x.lbdb", true);
    let info = first.unwrap();
    assert_eq!(info.id, 1);
    assert_eq!(info.name, "x");
    assert_eq!(info.path, "/data/x.lbdb");
    assert_eq!(reg.registered_count(), 1);
    let second = reg.add_database(1, "/data/x.lbdb", "/data/x.lbdb", true);
    assert_eq!(second.unwrap_err(), RegisterError::AlreadyRegistered);
    assert_eq!(reg.registered_count(), 1);
}

#[test]
fn register_rejects_empty_path() {
    let mut reg = Registry::new();
    let r = reg.add_database(0, "", "", true);
    assert_eq!(r.unwrap_err(), RegisterError::EmptyPath);
    assert_eq!(reg.registered_count(), 0);
}

#[test]
fn register_rejects_missing_file_unchanged() {
    let mut reg = Registry::new();
    let r = reg.add_database(0, "/data/gone.lbdb", "/data/gone.lbdb", false);
    assert_eq!(r.unwrap_err(), RegisterError::NotFound);
    assert_eq!(reg.registered_count(), 0);
}

#[test]
fn register_rejects_wrong_extension_unchanged() {
    let mut reg = Registry::new();
    let r = reg.add_database(0, "/data/notes.txt", "/data/notes.txt", true);
    assert_eq!(r.unwrap_err(), RegisterError::WrongExtension);
    // A bare extension with nothing before the dot is rejected too.
    let r2 = reg.add_database(0, "/data/.lbdb", "/data/.lbdb", true);
    assert_eq!(r2.unwrap_err(), RegisterError::WrongExtension);
    assert_eq!(reg.registered_count(), 0);
}

#[test]
fn error_messages_match_the_operation_boundary() {
    assert_eq!(RegisterError::EmptyPath.message(), "filePath is required");
    assert_eq!(RegisterError::NotFound.message(), "File not found");
    assert_eq!(RegisterError::WrongExtension.message(), "Only .lbdb files are supported");
    assert_eq!(RegisterError::AlreadyRegistered.message(), "Database already added");
}

#[test]
fn scan_entry_derives_name_and_relative_path() {
    let d = scan_entry("/data/sub/movies.lbdb", "/data").unwrap();
    assert_eq!(d.name, "movies");
    assert_eq!(d.path, "/data/sub/movies.lbdb");
    assert_eq!(d.relative_path, "sub/movies.lbdb");
}

#[test]
fn scan_entry_skips_other_files() {
    assert!(scan_entry("/data/readme.txt", "/data").is_none());
    assert!(scan_entry("/data/.lbdb", "/data").is_none());
    assert!(scan_entry("/data/archive.lbdb.bak", "/data").is_none());
}

#[test]
fn scan_entry_keeps_paths_outside_the_root() {
    let d = scan_entry("/elsewhere/x.lbdb", "/data").unwrap();
    assert_eq!(d.relative_path, "/elsewhere/x.lbdb");
}
