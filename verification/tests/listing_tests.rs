use graphscope::listing::{build_listing, classify_entry, EntryKind, RawDirEntry};
use graphscope::paths::{db_display_name, file_name_part, has_db_extension, relative_to};

fn raw(name: &str, path: &str, is_dir: bool) -> RawDirEntry {
    RawDirEntry { name: String::from(name), path: String::from(path), is_dir }
}

#[test]
fn file_name_part_takes_the_last_component() {
    assert_eq!(file_name_part("/data/sub/x.lbdb"), "x.lbdb");
    assert_eq!(file_name_part("plain.lbdb"), "plain.lbdb");
    assert_eq!(file_name_part(""), "");
}

#[test]
fn extension_requires_a_stem() {
    assert!(has_db_extension("/data/x.lbdb"));
    assert!(has_db_extension("/data/a.b.lbdb"));
    assert!(!has_db_extension("/data/.lbdb"));
    assert!(!has_db_extension("/data/x.txt"));
    assert!(!has_db_extension("/data/lbdb"));
}

#[test]
fn display_name_strips_the_extension() {
    assert_eq!(db_display_name("/data/movies.lbdb"), "movies");
    assert_eq!(db_display_name("/data/a.b.lbdb"), "a.b");
}

#[test]
fn relative_path_strips_the_root_prefix() {
    assert_eq!(relative_to("/data/x.lbdb", "/data"), "x.lbdb");
    assert_eq!(relative_to("/data/sub/x.lbdb", "/data"), "sub/x.lbdb");
    assert_eq!(relative_to("/elsewhere/x.lbdb", "/data"), "/elsewhere/x.lbdb");
    assert_eq!(relative_to("/database/x.lbdb", "/data"), "/database/x.lbdb");
}

#[test]
fn hidden_entries_are_not_listed() {
    assert!(classify_entry(&raw(".hidden", "/d/.hidden", true)).is_none());
    assert!(classify_entry(&raw(".secret.lbdb", "/d/.secret.lbdb", false)).is_none());
}

#[test]
fn directories_are_listed_unconditionally() {
    let d = classify_entry(&raw("stuff.txt", "/d/stuff.txt", true)).unwrap();
    assert!(matches!(d.kind, EntryKind::Directory));
    assert_eq!(d.name, "stuff.txt");
}

#[test]
fn only_database_files_are_listed_with_stripped_names() {
    let f = classify_entry(&raw("movies.lbdb", "/d/movies.lbdb", false)).unwrap();
    assert!(matches!(f.kind, EntryKind::File));
    assert_eq!(f.name, "movies");
    assert_eq!(f.path, "/d/movies.lbdb");
    assert!(classify_entry(&raw("notes.txt", "/d/notes.txt", false)).is_none());
}

#[test]
fn listing_splits_and_sorts_by_name() {
    let entries = vec![
        raw("zeta", "/d/zeta", true),
        raw("beta.lbdb", "/d/beta.lbdb", false),
        raw(".git", "/d/.git", true),
        raw("alpha", "/d/alpha", true),
        raw("alpha.lbdb", "/d/alpha.lbdb", false),
        raw("notes.md", "/d/notes.md", false),
    ];
    let l = build_listing(String::from("/d"), String::from("/"), &entries);
    assert_eq!(l.current, "/d");
    assert_eq!(l.parent, "/");
    let dir_names: Vec<&str> = l.directories.iter().map(|e| e.name.as_str()).collect();
    assert_eq!(dir_names, vec!["alpha", "zeta"]);
    let file_names: Vec<&str> = l.files.iter().map(|e| e.name.as_str()).collect();
    assert_eq!(file_names, vec!["alpha", "beta"]);
    assert_eq!(l.files[1].path, "/d/beta.lbdb");
}

#[test]
fn empty_directory_lists_nothing() {
    let l = build_listing(String::from("/d"), String::from("/"), &vec![]);
    assert!(l.directories.is_empty());
    assert!(l.files.is_empty());
}
