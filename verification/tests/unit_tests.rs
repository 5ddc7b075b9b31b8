use remote_fs::catalog::{Catalog, FileMetadata};
use remote_fs::tree::FileSystem;
use remote_fs::error::FsError;
use remote_fs::perm;
use remote_fs::text;

const TS: &str = "2024-01-02T03:04:05+00:00";

#[test]
fn permission_strings_are_three_octal_digits() {
    assert!(perm::is_valid_permissions("644"));
    assert!(perm::is_valid_permissions("000"));
    assert!(perm::is_valid_permissions("777"));
    assert!(!perm::is_valid_permissions("778"));
    assert!(!perm::is_valid_permissions("64"));
    assert!(!perm::is_valid_permissions("6444"));
    assert!(!perm::is_valid_permissions("75a"));
    assert!(!perm::is_valid_permissions(""));
}

#[test]
fn permission_strings_parse_to_digits() {
    assert_eq!(perm::parse_permissions("644"), Some((6, 4, 4)));
    assert_eq!(perm::parse_permissions("750"), Some((7, 5, 0)));
    assert_eq!(perm::parse_permissions("999"), None);
}

#[test]
fn permissions_format_in_the_unix_style() {
    assert_eq!(perm::format_permissions(7, 5, 5, true), "drwxr-xr-x");
    assert_eq!(perm::format_permissions(6, 4, 4, false), "-rw-r--r--");
    assert_eq!(perm::format_permissions(0, 0, 0, false), "----------");
    assert_eq!(perm::format_permissions(6, 0, 0, false), "-rw-------");
}

#[test]
fn read_and_write_gates_consult_the_right_digit() {
    // owner consults the owner digit
    assert!(perm::can_read(1, 6, 0, 1));
    assert!(perm::can_write(1, 6, 0, 1));
    assert!(!perm::can_read(1, 2, 7, 1));
    // anyone else consults the others digit
    assert!(perm::can_read(1, 0, 4, 2));
    assert!(!perm::can_write(1, 7, 4, 2));
}

#[test]
fn metadata_rows_split_and_reassemble_modes() {
    let m = FileMetadata::new("docs", 1, 0o755, true, TS);
    assert_eq!(m.user_permissions, 7);
    assert_eq!(m.group_permissions, 5);
    assert_eq!(m.others_permissions, 5);
    assert_eq!(m.get_octal_permissions(), 0o755);
    assert_eq!(m.size, 0);
    assert_eq!(m.created_at, TS);
    assert!(m.is_directory);
}

#[test]
fn metadata_timestamps_update() {
    let mut m = FileMetadata::new("docs/a.txt", 1, 0o644, false, TS);
    m.update_modified_time("2024-06-01T00:00:00+00:00");
    assert_eq!(m.last_modified, "2024-06-01T00:00:00+00:00");
    assert_eq!(m.created_at, TS);
}

#[test]
fn catalog_insert_lookup_and_delete_subtree() {
    let mut cat = Catalog::new();
    assert!(cat.insert(FileMetadata::new("docs", 1, 0o755, true, TS)));
    assert!(cat.insert(FileMetadata::new("docs/a.txt", 1, 0o644, false, TS)));
    assert!(cat.insert(FileMetadata::new("docs2", 1, 0o755, true, TS)));
    // a second row under the same key is refused
    assert!(!cat.insert(FileMetadata::new("docs", 2, 0o700, true, TS)));
    assert!(cat.lookup("docs/a.txt").is_some());
    assert!(cat.lookup("docs/b.txt").is_none());
    cat.delete_subtree("docs");
    assert!(cat.lookup("docs").is_none());
    assert!(cat.lookup("docs/a.txt").is_none());
    // the sibling whose name only shares the prefix survives
    assert!(cat.lookup("docs2").is_some());
}

#[test]
fn catalog_updates_size_and_mtime_in_place() {
    let mut cat = Catalog::new();
    cat.insert(FileMetadata::new("a.txt", 1, 0o644, false, TS));
    cat.update_size_mtime("a.txt", 31, "2030-01-01T00:00:00+00:00");
    let m = cat.lookup("a.txt").unwrap();
    assert_eq!(m.size, 31);
    assert_eq!(m.last_modified, "2030-01-01T00:00:00+00:00");
    assert_eq!(m.user_permissions, 6);
    // updating an absent key changes nothing
    cat.update_size_mtime("missing", 9, TS);
    assert_eq!(cat.rows.len(), 1);
}

#[test]
fn paths_split_on_slashes_dropping_empties() {
    let parts = text::split_path("/a//b/c/");
    let views: Vec<&str> = parts.iter().map(|s| s.as_str()).collect();
    assert_eq!(views, vec!["a", "b", "c"]);
    assert!(text::split_path("").is_empty());
    assert!(text::split_path("///").is_empty());
}

#[test]
fn split_at_last_slash_gives_parent_and_base() {
    let (p, b) = text::split_at_last_slash("docs/sub/a.txt");
    assert_eq!(p, "docs/sub");
    assert_eq!(b, "a.txt");
    let (p, b) = text::split_at_last_slash("a.txt");
    assert_eq!(p, "");
    assert_eq!(b, "a.txt");
}

#[test]
fn numbers_render_in_decimal() {
    assert_eq!(text::u64_to_string(0), "0");
    assert_eq!(text::u64_to_string(90210), "90210");
    assert_eq!(text::i64_to_string(-42), "-42");
    assert_eq!(text::i64_to_string(7), "7");
}

#[test]
fn error_statuses_follow_the_uniform_mapping() {
    assert_eq!(FsError::NotFound.http_status(), 404);
    assert_eq!(FsError::Invalid.http_status(), 400);
    assert_eq!(FsError::Duplicate.http_status(), 409);
    assert_eq!(FsError::Denied.http_status(), 403);
    assert_eq!(FsError::Unauthenticated.http_status(), 401);
    assert_eq!(FsError::Internal.http_status(), 500);
}

#[test]
fn stale_rows_do_not_fail_creates() {
    // A row with no backing node: the create still succeeds and is
    // reported successful; the stale row stays and governs reads.
    let mut fs = FileSystem::new();
    let mut cat = Catalog::new();
    cat.insert(FileMetadata::new("ghost.txt", 9, 0o600, false, TS));
    fs.set_database(cat);
    fs.write_file("ghost.txt", "fresh", 1, "644", TS).unwrap();
    assert_eq!(fs.read_file("ghost.txt", 9).unwrap(), "fresh");
    assert!(fs.read_file("ghost.txt", 1).is_err());

    let mut fs = FileSystem::new();
    let mut cat = Catalog::new();
    cat.insert(FileMetadata::new("attic", 9, 0o700, true, TS));
    fs.set_database(cat);
    fs.make_dir_metadata("/", "attic", 1, "755", TS).unwrap();
    assert!(fs.find("/attic").is_some());
}
