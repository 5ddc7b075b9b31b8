use remote_fs::client::{FileInfo, FileKind, LookupStep, RemoteFS};

fn client() -> RemoteFS {
    RemoteFS::new("http://127.0.0.1:8080".to_string(), "tok".to_string(), 1000, 1000)
}

fn info(name: &str, size: u64, is_directory: bool) -> FileInfo {
    FileInfo {
        permissions: 0o644,
        links: 1,
        owner: "alice".to_string(),
        group: "users".to_string(),
        size,
        modified: "2024-01-02T03:04:05+00:00".to_string(),
        name: name.to_string(),
        is_directory,
    }
}

#[test]
fn root_is_inode_one() {
    let fs = client();
    assert_eq!(fs.get_path(1).unwrap(), "");
    assert!(fs.get_path(2).is_none());
    assert!(fs.get_path(0).is_none());
}

#[test]
fn register_path_allocates_monotonically_and_idempotently() {
    let mut fs = client();
    let a = fs.register_path("/docs");
    let b = fs.register_path("/docs/a.txt");
    assert_eq!(a, 2);
    assert_eq!(b, 3);
    assert_eq!(fs.register_path("/docs"), 2);
    assert_eq!(fs.exist_path("/docs/a.txt"), Some(3));
    assert_eq!(fs.exist_path("/nope"), None);
    assert_eq!(fs.get_path(3).unwrap(), "/docs/a.txt");
}

#[test]
fn parent_is_recorded_iff_registered_first() {
    let mut fs = client();
    let d = fs.register_path("/docs");
    let f = fs.register_path("/docs/a.txt");
    // the parent "/docs" was registered, so the child records it
    assert_eq!(fs.parent_of[(f - 1) as usize], Some(d));
    // a child registered before its parent records none
    let orphan = fs.register_path("/late/child.txt");
    assert_eq!(fs.parent_of[(orphan - 1) as usize], None);
}

#[test]
fn join_path_avoids_double_slashes() {
    assert_eq!(RemoteFS::join_path("/", "a"), "/a");
    assert_eq!(RemoteFS::join_path("/docs", "a.txt"), "/docs/a.txt");
    assert_eq!(RemoteFS::join_path("", "docs"), "/docs");
}

#[test]
fn spurious_lookups_short_circuit() {
    let fs = client();
    for name in ["12345", "0", "drwxr-xr-x", "total", "Total", "echo", "CAT", "ls", "mkdir", "rmdir"] {
        match fs.lookup_prepare(1, name) {
            LookupStep::Spurious => {},
            _ => panic!("{name} should be spurious"),
        }
    }
    match fs.lookup_prepare(1, "a.txt") {
        LookupStep::Ask(p) => assert_eq!(p, "/a.txt"),
        _ => panic!("real names are asked of the server"),
    }
    match fs.lookup_prepare(99, "a.txt") {
        LookupStep::Unknown => {},
        _ => panic!("unknown parents are refused"),
    }
}

#[test]
fn read_slice_clamps_to_the_body() {
    let body: Vec<u8> = b"hello world".to_vec();
    assert_eq!(remote_fs::client::read_slice(&body, 0, 5), b"hello".to_vec());
    assert_eq!(remote_fs::client::read_slice(&body, 6, 100), b"world".to_vec());
    assert_eq!(remote_fs::client::read_slice(&body, 0, 100), body);
    assert_eq!(remote_fs::client::read_slice(&body, 50, 4), Vec::<u8>::new());
    assert_eq!(remote_fs::client::read_slice(&body, -3, 4), b"hell".to_vec());
}

#[test]
fn readdir_begins_with_dot_and_dotdot() {
    let mut fs = client();
    let docs = fs.register_path("/docs");
    let files = vec![info("a.txt", 5, false), info("sub", 0, true)];
    let entries = fs.readdir_entries(docs, 0, &files).unwrap();
    assert_eq!(entries.len(), 4);
    assert_eq!(entries[0].name, ".");
    assert_eq!(entries[0].ino, docs);
    assert_eq!(entries[0].offset, 1);
    assert_eq!(entries[1].name, "..");
    assert_eq!(entries[1].ino, 1);
    assert_eq!(entries[1].offset, 2);
    assert_eq!(entries[2].name, "a.txt");
    assert_eq!(entries[2].kind, FileKind::RegularFile);
    assert_eq!(entries[2].offset, 3);
    assert_eq!(entries[3].name, "sub");
    assert_eq!(entries[3].kind, FileKind::Directory);
    assert_eq!(entries[3].offset, 4);
    // the children were registered under the directory's path
    assert!(fs.exist_path("/docs/a.txt").is_some());
    assert!(fs.exist_path("/docs/sub").is_some());
}

#[test]
fn readdir_resumes_from_the_offset() {
    let mut fs = client();
    let docs = fs.register_path("/docs");
    let files = vec![info("a", 1, false), info("b", 1, false), info("c", 1, false)];
    let entries = fs.readdir_entries(docs, 4, &files).unwrap();
    assert_eq!(entries.len(), 1);
    assert_eq!(entries[0].name, "c");
    assert!(fs.readdir_entries(99, 0, &files).is_none());
}

#[test]
fn attrs_come_from_the_reported_record() {
    let fs = client();
    let i = info("a.txt", 1000, false);
    let attr = fs.attr_from_info(7, &i, 55);
    assert_eq!(attr.ino, 7);
    assert_eq!(attr.size, 1000);
    assert_eq!(attr.blocks, 2);
    assert_eq!(attr.perm, 0o644);
    assert_eq!(attr.kind, FileKind::RegularFile);
    assert_eq!(attr.uid, 1000);
    assert_eq!(attr.gid, 1000);
    assert_eq!(attr.blksize, 512);
    // the modified timestamp parsed, so the fallback was not used
    let expect = chrono::DateTime::parse_from_rfc3339("2024-01-02T03:04:05+00:00")
        .unwrap()
        .timestamp();
    assert_eq!(attr.time_secs, expect);
}

#[test]
fn unparsable_timestamps_fall_back_to_now() {
    assert_eq!(remote_fs::client::parse_time("Dec  7 14:30", 99), 99);
    assert_eq!(remote_fs::client::parse_time("1970-01-01T00:00:10+00:00", 99), 10);
}

#[test]
fn blocks_round_up_and_floor_at_one() {
    let fs = client();
    assert_eq!(fs.attr_from_info(2, &info("e", 0, false), 0).blocks, 1);
    assert_eq!(fs.attr_from_info(2, &info("e", 512, false), 0).blocks, 1);
    assert_eq!(fs.attr_from_info(2, &info("e", 513, false), 0).blocks, 2);
}

#[test]
fn local_create_and_setattr_acknowledge() {
    let mut fs = client();
    let attr = fs.create_local(1, "fresh.txt", 5).unwrap();
    assert_eq!(attr.size, 0);
    assert_eq!(attr.perm, 0o644);
    assert!(fs.exist_path("/fresh.txt").is_some());
    assert!(fs.create_local(99, "x", 5).is_none());
    let attr = fs.setattr_attr(3, Some(42), 5);
    assert_eq!(attr.size, 42);
    let attr = fs.setattr_attr(3, None, 5);
    assert_eq!(attr.size, 0);
}

#[test]
fn root_attrs_are_synthetic() {
    let fs = client();
    let attr = fs.root_attr(77);
    assert_eq!(attr.ino, 1);
    assert_eq!(attr.kind, FileKind::Directory);
    assert_eq!(attr.perm, 0o755);
    assert_eq!(attr.blocks, 1);
    assert_eq!(attr.time_secs, 77);
}

#[test]
fn mkdir_complete_registers_and_replies() {
    let mut fs = client();
    let attr = fs.mkdir_complete("/docs", 9);
    assert_eq!(attr.ino, 2);
    assert_eq!(attr.kind, FileKind::Directory);
    assert_eq!(attr.perm, 0o755);
    assert_eq!(attr.nlink, 2);
    assert_eq!(fs.exist_path("/docs"), Some(2));
}
