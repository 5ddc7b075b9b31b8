use remote_fs::auth::{LoginRequest, RegisterRequest};
use remote_fs::error::FsError;
use remote_fs::router::Server;

const NOW: u64 = 1000;
const TS: &str = "2024-01-02T03:04:05+00:00";

fn signup(server: &mut Server, user: &str, pass: &str) -> String {
    server
        .register(RegisterRequest { username: user.to_string(), password: pass.to_string() })
        .unwrap();
    let resp = server
        .login(LoginRequest { username: user.to_string(), password: pass.to_string() }, NOW)
        .unwrap();
    format!("Bearer {}", resp.token)
}

fn alice_server() -> (Server, String) {
    let mut server = Server::new();
    let header = signup(&mut server, "alice", "secret1");
    (server, header)
}

#[test]
fn missing_or_malformed_header_is_401() {
    let (mut server, _t) = alice_server();
    let r = server.list_dir(None, "", NOW);
    assert_eq!(r.unwrap_err().http_status(), 401);
    let r = server.list_dir(Some("Token abc"), "", NOW);
    assert_eq!(r.unwrap_err().http_status(), 401);
}

#[test]
fn expired_token_is_401() {
    let (mut server, t) = alice_server();
    let r = server.list_dir(Some(t.as_str()), "", NOW + 3600);
    assert_eq!(r.unwrap_err().http_status(), 401);
}

#[test]
fn mkdir_then_list_shows_the_directory() {
    // Register alice, mkdir docs, and the root listing carries it.
    let (mut server, t) = alice_server();
    server.mkdir(Some(t.as_str()), "docs", None, NOW, TS).unwrap();
    let listing = server.list_dir_with_empty_path(Some(t.as_str()), NOW).unwrap();
    assert_eq!(listing.len(), 1);
    assert_eq!(listing[0].name, "docs");
    assert!(listing[0].is_directory);
    assert_eq!(listing[0].owner, "alice");
    assert_eq!(listing[0].permissions, "drwxr-xr-x");
    assert_eq!(listing[0].modified, TS);
}

#[test]
fn put_then_get_returns_the_body() {
    let (mut server, t) = alice_server();
    server.mkdir(Some(t.as_str()), "docs", None, NOW, TS).unwrap();
    server
        .write_file(Some(t.as_str()), "docs/a.txt", "hello", Some("644"), NOW, TS)
        .unwrap();
    let body = server.read_file(Some(t.as_str()), "docs/a.txt", NOW).unwrap();
    assert_eq!(body, "hello");
    let listing = server.list_dir(Some(t.as_str()), "docs", NOW).unwrap();
    assert_eq!(listing.len(), 1);
    assert_eq!(listing[0].name, "a.txt");
    assert_eq!(listing[0].size, 5);
    assert_eq!(listing[0].permissions, "-rw-r--r--");
}

#[test]
fn put_twice_returns_the_second_body() {
    let (mut server, t) = alice_server();
    server.write_file(Some(t.as_str()), "x", "B1", None, NOW, TS).unwrap();
    server.write_file(Some(t.as_str()), "x", "B2", None, NOW, TS).unwrap();
    assert_eq!(server.read_file(Some(t.as_str()), "x", NOW).unwrap(), "B2");
    let listing = server.list_dir_with_empty_path(Some(t.as_str()), NOW).unwrap();
    assert_eq!(listing[0].size, 2);
}

#[test]
fn mkdir_twice_is_conflict() {
    let (mut server, t) = alice_server();
    assert!(server.mkdir(Some(t.as_str()), "x", None, NOW, TS).is_ok());
    let r = server.mkdir(Some(t.as_str()), "x", None, NOW, TS);
    assert_eq!(r.unwrap_err().http_status(), 409);
}

#[test]
fn delete_twice_is_not_found() {
    let (mut server, t) = alice_server();
    server.write_file(Some(t.as_str()), "x", "B", None, NOW, TS).unwrap();
    assert!(server.delete_file(Some(t.as_str()), "x", NOW).is_ok());
    let r = server.delete_file(Some(t.as_str()), "x", NOW);
    assert_eq!(r.unwrap_err().http_status(), 404);
}

#[test]
fn other_user_is_gated_by_others_bits() {
    // Owner-readable-by-all content is served to bob; 600 content is not.
    let (mut server, t) = alice_server();
    server.mkdir(Some(t.as_str()), "docs", None, NOW, TS).unwrap();
    server
        .write_file(Some(t.as_str()), "docs/a.txt", "hello", Some("644"), NOW, TS)
        .unwrap();
    server
        .write_file(Some(t.as_str()), "docs/b.txt", "private", Some("600"), NOW, TS)
        .unwrap();
    let u = signup(&mut server, "bob", "secret2");
    assert_eq!(server.read_file(Some(u.as_str()), "docs/a.txt", NOW).unwrap(), "hello");
    let r = server.read_file(Some(u.as_str()), "docs/b.txt", NOW);
    assert_eq!(r.unwrap_err().http_status(), 403);
    // bob sees only the world-readable entry in the listing
    let listing = server.list_dir(Some(u.as_str()), "docs", NOW).unwrap();
    assert_eq!(listing.len(), 1);
    assert_eq!(listing[0].name, "a.txt");
}

#[test]
fn mkdir_under_a_missing_parent_is_404() {
    let (mut server, t) = alice_server();
    let r = server.mkdir(Some(t.as_str()), "a/b/c", None, NOW, TS);
    assert_eq!(r.unwrap_err().http_status(), 404);
}

#[test]
fn delete_directory_removes_its_rows() {
    let (mut server, t) = alice_server();
    server.mkdir(Some(t.as_str()), "docs", None, NOW, TS).unwrap();
    server
        .write_file(Some(t.as_str()), "docs/a.txt", "hello", None, NOW, TS)
        .unwrap();
    server.delete_file(Some(t.as_str()), "docs", NOW).unwrap();
    let listing = server.list_dir_with_empty_path(Some(t.as_str()), NOW).unwrap();
    assert!(listing.iter().all(|e| e.name != "docs"));
    let fs = server.fs.as_ref().unwrap();
    let rows = &fs.catalog.as_ref().unwrap().rows;
    assert!(rows.iter().all(|m| m.path != "docs" && !m.path.starts_with("docs/")));
}

#[test]
fn write_without_write_permission_on_parent_is_403() {
    let (mut server, t) = alice_server();
    server.mkdir(Some(t.as_str()), "docs", Some("755"), NOW, TS).unwrap();
    let u = signup(&mut server, "bob", "secret2");
    let r = server.write_file(Some(u.as_str()), "docs/evil.txt", "boo", None, NOW, TS);
    assert_eq!(r.unwrap_err().http_status(), 403);
}

#[test]
fn test_list_dir_dotdot() {
    let (mut server, t) = alice_server();
    server.mkdir(Some(t.as_str()), "test_dir", None, NOW, TS).unwrap();
    server.mkdir(Some(t.as_str()), "test_dir/dir1", None, NOW, TS).unwrap();
    server
        .write_file(Some(t.as_str()), "test_dir/file1.txt", "content", None, NOW, TS)
        .unwrap();
    let listing = server.list_dir(Some(t.as_str()), "test_dir/dir1/../", NOW).unwrap();
    let names: Vec<&str> = listing.iter().map(|e| e.name.as_str()).collect();
    assert!(names.contains(&"file1.txt"));
    assert!(names.contains(&"dir1"));
}

#[test]
fn test_list_dir_not_found_api() {
    let (mut server, t) = alice_server();
    server.mkdir(Some(t.as_str()), "test_dir", None, NOW, TS).unwrap();
    let r = server.list_dir(Some(t.as_str()), "test_dir/non_existant", NOW);
    assert_eq!(r.unwrap_err().http_status(), 404);
}

#[test]
fn test_list_dir_outside_root() {
    let (mut server, t) = alice_server();
    let r = server.list_dir(Some(t.as_str()), "../../etc", NOW);
    assert_eq!(r.unwrap_err().http_status(), 404);
}

#[test]
fn test_read_file_dotdot() {
    let (mut server, t) = alice_server();
    server.mkdir(Some(t.as_str()), "test_dir", None, NOW, TS).unwrap();
    server.mkdir(Some(t.as_str()), "test_dir/dir1", None, NOW, TS).unwrap();
    server
        .write_file(Some(t.as_str()), "test_dir/file1.txt", "content", None, NOW, TS)
        .unwrap();
    let body = server
        .read_file(Some(t.as_str()), "test_dir/dir1/../file1.txt", NOW)
        .unwrap();
    assert_eq!(body, "content");
}

#[test]
fn test_file_contents_bad_request() {
    // Reading a directory is an invalid request.
    let (mut server, t) = alice_server();
    server.mkdir(Some(t.as_str()), "test_dir", None, NOW, TS).unwrap();
    server.mkdir(Some(t.as_str()), "test_dir/dir1", None, NOW, TS).unwrap();
    let r = server.read_file(Some(t.as_str()), "test_dir/dir1", NOW);
    assert_eq!(r.unwrap_err().http_status(), 400);
}

#[test]
fn test_write_file_dotdot() {
    let (mut server, t) = alice_server();
    server.mkdir(Some(t.as_str()), "test_dir", None, NOW, TS).unwrap();
    server.mkdir(Some(t.as_str()), "test_dir/dir1", None, NOW, TS).unwrap();
    server
        .write_file(
            Some(t.as_str()),
            "test_dir/dir1/../file_dotdot.txt",
            "dotdot content",
            None,
            NOW,
            TS,
        )
        .unwrap();
    let body = server
        .read_file(Some(t.as_str()), "test_dir/file_dotdot.txt", NOW)
        .unwrap();
    assert_eq!(body, "dotdot content");
}

#[test]
fn test_write_file_not_found() {
    let (mut server, t) = alice_server();
    server.mkdir(Some(t.as_str()), "test_dir", None, NOW, TS).unwrap();
    let r = server.write_file(
        Some(t.as_str()),
        "test_dir/non_existant_dir/file.txt",
        "should fail",
        None,
        NOW,
        TS,
    );
    assert_eq!(r.unwrap_err().http_status(), 404);
}

#[test]
fn test_write_file_on_directory() {
    let (mut server, t) = alice_server();
    server.mkdir(Some(t.as_str()), "test_dir", None, NOW, TS).unwrap();
    server.mkdir(Some(t.as_str()), "test_dir/dir1", None, NOW, TS).unwrap();
    let r = server.write_file(Some(t.as_str()), "test_dir/dir1", "should fail", None, NOW, TS);
    assert_eq!(r.unwrap_err().http_status(), 400);
}

#[test]
fn test_write_file_outside_root() {
    let (mut server, t) = alice_server();
    let r = server.write_file(
        Some(t.as_str()),
        "../../outside.txt",
        "should not be created",
        None,
        NOW,
        TS,
    );
    assert_eq!(r.unwrap_err().http_status(), 404);
}

#[test]
fn test_mkdir_on_file() {
    let (mut server, t) = alice_server();
    server.mkdir(Some(t.as_str()), "test_dir", None, NOW, TS).unwrap();
    server
        .write_file(Some(t.as_str()), "test_dir/file1.txt", "content", None, NOW, TS)
        .unwrap();
    let r = server.mkdir(Some(t.as_str()), "test_dir/file1.txt/new_dir", None, NOW, TS);
    assert_eq!(r.unwrap_err().http_status(), 400);
}

#[test]
fn test_mkdir_outside_root() {
    let (mut server, t) = alice_server();
    let r = server.mkdir(Some(t.as_str()), "../../outside_dir", None, NOW, TS);
    assert_eq!(r.unwrap_err().http_status(), 404);
}

#[test]
fn invalid_permission_strings_are_400() {
    let (mut server, t) = alice_server();
    let r = server.mkdir(Some(t.as_str()), "x", Some("999"), NOW, TS);
    assert_eq!(r.unwrap_err().http_status(), 400);
    let r = server.write_file(Some(t.as_str()), "y", "b", Some("64"), NOW, TS);
    assert_eq!(r.unwrap_err().http_status(), 400);
}

#[test]
fn lookup_reports_mode_and_kind() {
    let (mut server, t) = alice_server();
    server.mkdir(Some(t.as_str()), "docs", Some("755"), NOW, TS).unwrap();
    server
        .write_file(Some(t.as_str()), "docs/a.txt", "hello", Some("644"), NOW, TS)
        .unwrap();
    let fi = server.lookup(Some(t.as_str()), "docs/a.txt", NOW).unwrap();
    assert_eq!(fi.name, "a.txt");
    assert!(!fi.is_directory);
    assert_eq!(fi.permissions, 0o644);
    assert_eq!(fi.size, 5);
    assert_eq!(fi.owner, "alice");
    assert_eq!(fi.modified, TS);
    let fi = server.lookup(Some(t.as_str()), "docs", NOW).unwrap();
    assert!(fi.is_directory);
    assert_eq!(fi.permissions, 0o755);
    let r = server.lookup(Some(t.as_str()), "missing", NOW);
    assert_eq!(r.unwrap_err().http_status(), 404);
}

#[test]
fn test_write_file_empty_content() {
    let (mut server, t) = alice_server();
    server.mkdir(Some(t.as_str()), "test_dir", None, NOW, TS).unwrap();
    server
        .write_file(Some(t.as_str()), "test_dir/empty.txt", "", None, NOW, TS)
        .unwrap();
    assert_eq!(server.read_file(Some(t.as_str()), "test_dir/empty.txt", NOW).unwrap(), "");
    let listing = server.list_dir(Some(t.as_str()), "test_dir", NOW).unwrap();
    assert_eq!(listing[0].size, 0);
}

#[test]
fn listing_holds_immediate_children_only() {
    let (mut server, t) = alice_server();
    server.mkdir(Some(t.as_str()), "docs", None, NOW, TS).unwrap();
    server.mkdir(Some(t.as_str()), "docs/sub", None, NOW, TS).unwrap();
    server
        .write_file(Some(t.as_str()), "docs/sub/deep.txt", "x", None, NOW, TS)
        .unwrap();
    let listing = server.list_dir(Some(t.as_str()), "docs", NOW).unwrap();
    let names: Vec<&str> = listing.iter().map(|e| e.name.as_str()).collect();
    assert_eq!(names, vec!["sub"]);
    let listing = server.list_dir(Some(t.as_str()), "docs/sub", NOW).unwrap();
    let names: Vec<&str> = listing.iter().map(|e| e.name.as_str()).collect();
    assert_eq!(names, vec!["deep.txt"]);
}
