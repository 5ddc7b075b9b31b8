//! The mount flow exercised end to end without a kernel or a network:
//! the verified server handlers stand in for the HTTP surface and the
//! verified client logic consumes their answers exactly as the kernel
//! callback shell would.

use remote_fs::auth::{LoginRequest, RegisterRequest};
use remote_fs::client::{FileKind, LookupStep, RemoteFS};
use remote_fs::router::Server;

const NOW: u64 = 1000;
const TS: &str = "2024-01-02T03:04:05+00:00";

fn serverside() -> (Server, String) {
    let mut server = Server::new();
    server
        .register(RegisterRequest { username: "alice".into(), password: "secret1".into() })
        .unwrap();
    let resp = server
        .login(LoginRequest { username: "alice".into(), password: "secret1".into() }, NOW)
        .unwrap();
    (server, format!("Bearer {}", resp.token))
}

#[test]
fn list_and_read_through_the_client() {
    let (mut server, t) = serverside();
    server.mkdir(Some(t.as_str()), "docs", None, NOW, TS).unwrap();
    server
        .write_file(Some(t.as_str()), "docs/a.txt", "hello", Some("644"), NOW, TS)
        .unwrap();

    let mut client = RemoteFS::new("http://server".into(), "tok".into(), 1000, 1000);

    // `ls /mount` — readdir at the root
    let listing = server.list_dir_with_empty_path(Some(t.as_str()), NOW).unwrap();
    let files: Vec<remote_fs::client::FileInfo> = listing
        .iter()
        .map(|e| remote_fs::client::FileInfo {
            permissions: 0o755,
            links: e.links,
            owner: e.owner.clone(),
            group: e.group.clone(),
            size: if e.size < 0 { 0 } else { e.size as u64 },
            modified: e.modified.clone(),
            name: e.name.clone(),
            is_directory: e.is_directory,
        })
        .collect();
    let entries = client.readdir_entries(1, 0, &files).unwrap();
    assert_eq!(entries[0].name, ".");
    assert_eq!(entries[1].name, "..");
    assert_eq!(entries[2].name, "docs");
    assert_eq!(entries[2].kind, FileKind::Directory);

    // `ls /mount/docs` — lookup then readdir below it
    let docs_ino = client.exist_path("/docs").unwrap();
    let step = client.lookup_prepare(docs_ino, "a.txt");
    let ask = match step {
        LookupStep::Ask(p) => p,
        _ => panic!("a real name is asked of the server"),
    };
    assert_eq!(ask, "/docs/a.txt");
    let info = server.lookup(Some(t.as_str()), ask.trim_start_matches('/'), NOW).unwrap();
    let attr = client.lookup_complete(&ask, &info, 0);
    assert_eq!(attr.size, 5);
    assert_eq!(attr.kind, FileKind::RegularFile);
    assert_eq!(attr.perm, 0o644);

    // `cat /mount/docs/a.txt` — read with a generous size, clamped
    let body = server.read_file(Some(t.as_str()), "docs/a.txt", NOW).unwrap();
    let bytes: Vec<u8> = body.into_bytes();
    let sliced = remote_fs::client::read_slice(&bytes, 0, 4096);
    assert_eq!(sliced, b"hello".to_vec());

    // `echo foo > /mount/docs/a.txt` then `cat` — overwrite and re-read
    server
        .write_file(Some(t.as_str()), "docs/a.txt", "foo", None, NOW, TS)
        .unwrap();
    assert_eq!(server.read_file(Some(t.as_str()), "docs/a.txt", NOW).unwrap(), "foo");
}
