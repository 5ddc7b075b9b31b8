use remote_fs::tree::FileSystem;

fn create_file_system_with_structure() -> FileSystem {
    let mut fs = FileSystem::new();
    fs.make_dir("/", "home").unwrap();
    fs.change_dir("/home").unwrap();
    fs.make_dir(".", "user").unwrap();
    fs.change_dir("./user").unwrap();
    fs.make_file(".", "file.txt").unwrap();
    fs.make_file(".", "file1.txt").unwrap();
    fs.make_dir("..", "user1").unwrap();
    fs.change_dir("../user1").unwrap();
    fs.make_file(".", "file.txt").unwrap();
    fs.make_link("/home", "link_user", "/home/user").unwrap();
    fs
}

#[test]
fn create_basic_file_system() {
    let fs = FileSystem::new();
    assert_eq!(fs.nodes[0].name().as_str(), "");
}

#[test]
fn create_directory() {
    let mut fs = FileSystem::new();
    fs.make_dir("/", "home").unwrap();
    let children = fs.nodes[0].get_children().expect("Root should have children");
    assert_eq!(children.len(), 1);
    assert_eq!(fs.nodes[children[0]].name().as_str(), "home");
}

#[test]
fn test_file_system() {
    let fs = create_file_system_with_structure();
    assert!(fs.find("/home/user/file1.txt").is_some());
    assert!(fs.find("/home/demo/file.txt").is_none());
    assert!(fs.find("/home/user1/file.txt").is_some());
}

#[test]
fn test_follow_link() {
    let mut fs = create_file_system_with_structure();
    let link = fs.find("/home/link_user/file.txt");
    assert!(link.is_some());

    fs.make_link("/home", "dead_link", "/home/dead").unwrap();
    let link = fs.find("/home/dead_link/filed.txt");
    assert!(link.is_none());
}

#[test]
fn filesystem_test_test_file_system() {
    let fs = create_file_system_with_structure();
    assert!(fs.find("/home/user/file1.txt").is_some());
    assert!(fs.find("/home/demo/file.txt").is_none());
    assert!(fs.find("/home/user1/file.txt").is_some());
}

#[test]
fn filesystem_test_test_follow_link() {
    let mut fs = create_file_system_with_structure();
    let link = fs.find("/home/link_user/file.txt");
    assert!(link.is_some());

    fs.make_link("/home", "dead_link", "/home/dead").unwrap();
    let link = fs.find("/home/dead_link/filed.txt");
    assert!(link.is_none());
}

#[test]
fn relative_and_dot_resolution() {
    let fs = create_file_system_with_structure();
    // current is /home/user1 after construction
    assert_eq!(fs.find("file.txt"), fs.find("/home/user1/file.txt"));
    assert_eq!(fs.find("./file.txt"), fs.find("/home/user1/file.txt"));
    assert_eq!(fs.find("../user/file1.txt"), fs.find("/home/user/file1.txt"));
}

#[test]
fn dotdot_at_root_is_missing() {
    let fs = FileSystem::new();
    assert!(fs.find("/..").is_none());
    assert!(fs.find("/../../etc").is_none());
}

#[test]
fn duplicate_names_are_refused() {
    let mut fs = FileSystem::new();
    fs.make_dir("/", "home").unwrap();
    assert!(fs.make_dir("/", "home").is_err());
    assert!(fs.make_file("/", "home").is_err());
    fs.make_file("/", "notes.txt").unwrap();
    assert!(fs.make_file("/", "notes.txt").is_err());
}

#[test]
fn rename_moves_a_name() {
    let mut fs = FileSystem::new();
    fs.make_dir("/", "dir1").unwrap();
    fs.make_file("/dir1", "file2.txt").unwrap();
    fs.rename("/dir1/file2.txt", "file3.txt").unwrap();
    assert!(fs.find("/dir1/file2.txt").is_none());
    assert!(fs.find("/dir1/file3.txt").is_some());
}

#[test]
fn rename_refuses_a_taken_sibling_name() {
    let mut fs = FileSystem::new();
    fs.make_file("/", "a.txt").unwrap();
    fs.make_file("/", "b.txt").unwrap();
    assert!(fs.rename("/a.txt", "b.txt").is_err());
}

#[test]
fn symlink_with_relative_target() {
    let mut fs = FileSystem::new();
    fs.make_dir("/", "dir1").unwrap();
    fs.make_dir("/", "d2").unwrap();
    fs.make_file("/d2", "inner.txt").unwrap();
    fs.make_link("/dir1", "to_d2", "../d2").unwrap();
    assert_eq!(fs.find("/dir1/to_d2/inner.txt"), fs.find("/d2/inner.txt"));
    assert!(fs.find("/dir1/to_d2/inner.txt").is_some());
}

#[test]
fn file_in_the_middle_of_a_path_is_missing() {
    let mut fs = FileSystem::new();
    fs.make_file("/", "plain.txt").unwrap();
    assert!(fs.find("/plain.txt/below").is_none());
}
