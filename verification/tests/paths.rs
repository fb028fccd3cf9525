use cgroup_metrics::node::CGroup;
use cgroup_metrics::paths::{is_root_name, join_name, join_path, root_name_string};

#[test]
fn joins_names_and_paths() {
    assert_eq!(join_name("/", "foo"), String::from("foo"));
    assert_eq!(join_name("/", "/"), String::from("/"));
    assert_eq!(join_name("foo", "bar"), String::from("foo/bar"));

    assert_eq!(join_path("/sys", "foo"), String::from("/sys/foo"));
    assert_eq!(join_path("/sys", "/"), String::from("/sys"));
}

#[test]
fn join_keeps_nested_names() {
    assert_eq!(join_name("user.slice", "user-1000.slice"), "user.slice/user-1000.slice");
    assert_eq!(join_path("/sys/fs/cgroup", "fs/cgroup"), "/sys/fs/cgroup/fs/cgroup");
    assert_eq!(join_path("", "a"), "/a");
    assert_eq!(join_name("", "a"), "/a");
}

#[test]
fn root_name_is_a_single_slash() {
    assert!(is_root_name("/"));
    assert!(!is_root_name(""));
    assert!(!is_root_name("//"));
    assert!(!is_root_name("a"));
    assert!(!is_root_name("/a"));
    assert_eq!(root_name_string(), "/");
}

#[test]
fn group_knows_whether_it_is_the_root() {
    let root = CGroup { root: String::from("/sys/fs/cgroup"), name: String::from("/") };
    assert!(root.is_root());
    let child = root.child("user.slice");
    assert!(!child.is_root());
    assert_eq!(child.root, "/sys/fs/cgroup/user.slice");
    assert_eq!(child.name, "user.slice");
    let grandchild = child.child("a");
    assert_eq!(grandchild.root, "/sys/fs/cgroup/user.slice/a");
    assert_eq!(grandchild.name, "user.slice/a");
}

#[test]
fn group_makes_paths_of_its_files() {
    let group = CGroup { root: String::from("/sys/fs/cgroup/a"), name: String::from("a") };
    assert_eq!(group.make_path("cpu.stat"), "/sys/fs/cgroup/a/cpu.stat");
    assert_eq!(group.make_path("/"), "/sys/fs/cgroup/a");
}

#[test]
fn children_follow_the_listing() {
    let group = CGroup { root: String::from("/r"), name: String::from("/") };
    let entries = vec![String::from("b"), String::from("a")];
    let children = group.children(&entries);
    assert_eq!(children.len(), 2);
    assert_eq!(children[0].root, "/r/b");
    assert_eq!(children[0].name, "b");
    assert_eq!(children[1].root, "/r/a");
    assert_eq!(children[1].name, "a");
    assert!(group.children(&Vec::new()).is_empty());
}
