use siriusu::copier::{copy_recursive, Copier, CopyAction, CopyError, CopyEvent, EntryKind};
use std::collections::BTreeMap;

#[derive(Clone, Debug, PartialEq)]
enum Node {
    File(Vec<u8>),
    Unreadable,
    Dir,
    Link,
}

/// A file system in memory, with a record of what was asked of it.
struct Disk {
    nodes: BTreeMap<Vec<String>, Node>,
    asked: Vec<String>,
    fail_listing_of: Option<Vec<String>>,
}

fn names(parts: &[&str]) -> Vec<String> {
    parts.iter().map(|p| p.to_string()).collect()
}

fn missing(path: &[&str]) -> CopyError {
    CopyError::SourceMissing { path: names(path), cause: "no such entry".to_string() }
}

fn io_error(path: &[&str], cause: &str) -> CopyError {
    CopyError::IoError { path: names(path), cause: cause.to_string() }
}

fn unsupported(path: &[&str]) -> CopyError {
    CopyError::UnsupportedSourceType { path: names(path) }
}

fn overlapping(src: &[&str], dest: &[&str]) -> CopyError {
    CopyError::OverlappingPaths { src: names(src), dest: names(dest) }
}

fn shown(path: &[String]) -> String {
    path.join("/")
}

impl Disk {
    fn new() -> Disk {
        Disk { nodes: BTreeMap::new(), asked: Vec::new(), fail_listing_of: None }
    }

    fn put(&mut self, path: &[&str], node: Node) {
        self.nodes.insert(names(path), node);
    }

    fn stat(&self, path: &[String]) -> Result<EntryKind, String> {
        match self.nodes.get(path) {
            None => Err("no such entry".to_string()),
            Some(Node::File(_)) | Some(Node::Unreadable) => Ok(EntryKind::File),
            Some(Node::Dir) => Ok(EntryKind::Directory),
            Some(Node::Link) => Ok(EntryKind::Other),
        }
    }

    fn create_dir_all(&mut self, path: &[String]) -> Result<(), String> {
        let mut depth = 1;
        while depth <= path.len() {
            let prefix = path[..depth].to_vec();
            match self.nodes.get(&prefix) {
                None => {
                    self.nodes.insert(prefix, Node::Dir);
                }
                Some(Node::Dir) => {}
                Some(_) => return Err("not a directory".to_string()),
            }
            depth += 1;
        }
        Ok(())
    }

    fn copy(&mut self, src: &[String], dest: &[String]) -> Result<(), String> {
        let bytes = match self.nodes.get(src) {
            Some(Node::File(bytes)) => bytes.clone(),
            _ => return Err("permission denied".to_string()),
        };
        if let Some(Node::Dir) = self.nodes.get(dest) {
            return Err("is a directory".to_string());
        }
        self.nodes.insert(dest.to_vec(), Node::File(bytes));
        Ok(())
    }

    fn list(&self, path: &[String]) -> Result<Vec<String>, String> {
        if self.fail_listing_of.as_deref() == Some(path) {
            return Err("listing failed".to_string());
        }
        match self.nodes.get(path) {
            Some(Node::Dir) => {}
            _ => return Err("not a directory".to_string()),
        }
        let mut entries = Vec::new();
        for key in self.nodes.keys() {
            if key.len() == path.len() + 1 && key[..path.len()] == *path {
                entries.push(key[path.len()].clone());
            }
        }
        Ok(entries)
    }

    fn perform(&mut self, action: &CopyAction) -> CopyEvent {
        match action {
            CopyAction::Stat(path) => {
                self.asked.push(format!("stat {}", shown(path)));
                CopyEvent::Kind(self.stat(path))
            }
            CopyAction::CreateParent(path) => {
                self.asked.push(format!("parent {}", shown(path)));
                let parent = &path[..path.len().saturating_sub(1)];
                CopyEvent::Completed(self.create_dir_all(parent))
            }
            CopyAction::CopyFile(src, dest) => {
                self.asked.push(format!("copy {} {}", shown(src), shown(dest)));
                CopyEvent::Completed(self.copy(src, dest))
            }
            CopyAction::CreateDir(path) => {
                self.asked.push(format!("mkdir {}", shown(path)));
                CopyEvent::Completed(self.create_dir_all(path))
            }
            CopyAction::ReadDir(path) => {
                self.asked.push(format!("list {}", shown(path)));
                CopyEvent::Entries(self.list(path))
            }
            CopyAction::Finish(_) => unreachable!(),
        }
    }

    fn run(&mut self, src: &[&str], dest: &[&str]) -> Result<(), CopyError> {
        let (mut copier, mut action) = copy_recursive(names(src), names(dest));
        let mut steps = 0;
        loop {
            if let CopyAction::Finish(result) = action {
                assert!(copier.is_finished());
                return result;
            }
            assert!(!copier.is_finished());
            let event = self.perform(&action);
            let (next, asked) = copier.step(event);
            copier = next;
            action = asked;
            steps += 1;
            assert!(steps < 10_000);
        }
    }

    /// The tree below `root`: relative path and node of every entry.
    fn tree(&self, root: &[&str]) -> Vec<(Vec<String>, Node)> {
        let root = names(root);
        let mut found = Vec::new();
        for (key, node) in self.nodes.iter() {
            if key.len() >= root.len() && key[..root.len()] == root[..] {
                found.push((key[root.len()..].to_vec(), node.clone()));
            }
        }
        found
    }
}

fn sample() -> Disk {
    let mut disk = Disk::new();
    disk.put(&["src"], Node::Dir);
    disk.put(&["src", "a.txt"], Node::File(b"alpha".to_vec()));
    disk.put(&["src", "empty"], Node::Dir);
    disk.put(&["src", "sub"], Node::Dir);
    disk.put(&["src", "sub", "b.bin"], Node::File(vec![0, 1, 2, 255]));
    disk.put(&["src", "sub", "deep"], Node::Dir);
    disk.put(&["src", "sub", "deep", "c"], Node::File(Vec::new()));
    disk.put(&["src", "z.txt"], Node::File(b"omega".to_vec()));
    disk
}

#[test]
fn tree_is_copied_with_the_same_paths_and_bytes() {
    let mut disk = sample();
    assert_eq!(disk.run(&["src"], &["out", "copy"]), Ok(()));
    assert_eq!(disk.tree(&["out", "copy"]), disk.tree(&["src"]));
    assert_eq!(disk.tree(&["src"]).len(), 8);
}

#[test]
fn tree_is_walked_depth_first_in_listing_order() {
    let mut disk = sample();
    assert_eq!(disk.run(&["src"], &["dst"]), Ok(()));
    assert_eq!(
        disk.asked,
        vec![
            "stat src",
            "mkdir dst",
            "list src",
            "stat src/a.txt",
            "parent dst/a.txt",
            "copy src/a.txt dst/a.txt",
            "stat src/empty",
            "mkdir dst/empty",
            "list src/empty",
            "stat src/sub",
            "mkdir dst/sub",
            "list src/sub",
            "stat src/sub/b.bin",
            "parent dst/sub/b.bin",
            "copy src/sub/b.bin dst/sub/b.bin",
            "stat src/sub/deep",
            "mkdir dst/sub/deep",
            "list src/sub/deep",
            "stat src/sub/deep/c",
            "parent dst/sub/deep/c",
            "copy src/sub/deep/c dst/sub/deep/c",
            "stat src/z.txt",
            "parent dst/z.txt",
            "copy src/z.txt dst/z.txt",
        ]
    );
}

#[test]
fn single_file_is_copied_after_its_parent_was_created() {
    let mut disk = Disk::new();
    disk.put(&["f"], Node::File(b"data".to_vec()));
    assert_eq!(disk.run(&["f"], &["a", "b", "g"]), Ok(()));
    assert_eq!(disk.nodes.get(&names(&["a"])), Some(&Node::Dir));
    assert_eq!(disk.nodes.get(&names(&["a", "b"])), Some(&Node::Dir));
    assert_eq!(disk.nodes.get(&names(&["a", "b", "g"])), Some(&Node::File(b"data".to_vec())));
    assert_eq!(disk.asked, vec!["stat f", "parent a/b/g", "copy f a/b/g"]);
}

#[test]
fn existing_destination_file_is_replaced() {
    let mut disk = Disk::new();
    disk.put(&["f"], Node::File(b"new".to_vec()));
    disk.put(&["g"], Node::File(b"old".to_vec()));
    assert_eq!(disk.run(&["f"], &["g"]), Ok(()));
    assert_eq!(disk.nodes.get(&names(&["g"])), Some(&Node::File(b"new".to_vec())));
}

#[test]
fn empty_directory_is_copied_as_a_directory() {
    let mut disk = Disk::new();
    disk.put(&["d"], Node::Dir);
    assert_eq!(disk.run(&["d"], &["e"]), Ok(()));
    assert_eq!(disk.nodes.get(&names(&["e"])), Some(&Node::Dir));
    assert_eq!(disk.asked, vec!["stat d", "mkdir e", "list d"]);
}

#[test]
fn missing_source_is_reported() {
    let mut disk = Disk::new();
    assert_eq!(disk.run(&["nothing"], &["out"]), Err(missing(&["nothing"])));
    assert_eq!(disk.asked, vec!["stat nothing"]);
    assert!(disk.nodes.is_empty());
}

#[test]
fn link_is_an_unsupported_source() {
    let mut disk = Disk::new();
    disk.put(&["l"], Node::Link);
    assert_eq!(disk.run(&["l"], &["out"]), Err(unsupported(&["l"])));
    assert_eq!(disk.asked, vec!["stat l"]);
}

#[test]
fn nested_link_ends_the_copy() {
    let mut disk = Disk::new();
    disk.put(&["src"], Node::Dir);
    disk.put(&["src", "a"], Node::File(b"1".to_vec()));
    disk.put(&["src", "l"], Node::Link);
    disk.put(&["src", "z"], Node::File(b"2".to_vec()));
    assert_eq!(disk.run(&["src"], &["dst"]), Err(unsupported(&["src", "l"])));
    assert_eq!(disk.nodes.get(&names(&["dst", "a"])), Some(&Node::File(b"1".to_vec())));
    assert_eq!(disk.nodes.get(&names(&["dst", "z"])), None);
}

#[test]
fn unreadable_nested_file_fails_and_nothing_is_rolled_back() {
    let mut disk = sample();
    disk.put(&["src", "sub", "c.bad"], Node::Unreadable);
    assert_eq!(
        disk.run(&["src"], &["dst"]),
        Err(io_error(&["src", "sub", "c.bad"], "permission denied"))
    );
    assert_eq!(disk.nodes.get(&names(&["dst", "a.txt"])), Some(&Node::File(b"alpha".to_vec())));
    assert_eq!(disk.nodes.get(&names(&["dst", "empty"])), Some(&Node::Dir));
    assert_eq!(
        disk.nodes.get(&names(&["dst", "sub", "b.bin"])),
        Some(&Node::File(vec![0, 1, 2, 255]))
    );
    assert_eq!(disk.nodes.get(&names(&["dst", "sub", "c.bad"])), None);
    assert_eq!(disk.nodes.get(&names(&["dst", "sub", "deep"])), None);
    assert_eq!(disk.nodes.get(&names(&["dst", "z.txt"])), None);
    assert_eq!(disk.asked.last().unwrap(), "copy src/sub/c.bad dst/sub/c.bad");
}

#[test]
fn failed_listing_is_an_io_error() {
    let mut disk = sample();
    disk.fail_listing_of = Some(names(&["src", "sub"]));
    assert_eq!(disk.run(&["src"], &["dst"]), Err(io_error(&["src", "sub"], "listing failed")));
    assert_eq!(disk.nodes.get(&names(&["dst", "a.txt"])), Some(&Node::File(b"alpha".to_vec())));
    assert_eq!(disk.nodes.get(&names(&["dst", "sub"])), Some(&Node::Dir));
    assert_eq!(disk.nodes.get(&names(&["dst", "z.txt"])), None);
}

#[test]
fn destination_parent_that_is_a_file_is_an_io_error() {
    let mut disk = Disk::new();
    disk.put(&["f"], Node::File(b"x".to_vec()));
    disk.put(&["blocked"], Node::File(b"y".to_vec()));
    assert_eq!(
        disk.run(&["f"], &["blocked", "g"]),
        Err(io_error(&["blocked", "g"], "not a directory"))
    );
    assert_eq!(disk.asked, vec!["stat f", "parent blocked/g"]);
}

#[test]
fn destination_directory_that_cannot_be_created_is_an_io_error() {
    let mut disk = Disk::new();
    disk.put(&["d"], Node::Dir);
    disk.put(&["blocked"], Node::File(b"y".to_vec()));
    assert_eq!(disk.run(&["d"], &["blocked"]), Err(io_error(&["blocked"], "not a directory")));
    assert_eq!(disk.asked, vec!["stat d", "mkdir blocked"]);
}

fn finished_with(action: &CopyAction, expected: Result<(), CopyError>) -> bool {
    matches!(action, CopyAction::Finish(result) if *result == expected)
}

fn gone() -> CopyEvent {
    CopyEvent::Kind(Err("no such entry".to_string()))
}

fn done() -> CopyEvent {
    CopyEvent::Completed(Ok(()))
}

fn broke(cause: &str) -> CopyEvent {
    CopyEvent::Completed(Err(cause.to_string()))
}

fn is(kind: EntryKind) -> CopyEvent {
    CopyEvent::Kind(Ok(kind))
}

#[test]
fn first_action_examines_the_source() {
    let (copier, action) = copy_recursive(names(&["s"]), names(&["d"]));
    assert!(!copier.is_finished());
    assert!(matches!(action, CopyAction::Stat(ref path) if *path == names(&["s"])));
}

#[test]
fn event_that_does_not_answer_ends_the_copy() {
    let (copier, _) = copy_recursive(names(&["s"]), names(&["d"]));
    let (copier, action) = copier.step(done());
    assert!(copier.is_finished());
    assert!(finished_with(
        &action,
        Err(io_error(&["s"], "the answer does not fit the operation"))
    ));
}

#[test]
fn finished_copier_stays_finished() {
    let (copier, _) = copy_recursive(names(&["s"]), names(&["d"]));
    let (copier, first) = copier.step(gone());
    assert!(finished_with(&first, Err(missing(&["s"]))));
    let (copier, again) = copier.step(is(EntryKind::File));
    assert!(finished_with(&again, Err(missing(&["s"]))));
    let (copier, again) = copier.step(CopyEvent::Entries(Ok(names(&["x"]))));
    assert!(finished_with(&again, Err(missing(&["s"]))));
    assert!(matches!(copier, Copier::Finished { result: Err(ref e) } if *e == missing(&["s"])));
}

#[test]
fn entries_are_taken_up_in_the_order_of_the_listing() {
    let (copier, _) = copy_recursive(names(&["s"]), names(&["d"]));
    let (copier, _) = copier.step(is(EntryKind::Directory));
    let (copier, _) = copier.step(done());
    let (copier, action) = copier.step(CopyEvent::Entries(Ok(names(&["y", "x", "z"]))));
    assert!(matches!(action, CopyAction::Stat(ref path) if *path == names(&["s", "y"])));
    let (copier, _) = copier.step(is(EntryKind::File));
    let (copier, action) = copier.step(done());
    assert!(matches!(
        action,
        CopyAction::CopyFile(ref from, ref to)
            if *from == names(&["s", "y"]) && *to == names(&["d", "y"])
    ));
    let (copier, action) = copier.step(done());
    assert!(matches!(action, CopyAction::Stat(ref path) if *path == names(&["s", "x"])));
    let (copier, _) = copier.step(is(EntryKind::File));
    let (copier, _) = copier.step(done());
    let (_, action) = copier.step(done());
    assert!(matches!(action, CopyAction::Stat(ref path) if *path == names(&["s", "z"])));
}

#[test]
fn failed_operations_name_their_path_and_cause() {
    let (copier, _) = copy_recursive(names(&["s"]), names(&["d"]));
    let (copier, _) = copier.step(is(EntryKind::File));
    let (copier, _) = copier.step(done());
    let (_, action) = copier.step(broke("disk full"));
    assert!(finished_with(&action, Err(io_error(&["s"], "disk full"))));

    let (copier, _) = copy_recursive(names(&["s"]), names(&["d"]));
    let (copier, _) = copier.step(is(EntryKind::Directory));
    let (_, action) = copier.step(broke("read-only"));
    assert!(finished_with(&action, Err(io_error(&["d"], "read-only"))));

    let (copier, _) = copy_recursive(names(&["s"]), names(&["d"]));
    let (copier, _) = copier.step(is(EntryKind::File));
    let (_, action) = copier.step(broke("no space"));
    assert!(finished_with(&action, Err(io_error(&["d"], "no space"))));

    let (copier, _) = copy_recursive(names(&["s"]), names(&["d"]));
    let (copier, _) = copier.step(is(EntryKind::Directory));
    let (copier, _) = copier.step(done());
    let (_, action) = copier.step(CopyEvent::Entries(Err("denied".to_string())));
    assert!(finished_with(&action, Err(io_error(&["s"], "denied"))));
}

#[test]
fn copy_onto_itself_is_refused() {
    let (copier, action) = copy_recursive(names(&["a", "f"]), names(&["a", "f"]));
    assert!(copier.is_finished());
    assert!(finished_with(&action, Err(overlapping(&["a", "f"], &["a", "f"]))));
}

#[test]
fn copy_into_the_source_is_refused() {
    let (copier, action) = copy_recursive(names(&["a"]), names(&["a", "b", "c"]));
    assert!(copier.is_finished());
    assert!(finished_with(&action, Err(overlapping(&["a"], &["a", "b", "c"]))));
}

#[test]
fn copy_onto_a_directory_that_holds_the_source_is_refused() {
    let (copier, action) = copy_recursive(names(&["a", "b"]), names(&["a"]));
    assert!(copier.is_finished());
    assert!(finished_with(&action, Err(overlapping(&["a", "b"], &["a"]))));
}

#[test]
fn refused_copy_asks_nothing_of_the_disk() {
    let mut disk = sample();
    let before = disk.nodes.clone();
    assert_eq!(disk.run(&["src"], &["src", "sub", "copy"]), Err(overlapping(&["src"], &["src", "sub", "copy"])));
    assert_eq!(disk.run(&["src", "a.txt"], &["src", "a.txt"]), Err(overlapping(&["src", "a.txt"], &["src", "a.txt"])));
    assert_eq!(disk.run(&["src", "sub"], &["src"]), Err(overlapping(&["src", "sub"], &["src"])));
    assert!(disk.asked.is_empty());
    assert_eq!(disk.nodes, before);
}

#[test]
fn refused_copier_stays_refused() {
    let (copier, _) = copy_recursive(names(&["a"]), names(&["a"]));
    let (copier, action) = copier.step(is(EntryKind::File));
    assert!(copier.is_finished());
    assert!(finished_with(&action, Err(overlapping(&["a"], &["a"]))));
}

#[test]
fn siblings_with_a_common_name_prefix_are_apart() {
    let mut disk = Disk::new();
    disk.put(&["a"], Node::File(b"x".to_vec()));
    assert_eq!(disk.run(&["a"], &["ab"]), Ok(()));
    assert_eq!(disk.nodes.get(&names(&["ab"])), Some(&Node::File(b"x".to_vec())));
}
