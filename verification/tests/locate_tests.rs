use std::collections::BTreeMap;
use vexdoc::docgen::locate::{DirEntry, FileLocator};
use vexdoc::docgen::DocGenConfig;
use vexdoc::errors::{IoErrorKind, IoFailure};

type Tree = BTreeMap<String, Vec<DirEntry>>;

fn file(name: &str) -> DirEntry {
    DirEntry { name: name.to_string(), is_dir: false }
}

fn dir(name: &str) -> DirEntry {
    DirEntry { name: name.to_string(), is_dir: true }
}

fn names(items: &[&str]) -> Vec<String> {
    items.iter().map(|s| s.to_string()).collect()
}

fn walk(root: &str, tree: &Tree, ignored: &[&str]) -> (Vec<String>, Vec<String>) {
    let mut locator = FileLocator::new(root, &names(ignored));
    let mut read: Vec<String> = Vec::new();
    while let Some(path) = locator.next_directory() {
        locator.record(tree.get(&path).expect("only directories of the tree are read"));
        read.push(path);
    }
    (locator.files(), read)
}

#[test]
fn ignored_directory_is_left_out() {
    let mut tree = Tree::new();
    tree.insert(".".to_string(), vec![dir("build"), file("a.rs")]);
    tree.insert("./build".to_string(), vec![file("a.rs")]);
    let (files, read) = walk(".", &tree, &["build"]);
    assert_eq!(files, names(&["./a.rs"]));
    assert_eq!(read, names(&["."]));
    let conf = DocGenConfig {
        inline_comments: "//".to_string(),
        multi_comments: names(&["/*", "*/"]),
        ignored_dirs: names(&["build"]),
        file_extensions: names(&["rs"]),
    };
    assert_eq!(conf.get_files(Ok(files)), Ok(names(&["./a.rs"])));
}

#[test]
fn test_ignored_directories() {
    let mut tree = Tree::new();
    tree.insert(".".to_string(), vec![file("VexDoc.toml"), dir("ignored"), file("included.rs")]);
    tree.insert("./ignored".to_string(), vec![file("ignored.rs")]);
    let (located, _) = walk(".", &tree, &["ignored"]);
    let conf = DocGenConfig {
        inline_comments: "//".to_string(),
        multi_comments: names(&["/*", "*/"]),
        ignored_dirs: names(&["ignored"]),
        file_extensions: names(&["rs"]),
    };
    let files = conf.get_files(Ok(located)).unwrap();
    assert_eq!(files.len(), 1);
    assert!(files[0].contains("included.rs"));
}

#[test]
fn version_control_is_left_out_at_any_depth() {
    let mut tree = Tree::new();
    tree.insert(".".to_string(), vec![dir(".git"), file(".gitignore"), dir("sub"), file("a.rs")]);
    tree.insert("./.git".to_string(), vec![file("config"), dir("objects")]);
    tree.insert("./.git/objects".to_string(), vec![file("ab")]);
    tree.insert("./sub".to_string(), vec![file(".gitignore"), dir(".git"), file("b.rs")]);
    tree.insert("./sub/.git".to_string(), vec![file("HEAD")]);
    let (files, read) = walk(".", &tree, &[]);
    assert_eq!(files, names(&["./a.rs", "./sub/b.rs"]));
    assert_eq!(read, names(&[".", "./sub"]));
}

#[test]
fn ignored_names_match_whole_names_only() {
    let mut tree = Tree::new();
    tree.insert(
        ".".to_string(),
        vec![dir("target"), dir("targets"), dir("my_target"), dir("Target"), file("target")],
    );
    tree.insert("./target".to_string(), vec![file("x")]);
    tree.insert("./targets".to_string(), vec![file("a")]);
    tree.insert("./my_target".to_string(), vec![file("b")]);
    tree.insert("./Target".to_string(), vec![file("c")]);
    let (files, _) = walk(".", &tree, &["target"]);
    assert_eq!(files, names(&["./target", "./targets/a", "./my_target/b", "./Target/c"]));
}

#[test]
fn ignored_name_is_pruned_below_the_root_too() {
    let mut tree = Tree::new();
    tree.insert("root".to_string(), vec![dir("a")]);
    tree.insert("root/a".to_string(), vec![dir("node_modules"), dir("b"), file("f")]);
    tree.insert("root/a/node_modules".to_string(), vec![file("dep.js")]);
    tree.insert("root/a/b".to_string(), vec![dir("node_modules"), file("g")]);
    tree.insert("root/a/b/node_modules".to_string(), vec![file("dep.js")]);
    let (files, read) = walk("root", &tree, &["node_modules"]);
    assert_eq!(files, names(&["root/a/f", "root/a/b/g"]));
    assert_eq!(read, names(&["root", "root/a", "root/a/b"]));
}

#[test]
fn walk_is_depth_first_in_the_order_of_the_listing() {
    let mut tree = Tree::new();
    tree.insert(".".to_string(), vec![dir("x"), file("1"), dir("y"), file("2")]);
    tree.insert("./x".to_string(), vec![dir("deep"), file("3")]);
    tree.insert("./x/deep".to_string(), vec![file("4")]);
    tree.insert("./y".to_string(), vec![file("5")]);
    let (files, read) = walk(".", &tree, &[]);
    assert_eq!(read, names(&[".", "./x", "./x/deep", "./y"]));
    assert_eq!(files, names(&["./1", "./2", "./x/3", "./x/deep/4", "./y/5"]));
}

#[test]
fn entries_without_a_directory_being_read_change_nothing() {
    let mut locator = FileLocator::new(".", &vec![]);
    locator.record(&vec![file("stray.rs"), dir("stray")]);
    assert_eq!(locator.files(), Vec::<String>::new());
    assert_eq!(locator.next_directory(), Some(".".to_string()));
    locator.record(&vec![file("a.rs")]);
    locator.record(&vec![file("late.rs")]);
    assert_eq!(locator.files(), names(&["./a.rs"]));
    assert_eq!(locator.next_directory(), None);
    assert_eq!(locator.next_directory(), None);
}

fn next_random(state: &mut u64) -> u64 {
    *state = state.wrapping_mul(6364136223846793005).wrapping_add(1442695040888963407);
    *state >> 33
}

fn random_name(state: &mut u64, len: usize) -> String {
    let chars: Vec<char> =
        "abcdefghijklmnopqrstuvwxyzABCDEFGHIJKLMNOPQRSTUVWXYZ0123456789".chars().collect();
    (0..len).map(|_| chars[(next_random(state) % chars.len() as u64) as usize]).collect()
}

fn add_entry(tree: &mut Tree, parent: &str, entry: DirEntry) {
    let listing = tree.entry(parent.to_string()).or_default();
    if !listing.contains(&entry) {
        listing.push(entry);
    }
}

#[test]
fn random_get_all_files() {
    for seed in 0..20u64 {
        let mut state: u64 = seed;
        let root = "/tmp/walk";
        let mut tree = Tree::new();
        tree.insert(root.to_string(), vec![]);
        let item_count: u64 = 1 + next_random(&mut state) % 30;
        let mut test_files: Vec<String> = Vec::new();
        for i in 0..item_count {
            let item_depth: u64 = next_random(&mut state) % 3;
            let item_name = format!("tempfile{i}");
            let mut parent = root.to_string();
            for _ in 0..item_depth {
                let name = random_name(&mut state, 7);
                add_entry(&mut tree, &parent, dir(&name));
                parent = format!("{}/{}", parent, name);
                tree.entry(parent.clone()).or_default();
            }
            add_entry(&mut tree, &parent, file(&item_name));
            test_files.push(format!("{}/{}", parent, item_name));
        }
        let (mut files, _) = walk(root, &tree, &[]);
        test_files.sort();
        files.sort();
        assert_eq!(test_files, files);
    }
}

fn listed_below(path: &str, tree: &Tree, ignored: &[&str], out: &mut Vec<String>) {
    let entries = tree.get(path).expect("a directory of the tree");
    for entry in entries {
        if !entry.is_dir && entry.name != ".gitignore" {
            out.push(format!("{}/{}", path, entry.name));
        }
    }
    for entry in entries {
        if entry.is_dir && entry.name != ".git" && !ignored.contains(&entry.name.as_str()) {
            listed_below(&format!("{}/{}", path, entry.name), tree, ignored, out);
        }
    }
}

#[test]
fn walk_lists_what_a_recursive_listing_lists() {
    for seed in 100..130u64 {
        let mut state: u64 = seed;
        let root = "top";
        let mut tree = Tree::new();
        tree.insert(root.to_string(), vec![]);
        let mut dirs: Vec<String> = vec![root.to_string()];
        for i in 0..40u64 {
            let parent = dirs[(next_random(&mut state) % dirs.len() as u64) as usize].clone();
            match next_random(&mut state) % 8 {
                0 => add_entry(&mut tree, &parent, file(".gitignore")),
                1 => {
                    add_entry(&mut tree, &parent, dir(".git"));
                    tree.insert(format!("{}/.git", parent), vec![file("HEAD")]);
                }
                2 => {
                    add_entry(&mut tree, &parent, dir("skip"));
                    tree.insert(format!("{}/skip", parent), vec![file("hidden.rs")]);
                }
                3 | 4 => {
                    let name = format!("d{}", i);
                    add_entry(&mut tree, &parent, dir(&name));
                    let path = format!("{}/{}", parent, name);
                    tree.insert(path.clone(), vec![]);
                    dirs.push(path);
                }
                _ => add_entry(&mut tree, &parent, file(&format!("f{}.rs", i))),
            }
        }
        let mut expected: Vec<String> = Vec::new();
        listed_below(root, &tree, &["skip"], &mut expected);
        let (files, _) = walk(root, &tree, &["skip"]);
        assert_eq!(files, expected);
        let mut once = files.clone();
        once.sort();
        once.dedup();
        assert_eq!(once.len(), files.len());
        for path in &files {
            assert!(path.starts_with("top/"));
            assert!(!path.contains("/skip/"));
            assert!(!path.contains("/.git/"));
            assert!(!path.ends_with("/.gitignore"));
        }
    }
}

#[test]
fn failure_discards_what_was_found() {
    let denied = IoFailure { kind: IoErrorKind::Other, message: "permission denied".to_string() };
    let later = IoFailure { kind: IoErrorKind::NotFound, message: "gone".to_string() };
    let mut locator = FileLocator::new(".", &vec![]);
    assert_eq!(locator.next_directory(), Some(".".to_string()));
    locator.record(&vec![file("a.rs"), dir("locked"), dir("open")]);
    assert_eq!(locator.finish(), Ok(names(&["./a.rs"])));
    assert_eq!(locator.next_directory(), Some("./locked".to_string()));
    locator.fail(denied.clone());
    assert_eq!(locator.next_directory(), None);
    assert_eq!(locator.finish(), Err(denied.clone()));
    locator.record(&vec![file("late.rs")]);
    locator.fail(later);
    assert_eq!(locator.finish(), Err(denied));
    assert_eq!(locator.files(), names(&["./a.rs"]));
}

#[test]
fn walk_without_failure_finishes_with_its_files() {
    let mut locator = FileLocator::new("root", &names(&["skip"]));
    assert_eq!(locator.finish(), Ok(vec![]));
    assert_eq!(locator.next_directory(), Some("root".to_string()));
    locator.record(&vec![dir("skip"), file("b.rs"), file(".gitignore")]);
    assert_eq!(locator.next_directory(), None);
    assert_eq!(locator.finish(), Ok(names(&["root/b.rs"])));
}
