use std::path::Path;
use vexdoc::paths::{
    extension_in, file_name_of, join_path, matches_extension, output_name, shown_name,
    strip_current_dir,
};

fn path_text(s: &str) -> Vec<char> {
    s.chars().collect()
}

fn shown(v: Vec<char>) -> String {
    v.into_iter().collect()
}

#[test]
fn extension_is_matched_exactly() {
    let extensions = vec!["rs".to_string(), "py".to_string()];
    assert!(matches_extension(&path_text("./a.rs"), &extensions));
    assert!(matches_extension(&path_text("src/deep/mod.py"), &extensions));
    assert!(matches_extension(&path_text("archive.tar.rs"), &extensions));
    assert!(!matches_extension(&path_text("a.RS"), &extensions));
    assert!(!matches_extension(&path_text("a.rsx"), &extensions));
    assert!(!matches_extension(&path_text("a.r"), &extensions));
    assert!(!matches_extension(&path_text("rs"), &extensions));
    assert!(!matches_extension(&path_text(".rs"), &extensions));
    assert!(!matches_extension(&path_text("dir.rs/file"), &extensions));
    assert!(matches_extension(&path_text("a.rs/"), &extensions));
    assert!(matches_extension(&path_text("src/a.rs//./"), &extensions));
    assert!(!matches_extension(&path_text("a.rs/.."), &extensions));
    assert!(!matches_extension(&path_text(""), &extensions));
}

#[test]
fn extension_is_the_one_the_standard_library_finds() {
    for p in [
        "a.rs", ".gitignore", "a.tar.gz", "dir.d/file", "foo.", "..", "a/..", ".", "a/.hidden.txt",
        "noext", "x/y/z.py", "..rs", "a..b", "a.rs/", "a.rs//", "a.rs/.", "a.rs/./", "./a.rs",
        "a.rs/..", "...", "a/...", "/", "", "/.", "./", "/a.txt", "a.b/.gitignore/",
    ] {
        let expected = Path::new(p).extension().map(|e| e.to_str().unwrap().to_string());
        for candidate in ["rs", "gz", "", "txt", "py", "b", "d/file", "gitignore"] {
            let wanted = vec![candidate.to_string()];
            assert_eq!(
                matches_extension(&path_text(p), &wanted),
                expected.as_deref() == Some(candidate),
                "{:?} with {:?}",
                p,
                candidate
            );
        }
    }
}

#[test]
fn page_is_named_after_the_path() {
    assert_eq!(shown(output_name(&path_text("test.rs"))), "test-rs.html");
    assert_eq!(shown(output_name(&path_text("src/docgen/mod.rs"))), "src_docgen_mod-rs.html");
    assert_eq!(shown(output_name(&path_text("a\\b.c.d"))), "a_b-c-d.html");
    assert_eq!(shown(output_name(&path_text(""))), ".html");
}

#[test]
fn current_directory_prefix_is_stripped_once() {
    assert_eq!(shown(strip_current_dir(&path_text("./a.rs"))), "a.rs");
    assert_eq!(shown(strip_current_dir(&path_text("././a.rs"))), "./a.rs");
    assert_eq!(shown(strip_current_dir(&path_text("a/./b.rs"))), "a/./b.rs");
    assert_eq!(shown(strip_current_dir(&path_text(".hidden"))), ".hidden");
    assert_eq!(shown(strip_current_dir(&path_text("./"))), "");
}

#[test]
fn shown_name_is_the_file_name() {
    assert_eq!(shown(shown_name(&path_text("src/main.rs"))), "main.rs");
    assert_eq!(shown(shown_name(&path_text("main.rs"))), "main.rs");
    assert_eq!(shown(shown_name(&path_text("dir/"))), "dir");
    assert_eq!(shown(shown_name(&path_text("a/b//./"))), "b");
    assert_eq!(shown(shown_name(&path_text("./x"))), "x");
    assert_eq!(shown(shown_name(&path_text("..."))), "...");
}

#[test]
fn path_without_a_file_name_is_shown_as_unknown() {
    for p in ["", ".", "..", "/", "./", "a/..", "../", "a/../.", "//", "/."] {
        assert_eq!(shown(shown_name(&path_text(p))), "unknown", "{:?}", p);
    }
}

#[test]
fn file_name_is_the_one_the_standard_library_finds() {
    for p in [
        "", ".", "..", "/", "./", "a", "a/", "a//", "a/.", "a/./", "a/..", "a/../", "../a", "./a",
        "/a", "/a/b/", "a/b/./c/.", "...", "a/...", ".hidden", "a/.hidden/", "..a", "a..", "x/./..",
        "x/../.", "//a//", "a b/c d",
    ] {
        let expected = Path::new(p).file_name().map(|n| n.to_str().unwrap().to_string());
        let name: Option<String> = file_name_of(&path_text(p)).map(shown);
        assert_eq!(name, expected, "{:?}", p);
        assert_eq!(
            shown(shown_name(&path_text(p))),
            expected.unwrap_or("unknown".to_string()),
            "{:?}",
            p
        );
    }
}

#[test]
fn extension_of_a_name_follows_its_last_period() {
    let cases = [
        ("a.rs", Some("rs")),
        ("a.tar.gz", Some("gz")),
        ("a.", Some("")),
        (".hidden", None),
        (".hidden.txt", Some("txt")),
        ("plain", None),
        ("", None),
        ("...", Some("")),
    ];
    for (name, expected) in cases {
        assert_eq!(
            extension_in(&path_text(name)).map(shown),
            expected.map(|e| e.to_string()),
            "{:?}",
            name
        );
    }
}

#[test]
fn entry_is_joined_to_its_directory() {
    assert_eq!(shown(join_path(&path_text("."), &path_text("a.rs"))), "./a.rs");
    assert_eq!(shown(join_path(&path_text("dir/"), &path_text("a.rs"))), "dir/a.rs");
    assert_eq!(shown(join_path(&path_text(""), &path_text("a.rs"))), "a.rs");
    assert_eq!(shown(join_path(&path_text("/"), &path_text("a"))), "/a");
}
