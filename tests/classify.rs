use bs_site_builder::classify::{FileDetails, FileMoveType};

fn s(v: &str) -> String {
    v.to_string()
}

#[test]
fn file_details_of_index_page() {
    let left = FileDetails {
        input_dir: s(""),
        input_name: s("index.html"),
        output_dir: Some(s("")),
        output_name: Some(s("index.html")),
        move_type: FileMoveType::Transform,
    };
    assert_eq!(left, FileDetails::new("index.html"));
}

#[test]
fn input_names() {
    for (input, name) in [
        ("index.html", "index.html"),
        ("about.html", "about.html"),
        ("test.json", "test.json"),
        ("no_extension", "no_extension"),
        (".dot-hidden", ".dot-hidden"),
        ("_leading_underscore", "_leading_underscore"),
        ("sub/dir/file.txt", "file.txt"),
    ] {
        assert_eq!(FileDetails::get_input_name(input), name);
    }
}

#[test]
fn input_dirs() {
    assert_eq!(FileDetails::get_input_dir("sub-dir/index.html"), "sub-dir");
    assert_eq!(FileDetails::get_input_dir("index.html"), "");
    assert_eq!(FileDetails::get_input_dir("a/b/c.txt"), "a/b");
}

#[test]
fn output_names_of_published_files() {
    for (input, name) in [
        ("index.html", "index.html"),
        ("subdir/index.html", "index.html"),
        ("test.json", "test.json"),
        ("subdir/test.json", "test.json"),
        (".dotfile", ".dotfile"),
        (".dotdir/test.json", "test.json"),
        ("about.html", "index.html"),
        ("subdir/about.html", "index.html"),
        (".subdir/about.html", "index.html"),
        ("subdir/.about.html", "index.html"),
    ] {
        assert_eq!(FileDetails::get_output_name(input), Some(s(name)));
    }
}

#[test]
fn output_names_of_skipped_files() {
    for input in [
        "_index.html",
        "_skip.html",
        "_skip-dir/index.html",
        "valid-dir/_index.html",
        "valid-dir/_skip-sub-dir/index.html",
        "_skip-dir/.hidden",
        "_skip-dir/.hidden.html",
    ] {
        assert_eq!(FileDetails::get_output_name(input), None);
        assert_eq!(FileDetails::get_move_type(input), FileMoveType::Skip);
    }
}

#[test]
fn output_dirs_of_pages() {
    for (input, dir) in [
        ("index.html", ""),
        ("sub-dir/index.html", "sub-dir"),
        ("about.html", "about"),
        ("valid-dir/about.html", "valid-dir/about"),
    ] {
        assert_eq!(FileDetails::get_output_dir(input), Some(s(dir)));
    }
}

#[test]
fn output_dirs_of_skipped_files() {
    for input in [
        "_skipped.html",
        "_skipped-dir/index.html",
        "_skipped-dir/about.html",
        "valid-dir/_skip.html",
        "valid-dir/_skip-dir/file.html",
    ] {
        assert_eq!(FileDetails::get_output_dir(input), None);
    }
}

#[test]
fn underscore_anywhere_is_skipped() {
    for input in ["_draft.html", "a/_b/c.txt", "a/b/_c", "_x/y/z.json"] {
        let d = FileDetails::new(input);
        assert_eq!(d.move_type, FileMoveType::Skip);
        assert_eq!(d.output_path(), None);
    }
    // An underscore inside a segment does not count.
    assert_eq!(FileDetails::get_move_type("a_b/c_d.txt"), FileMoveType::Copy);
}

#[test]
fn page_output_paths() {
    assert_eq!(FileDetails::new("about.html").output_path(), Some(s("about/index.html")));
    assert_eq!(FileDetails::new("index.html").output_path(), Some(s("index.html")));
    assert_eq!(
        FileDetails::new("blog/post.html").output_path(),
        Some(s("blog/post/index.html"))
    );
    assert_eq!(FileDetails::new("blog/index.html").output_path(), Some(s("blog/index.html")));
}

#[test]
fn other_files_are_copied_to_the_same_path() {
    for input in ["data.json", "img/logo.png", "LICENSE", ".well-known/x.txt", "a/.htaccess"] {
        let d = FileDetails::new(input);
        assert_eq!(d.move_type, FileMoveType::Copy);
        assert_eq!(d.output_path(), Some(s(input)));
    }
}

#[test]
fn site_example() {
    let root = "docs";
    let out = |p: &str| FileDetails::new(p).output_path().map(|o| format!("{}/{}", root, o));
    assert_eq!(out("about.html"), Some(s("docs/about/index.html")));
    assert_eq!(out("index.html"), Some(s("docs/index.html")));
    assert_eq!(out("_draft.html"), None);
    assert_eq!(out("data.json"), Some(s("docs/data.json")));
}

#[test]
fn input_path_and_sort_key() {
    let d = FileDetails::new("a/b/c.md");
    assert_eq!(d.input_path(), "a/b/c.md");
    assert_eq!(d.sort_key(), (s("a/b"), s("c.md")));
}
