use bs_site_builder::classify::{FileDetails, FileMoveType};
use bs_site_builder::scan::{content_folder_list, file_list, folder_list, FolderDetails};

fn paths(list: &[&str]) -> Vec<String> {
    list.iter().map(|s| s.to_string()).collect()
}

fn keys(files: &[FileDetails]) -> Vec<(String, String)> {
    files.iter().map(|f| f.sort_key()).collect()
}

#[test]
fn files_are_listed_by_folder_then_name() {
    let found = paths(&["b.html", "a/z.txt", "a.txt", "a/b.txt", ".DS_Store", "a/.DS_Store"]);
    let listed = file_list(found);
    let expected: Vec<(String, String)> = vec![
        ("".to_string(), "a.txt".to_string()),
        ("".to_string(), "b.html".to_string()),
        ("a".to_string(), "b.txt".to_string()),
        ("a".to_string(), "z.txt".to_string()),
    ];
    assert_eq!(keys(&listed), expected);
    assert_eq!(listed[1].move_type, FileMoveType::Transform);
}

#[test]
fn listing_order_does_not_depend_on_walk_order() {
    let one = file_list(paths(&["x/b.txt", "index.html", "x/a.txt", "_p.html", "x-y/c.txt"]));
    let two = file_list(paths(&["x-y/c.txt", "_p.html", "x/a.txt", "index.html", "x/b.txt"]));
    assert_eq!(one, two);
    let f1 = folder_list(paths(&["", "b", "a", "a/c", "a/b"]));
    let f2 = folder_list(paths(&["a/b", "a", "", "a/c", "b"]));
    assert_eq!(f1, f2);
}

#[test]
fn folders_leave_out_the_root() {
    let folders = folder_list(paths(&["", "b", "a", "a/c"]));
    let expected = vec![
        FolderDetails { parent: "".to_string(), name: "a".to_string() },
        FolderDetails { parent: "".to_string(), name: "b".to_string() },
        FolderDetails { parent: "a".to_string(), name: "c".to_string() },
    ];
    assert_eq!(folders, expected);
    let content = content_folder_list(paths(&["a/c", "", "a"]));
    assert_eq!(content.len(), 2);
    assert_eq!(content[0].sort_key(), ("".to_string(), "a".to_string()));
    assert_eq!(content[1].sort_key(), ("a".to_string(), "c".to_string()));
}

#[test]
fn folder_details_of_paths() {
    let f = FolderDetails::new("a/b/c");
    assert_eq!(f.parent, "a/b");
    assert_eq!(f.name, "c");
    let top = FolderDetails::new("top");
    assert_eq!(top.sort_key(), ("".to_string(), "top".to_string()));
}

#[test]
fn empty_walk_lists_nothing() {
    assert!(file_list(vec![]).is_empty());
    assert!(folder_list(vec![]).is_empty());
}
