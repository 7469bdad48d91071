use bs_site_builder::tree::{get_files_in_dir, get_files_in_tree};

fn paths(list: &[&str]) -> Vec<String> {
    list.iter().map(|s| s.to_string()).collect()
}

#[test]
fn tree_files_sorted_by_segment() {
    let found = paths(&["a-c.txt", "a/b.txt", "b.JSON", ".git/config", "a/.hidden", "z"]);
    let got = get_files_in_tree(found, None, None);
    assert_eq!(got, paths(&["a/b.txt", "a-c.txt", "b.JSON", "z"]));
    let mut by_path: Vec<std::path::PathBuf> = got.iter().map(std::path::PathBuf::from).collect();
    by_path.sort();
    let again: Vec<String> = by_path.iter().map(|p| p.display().to_string()).collect();
    assert_eq!(got, again);
}

#[test]
fn tree_extension_lists_ignore_case() {
    let found = paths(&["a.json", "b.JSON", "c.json5", "d.html", "e"]);
    let with = get_files_in_tree(found.clone(), Some(paths(&["Json", "json5"])), None);
    assert_eq!(with, paths(&["a.json", "b.JSON", "c.json5", "e"]));
    let without = get_files_in_tree(found, None, Some(paths(&["HTML"])));
    assert_eq!(without, paths(&["a.json", "b.JSON", "c.json5", "e"]));
}

#[test]
fn dir_files_need_a_listed_extension() {
    let names = paths(&["index.html", ".hidden.html", "style.css", "README", "page.HTML"]);
    assert_eq!(
        get_files_in_dir(names.clone(), Some(paths(&["html"])), None),
        paths(&["index.html"])
    );
    assert_eq!(
        get_files_in_dir(names.clone(), None, Some(paths(&["html"]))),
        paths(&["style.css", "page.HTML"])
    );
    assert_eq!(
        get_files_in_dir(names, None, None),
        paths(&["index.html", "style.css", "README", "page.HTML"])
    );
}
