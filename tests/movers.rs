use bs_site_builder::classify::{CopyFileDetails, HtmlFileDetails};
use bs_site_builder::lists::{
    copy_file_list, highlighted_file_list, html_file_list, json_file_list, txt_file_list,
};

fn paths(list: &[&str]) -> Vec<String> {
    list.iter().map(|s| s.to_string()).collect()
}

#[test]
fn copy_file_list_test() {
    let source_list = vec![
        "skip.html",
        "sub-dir/skip.html",
        "include.txt",
        "include.json",
        "include-no-extension",
        "sub-dir/include.txt",
        "sub-dir/include.json",
        "sub-dir/include-no-extension",
    ];
    let left_list = vec![
        "include.txt",
        "include.json",
        "include-no-extension",
        "sub-dir/include.txt",
        "sub-dir/include.json",
        "sub-dir/include-no-extension",
    ];
    let right = copy_file_list(paths(&source_list));
    assert_eq!(paths(&left_list), right);
}

#[test]
fn highlighted_file_list_test() {
    let source_list = vec![
        "skip-image.jpg",
        "skip-image.jpeg",
        "skip-image.png",
        "skip-image.gif",
        "skip-image.avif",
        "skip-image.webm",
        "skip-image.webp",
        "skip-image.webm",
        "yes.html",
        "yes.js",
        "yes.rs",
        "sub-dir/yes.rs",
        "skip-no-extension",
        "_include-underscore-yes.py",
        "_include-underscore-dir/yes.py",
    ];
    let left_list = vec![
        "yes.html",
        "yes.js",
        "yes.rs",
        "sub-dir/yes.rs",
        "_include-underscore-yes.py",
        "_include-underscore-dir/yes.py",
    ];
    let right = highlighted_file_list(paths(&source_list));
    assert_eq!(paths(&left_list), right);
}

#[test]
fn html_file_list_html_file_list_test() {
    let source_list = vec![
        "index.html",
        "sub-dir/file.html",
        "skip.txt",
        "no-extension",
        "_skip-dir/text.html",
        "sub-dir/_skip.html",
    ];
    let left_list = vec!["index.html", "sub-dir/file.html"];
    let right = html_file_list(paths(&source_list));
    assert_eq!(paths(&left_list), right);
}

#[test]
fn json_file_list_html_file_list_test() {
    let source_list = vec![
        "data.json",
        "sub-dir/data.json",
        "skip.html",
        "skip-no-extension",
        "_include-underscore-data.json",
        "_include-underscore-dir/data.json",
    ];
    let left_list = vec![
        "data.json",
        "sub-dir/data.json",
        "_include-underscore-data.json",
        "_include-underscore-dir/data.json",
    ];
    let right = json_file_list(paths(&source_list));
    assert_eq!(paths(&left_list), right);
}

#[test]
fn txt_file_list_test() {
    let source_list = vec![
        "file.txt",
        "sub-dir/file.txt",
        "skip.html",
        "skip-no-extension",
        "_include-underscore-file.txt",
        "_include-underscore-dir/file.txt",
    ];
    let left_list = vec![
        "file.txt",
        "sub-dir/file.txt",
        "_include-underscore-file.txt",
        "_include-underscore-dir/file.txt",
    ];
    let right = txt_file_list(paths(&source_list));
    assert_eq!(paths(&left_list), right);
}

#[test]
fn copy_file_details_paths() {
    let cases = [
        ("content", "file.txt", "out", "content/file.txt", "out/file.txt"),
        (
            "content",
            "sub-path/file.txt",
            "out",
            "content/sub-path/file.txt",
            "out/sub-path/file.txt",
        ),
    ];
    for (content_root, input_file, output_root, input_path, output_path) in cases {
        let details = CopyFileDetails::new(content_root, input_file, output_root);
        assert_eq!(details.input_path(), input_path);
        assert_eq!(details.output_path(), output_path);
    }
}

#[test]
fn html_file_details_output_path() {
    let cases = [
        ("index.html", "out", "out/index.html"),
        ("about.html", "out", "out/about/index.html"),
        ("sub-path/widget.html", "out", "out/sub-path/widget/index.html"),
        ("sub-path/index.html", "out", "out/sub-path/index.html"),
    ];
    for (input_path, output_root, output_path) in cases {
        let transform = HtmlFileDetails::new(input_path, output_root);
        assert_eq!(transform.output_path(), output_path);
    }
}

#[test]
fn empty_list_stays_empty() {
    assert!(copy_file_list(vec![]).is_empty());
    assert!(html_file_list(vec![]).is_empty());
}
