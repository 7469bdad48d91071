//! What happens to each content file: skipped, copied or rendered, and
//! where its output goes.
//!
//! A path with a segment that starts with `_` is skipped. A name that starts
//! with `.` is an ordinary name here: such a file is copied or rendered like
//! any other (the scan leaves out folder metadata files by name, and the
//! watcher ignores changes under hidden paths).
use crate::paths::{
    lemma_file_name_has_no_slash, lemma_segment_of_name, lemma_segment_split, extension, extension_is, file_name, file_name_of, is_underscored, join, join_paths, parent,
    parent_of, same_text, segment_starts_with, stem, stem_of,
};
use vstd::prelude::*;
use vstd::string::*;

verus! {

/// What a build does with a content file.
#[derive(Debug, Clone, Copy, PartialEq, Eq, Structural)]
pub enum FileMoveType {
    /// Copied byte for byte to the same relative path.
    Copy,
    /// Left out of the output.
    Skip,
    /// Rendered through the template engine.
    Transform,
}

pub open spec fn html_ext() -> Seq<char> {
    seq!['h', 't', 'm', 'l']
}

pub open spec fn index_stem() -> Seq<char> {
    seq!['i', 'n', 'd', 'e', 'x']
}

/// `index.html`
pub open spec fn index_page() -> Seq<char> {
    index_stem() + seq!['.'] + html_ext()
}

pub open spec fn is_html(name: Seq<char>) -> bool {
    extension(name) == Some(html_ext())
}

/// A file in folder `dir` named `name` is never published.
pub open spec fn skipped(dir: Seq<char>, name: Seq<char>) -> bool {
    is_underscored(dir) || is_underscored(name)
}

pub open spec fn move_type_of(dir: Seq<char>, name: Seq<char>) -> FileMoveType {
    if skipped(dir, name) {
        FileMoveType::Skip
    } else if is_html(name) {
        FileMoveType::Transform
    } else {
        FileMoveType::Copy
    }
}

/// Folder of the output, relative to the output root: a page other than
/// `index.html` gets a folder of its own, so that it is served at a clean URL.
pub open spec fn output_dir_of(dir: Seq<char>, name: Seq<char>) -> Option<Seq<char>> {
    if skipped(dir, name) {
        None
    } else if is_html(name) && stem(name) != index_stem() {
        Some(join(dir, stem(name)))
    } else {
        Some(dir)
    }
}

pub open spec fn output_name_of(dir: Seq<char>, name: Seq<char>) -> Option<Seq<char>> {
    if skipped(dir, name) {
        None
    } else if is_html(name) {
        Some(index_page())
    } else {
        Some(name)
    }
}

/// Output path of a content path, relative to the output root.
pub open spec fn output_path_of(p: Seq<char>) -> Option<Seq<char>> {
    let dir = parent(p);
    let name = file_name(p);
    match (output_dir_of(dir, name), output_name_of(dir, name)) {
        (Some(d), Some(n)) => Some(join(d, n)),
        _ => None,
    }
}

pub open spec fn opt_view(o: Option<String>) -> Option<Seq<char>> {
    match o {
        Some(s) => Some(s@),
        None => None,
    }
}

/// A path is skipped exactly when one of its segments starts with `_`.
pub proof fn lemma_skipped_iff_underscored(p: Seq<char>)
    ensures
        skipped(parent(p), file_name(p)) == is_underscored(p),
{
    lemma_segment_split(p, '_');
    lemma_file_name_has_no_slash(p);
    lemma_segment_of_name(file_name(p), '_');
}

/// Every path with a segment that starts with `_` is skipped and has no
/// output path.
pub proof fn lemma_underscored_path_is_skipped(p: Seq<char>)
    requires
        is_underscored(p),
    ensures
        move_type_of(parent(p), file_name(p)) == FileMoveType::Skip,
        output_path_of(p) is None,
{
    lemma_skipped_iff_underscored(p);
}

/// A published page is rendered to `index.html`: in its own folder when it
/// is an index, else in a folder named after its stem.
pub proof fn lemma_page_output_path(p: Seq<char>)
    requires
        !is_underscored(p),
        is_html(file_name(p)),
    ensures
        move_type_of(parent(p), file_name(p)) == FileMoveType::Transform,
        stem(file_name(p)) == index_stem() ==> output_path_of(p) == Some(
            join(parent(p), index_page()),
        ),
        stem(file_name(p)) != index_stem() ==> output_path_of(p) == Some(
            join(join(parent(p), stem(file_name(p))), index_page()),
        ),
{
    lemma_skipped_iff_underscored(p);
}

/// Any other published file keeps its path.
pub proof fn lemma_copied_file_keeps_path(p: Seq<char>)
    requires
        !is_underscored(p),
        !is_html(file_name(p)),
    ensures
        move_type_of(parent(p), file_name(p)) == FileMoveType::Copy,
        output_path_of(p) == Some(join(parent(p), file_name(p))),
{
    lemma_skipped_iff_underscored(p);
}

/// One content file, classified.
#[derive(Debug, Clone, PartialEq, Eq)]
pub struct FileDetails {
    /// Folder of the file, relative to the content root.
    pub input_dir: String,
    pub input_name: String,
    /// Folder of the output, relative to the output root; `None` for a
    /// skipped file.
    pub output_dir: Option<String>,
    pub output_name: Option<String>,
    pub move_type: FileMoveType,
}

impl View for FileDetails {
    type V = (Seq<char>, Seq<char>, Option<Seq<char>>, Option<Seq<char>>, FileMoveType);

    open spec fn view(&self) -> Self::V {
        (
            self.input_dir@,
            self.input_name@,
            opt_view(self.output_dir),
            opt_view(self.output_name),
            self.move_type,
        )
    }
}

impl FileDetails {
    /// Every field but the input folder and name follows from those two.
    pub open spec fn wf(&self) -> bool {
        &&& self.move_type == move_type_of(self.input_dir@, self.input_name@)
        &&& opt_view(self.output_dir) == output_dir_of(self.input_dir@, self.input_name@)
        &&& opt_view(self.output_name) == output_name_of(self.input_dir@, self.input_name@)
    }

    /// Path of the file relative to the content root; it names its template.
    pub open spec fn input_path_spec(&self) -> Seq<char> {
        join(self.input_dir@, self.input_name@)
    }

    pub fn from_parts(input_dir: String, input_name: String) -> (r: FileDetails)
        ensures
            r.input_dir@ == input_dir@,
            r.input_name@ == input_name@,
            r.wf(),
    {
        let skip = segment_starts_with(input_dir.as_str(), '_') || segment_starts_with(
            input_name.as_str(),
            '_',
        );
        proof {
            reveal_strlit("html");
            reveal_strlit("index");
            reveal_strlit("index.html");
            assert("html"@ =~= html_ext());
            assert("index"@ =~= index_stem());
            assert("index.html"@ =~= index_page());
        }
        if skip {
            FileDetails {
                input_dir,
                input_name,
                output_dir: None,
                output_name: None,
                move_type: FileMoveType::Skip,
            }
        } else if extension_is(input_name.as_str(), "html") {
            let st = stem_of(input_name.as_str());
            let out_dir = if same_text(st.as_str(), "index") {
                input_dir.clone()
            } else {
                join_paths(input_dir.as_str(), st.as_str())
            };
            FileDetails {
                input_dir,
                input_name,
                output_dir: Some(out_dir),
                output_name: Some(String::from_str("index.html")),
                move_type: FileMoveType::Transform,
            }
        } else {
            let out_dir = input_dir.clone();
            let out_name = input_name.clone();
            FileDetails {
                input_dir,
                input_name,
                output_dir: Some(out_dir),
                output_name: Some(out_name),
                move_type: FileMoveType::Copy,
            }
        }
    }

    /// Classifies the file at `input_path`, relative to the content root.
    pub fn new(input_path: &str) -> (r: FileDetails)
        ensures
            r.input_dir@ == parent(input_path@),
            r.input_name@ == file_name(input_path@),
            r.wf(),
    {
        FileDetails::from_parts(parent_of(input_path), file_name_of(input_path))
    }

    pub fn get_input_name(input_path: &str) -> (r: String)
        ensures
            r@ == file_name(input_path@),
    {
        file_name_of(input_path)
    }

    pub fn get_input_dir(input_path: &str) -> (r: String)
        ensures
            r@ == parent(input_path@),
    {
        parent_of(input_path)
    }

    pub fn get_move_type(input_path: &str) -> (r: FileMoveType)
        ensures
            r == move_type_of(parent(input_path@), file_name(input_path@)),
    {
        FileDetails::new(input_path).move_type
    }

    pub fn get_output_dir(input_path: &str) -> (r: Option<String>)
        ensures
            opt_view(r) == output_dir_of(parent(input_path@), file_name(input_path@)),
    {
        FileDetails::new(input_path).output_dir
    }

    pub fn get_output_name(input_path: &str) -> (r: Option<String>)
        ensures
            opt_view(r) == output_name_of(parent(input_path@), file_name(input_path@)),
    {
        FileDetails::new(input_path).output_name
    }

    /// The path relative to the content root.
    pub fn input_path(&self) -> (r: String)
        ensures
            r@ == self.input_path_spec(),
    {
        join_paths(self.input_dir.as_str(), self.input_name.as_str())
    }

    /// The output path relative to the output root; `None` for a skipped file.
    pub fn output_path(&self) -> (r: Option<String>)
        ensures
            match (opt_view(self.output_dir), opt_view(self.output_name)) {
                (Some(d), Some(n)) => opt_view(r) == Some(join(d, n)),
                _ => r is None,
            },
    {
        match (&self.output_dir, &self.output_name) {
            (Some(d), Some(n)) => Some(join_paths(d.as_str(), n.as_str())),
            _ => None,
        }
    }

    /// Records are listed in the order of (folder, name).
    pub fn sort_key(&self) -> (r: (String, String))
        ensures
            r.0@ == self.input_dir@,
            r.1@ == self.input_name@,
    {
        (self.input_dir.clone(), self.input_name.clone())
    }
}

/// The output path of a page under `output_root`.
pub open spec fn html_output_path(input_path: Seq<char>, output_root: Seq<char>) -> Seq<char> {
    if file_name(input_path) == index_page() {
        join(output_root, input_path)
    } else {
        join(
            join(join(output_root, parent(input_path)), stem(file_name(input_path))),
            index_page(),
        )
    }
}

/// A page to render and where it goes.
#[derive(Debug, Clone)]
pub struct HtmlFileDetails {
    pub input_path: String,
    pub output_root: String,
}

impl HtmlFileDetails {
    pub fn new(input_path: &str, output_root: &str) -> (r: HtmlFileDetails)
        ensures
            r.input_path@ == input_path@,
            r.output_root@ == output_root@,
    {
        HtmlFileDetails {
            input_path: String::from_str(input_path),
            output_root: String::from_str(output_root),
        }
    }

    pub fn output_path(&self) -> (r: String)
        ensures
            r@ == html_output_path(self.input_path@, self.output_root@),
    {
        let name = file_name_of(self.input_path.as_str());
        proof {
            reveal_strlit("index.html");
            assert("index.html"@ =~= index_page());
        }
        if same_text(name.as_str(), "index.html") {
            join_paths(self.output_root.as_str(), self.input_path.as_str())
        } else {
            let dir = parent_of(self.input_path.as_str());
            let st = stem_of(name.as_str());
            let a = join_paths(self.output_root.as_str(), dir.as_str());
            let b = join_paths(a.as_str(), st.as_str());
            join_paths(b.as_str(), "index.html")
        }
    }
}

/// A file copied as it is, and where it goes.
#[derive(Debug, Clone)]
pub struct CopyFileDetails {
    pub content_root: String,
    pub input_file: String,
    pub output_root: String,
}

impl CopyFileDetails {
    pub fn new(content_root: &str, input_file: &str, output_root: &str) -> (r: CopyFileDetails)
        ensures
            r.content_root@ == content_root@,
            r.input_file@ == input_file@,
            r.output_root@ == output_root@,
    {
        CopyFileDetails {
            content_root: String::from_str(content_root),
            input_file: String::from_str(input_file),
            output_root: String::from_str(output_root),
        }
    }

    pub fn input_path(&self) -> (r: String)
        ensures
            r@ == join(self.content_root@, self.input_file@),
    {
        join_paths(self.content_root.as_str(), self.input_file.as_str())
    }

    pub fn output_path(&self) -> (r: String)
        ensures
            r@ == join(self.output_root@, self.input_file@),
    {
        join_paths(self.output_root.as_str(), self.input_file.as_str())
    }
}

} // verus!
