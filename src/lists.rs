//! Selections of content paths: what is copied, what is rendered, what
//! feeds the data, text and highlighted-source maps.
use crate::classify::{html_ext, is_html};
use crate::paths::{extension, extension_is, file_name, file_name_of, is_underscored, segment_starts_with};
use vstd::prelude::*;

verus! {

pub open spec fn views(v: Seq<String>) -> Seq<Seq<char>> {
    v.map_values(|s: String| s@)
}

pub open spec fn json_ext() -> Seq<char> {
    seq!['j', 's', 'o', 'n']
}

pub open spec fn txt_ext() -> Seq<char> {
    seq!['t', 'x', 't']
}

/// Extensions of the source files shown with syntax highlighting.
pub open spec fn highlight_exts() -> Seq<Seq<char>> {
    seq![
        seq!['r', 's'],
        seq!['c', 's', 's'],
        html_ext(),
        seq!['j', 'a', 'v', 'a'],
        seq!['j', 's'],
        json_ext(),
        seq!['p', 'y'],
        txt_ext(),
    ]
}

/// Which paths a listing keeps.
#[derive(Debug, Clone, Copy, PartialEq, Eq, Structural)]
pub enum PathFilter {
    /// Published files that are not pages: copied as they are.
    Copied,
    /// Published pages.
    Pages,
    /// JSON files, published or not.
    Data,
    /// Text files, published or not.
    Text,
    /// Source files in a highlighted language, published or not.
    Highlighted,
}

pub open spec fn keeps(f: PathFilter, p: Seq<char>) -> bool {
    match f {
        PathFilter::Copied => !is_underscored(p) && !is_html(file_name(p)),
        PathFilter::Pages => !is_underscored(p) && is_html(file_name(p)),
        PathFilter::Data => extension(file_name(p)) == Some(json_ext()),
        PathFilter::Text => extension(file_name(p)) == Some(txt_ext()),
        PathFilter::Highlighted => match extension(file_name(p)) {
            Some(e) => highlight_exts().contains(e),
            None => false,
        },
    }
}

/// The paths of `s` that `f` keeps, in their order.
pub open spec fn kept(f: PathFilter, s: Seq<Seq<char>>) -> Seq<Seq<char>>
    decreases s.len(),
{
    if s.len() == 0 {
        s
    } else {
        let rest = kept(f, s.drop_last());
        if keeps(f, s.last()) {
            rest.push(s.last())
        } else {
            rest
        }
    }
}

fn is_highlighted_name(name: &str) -> (r: bool)
    ensures
        r == match extension(name@) {
            Some(e) => highlight_exts().contains(e),
            None => false,
        },
{
    proof {
        reveal_strlit("rs");
        reveal_strlit("css");
        reveal_strlit("html");
        reveal_strlit("java");
        reveal_strlit("js");
        reveal_strlit("json");
        reveal_strlit("py");
        reveal_strlit("txt");
        assert("rs"@ =~= highlight_exts()[0]);
        assert("css"@ =~= highlight_exts()[1]);
        assert("html"@ =~= highlight_exts()[2]);
        assert("java"@ =~= highlight_exts()[3]);
        assert("js"@ =~= highlight_exts()[4]);
        assert("json"@ =~= highlight_exts()[5]);
        assert("py"@ =~= highlight_exts()[6]);
        assert("txt"@ =~= highlight_exts()[7]);
    }
    let r = extension_is(name, "rs") || extension_is(name, "css") || extension_is(name, "html")
        || extension_is(name, "java") || extension_is(name, "js") || extension_is(name, "json")
        || extension_is(name, "py") || extension_is(name, "txt");
    proof {
        if let Some(e) = extension(name@) {
            if highlight_exts().contains(e) {
                let k = choose|k: int| 0 <= k < highlight_exts().len() && highlight_exts()[k] == e;
                assert(r);
            }
            if r {
                assert(highlight_exts().contains(e));
            }
        }
    }
    r
}

pub fn keeps_path(f: PathFilter, p: &str) -> (r: bool)
    ensures
        r == keeps(f, p@),
{
    let name = file_name_of(p);
    proof {
        reveal_strlit("html");
        reveal_strlit("json");
        reveal_strlit("txt");
        assert("html"@ =~= html_ext());
        assert("json"@ =~= json_ext());
        assert("txt"@ =~= txt_ext());
    }
    match f {
        PathFilter::Copied => !segment_starts_with(p, '_') && !extension_is(name.as_str(), "html"),
        PathFilter::Pages => !segment_starts_with(p, '_') && extension_is(name.as_str(), "html"),
        PathFilter::Data => extension_is(name.as_str(), "json"),
        PathFilter::Text => extension_is(name.as_str(), "txt"),
        PathFilter::Highlighted => is_highlighted_name(name.as_str()),
    }
}

/// The paths that `f` keeps, in their order.
pub fn filter_paths(source_paths: Vec<String>, f: PathFilter) -> (r: Vec<String>)
    ensures
        views(r@) == kept(f, views(source_paths@)),
{
    let mut r: Vec<String> = Vec::new();
    let n = source_paths.len();
    let mut i: usize = 0;
    while i < n
        invariant
            n == source_paths@.len(),
            i <= n,
            views(r@) == kept(f, views(source_paths@).take(i as int)),
        decreases n - i,
    {
        let p = &source_paths[i];
        let keep = keeps_path(f, p.as_str());
        proof {
            let all = views(source_paths@);
            assert(all.take(i + 1).drop_last() =~= all.take(i as int));
            assert(all.take(i + 1).last() == p@);
        }
        let ghost before = r@;
        if keep {
            r.push(p.clone());
            proof {
                assert(views(r@) =~= views(before).push(p@));
            }
        }
        i = i + 1;
    }
    assert(views(source_paths@).take(n as int) =~= views(source_paths@));
    r
}

/// Published files that are not pages: those copied as they are.
pub fn copy_file_list(source_paths: Vec<String>) -> (r: Vec<String>)
    ensures
        views(r@) == kept(PathFilter::Copied, views(source_paths@)),
{
    filter_paths(source_paths, PathFilter::Copied)
}

/// Published pages: those rendered through their template.
pub fn html_file_list(source_paths: Vec<String>) -> (r: Vec<String>)
    ensures
        views(r@) == kept(PathFilter::Pages, views(source_paths@)),
{
    filter_paths(source_paths, PathFilter::Pages)
}

pub fn json_file_list(source_paths: Vec<String>) -> (r: Vec<String>)
    ensures
        views(r@) == kept(PathFilter::Data, views(source_paths@)),
{
    filter_paths(source_paths, PathFilter::Data)
}

pub fn txt_file_list(source_paths: Vec<String>) -> (r: Vec<String>)
    ensures
        views(r@) == kept(PathFilter::Text, views(source_paths@)),
{
    filter_paths(source_paths, PathFilter::Text)
}

pub fn highlighted_file_list(source_paths: Vec<String>) -> (r: Vec<String>)
    ensures
        views(r@) == kept(PathFilter::Highlighted, views(source_paths@)),
{
    filter_paths(source_paths, PathFilter::Highlighted)
}

} // verus!
