//! Selections of the files of a folder or of a tree by extension, for the
//! data and script folders. The listing of the disk is handed in.
use crate::lists::views;
use crate::order::{path_sorted, sort_paths};
use crate::paths::{extension, extension_of, file_name, file_name_of, is_dotted, same_text, segment_starts_with};
use vstd::prelude::*;

verus! {

/// What `str::to_lowercase` makes of the text.
pub uninterp spec fn lower_of(s: Seq<char>) -> Seq<char>;

/// Relies on str::to_lowercase: the text with each character in lower case.
#[verifier::external_body]
fn lowercase(s: &str) -> (r: String)
    ensures
        r@ == lower_of(s@),
{
    s.to_lowercase()
}

pub open spec fn opt_views(o: Option<Vec<String>>) -> Option<Seq<Seq<char>>> {
    match o {
        Some(v) => Some(views(v@)),
        None => None,
    }
}

/// Some item of `list` is `e`, ignoring case.
pub open spec fn holds_folded(list: Seq<Seq<char>>, e: Seq<char>) -> bool {
    exists|k: int| 0 <= k < list.len() && lower_of(#[trigger] list[k]) == lower_of(e)
}

/// A file of a tree is kept unless a segment of its path starts with `.`,
/// its extension is missing from `with` or it is in `without`; a file
/// without an extension passes both.
pub open spec fn kept_in_tree(
    p: Seq<char>,
    with: Option<Seq<Seq<char>>>,
    without: Option<Seq<Seq<char>>>,
) -> bool {
    &&& !is_dotted(p)
    &&& match (with, extension(file_name(p))) {
        (Some(w), Some(e)) => holds_folded(w, e),
        _ => true,
    }
    &&& match (without, extension(file_name(p))) {
        (Some(w), Some(e)) => !holds_folded(w, e),
        _ => true,
    }
}

/// The items of `s` that the predicate keeps, in order.
pub open spec fn kept_in_tree_all(
    s: Seq<Seq<char>>,
    with: Option<Seq<Seq<char>>>,
    without: Option<Seq<Seq<char>>>,
) -> Seq<Seq<char>>
    decreases s.len(),
{
    if s.len() == 0 {
        s
    } else {
        let rest = kept_in_tree_all(s.drop_last(), with, without);
        if kept_in_tree(s.last(), with, without) {
            rest.push(s.last())
        } else {
            rest
        }
    }
}

fn holds_folded_exec(list: &Vec<String>, e: &str) -> (r: bool)
    ensures
        r == holds_folded(views(list@), e@),
{
    let target = lowercase(e);
    let n = list.len();
    let mut k: usize = 0;
    while k < n
        invariant
            n == list@.len(),
            k <= n,
            target@ == lower_of(e@),
            forall|j: int| 0 <= j < k ==> lower_of(#[trigger] views(list@)[j]) != lower_of(e@),
        decreases n - k,
    {
        let item = lowercase(list[k].as_str());
        if same_text(item.as_str(), target.as_str()) {
            assert(lower_of(views(list@)[k as int]) == lower_of(e@));
            return true;
        }
        k = k + 1;
    }
    false
}

fn keeps_in_tree(p: &str, with: &Option<Vec<String>>, without: &Option<Vec<String>>) -> (r: bool)
    ensures
        r == kept_in_tree(p@, opt_views(*with), opt_views(*without)),
{
    if segment_starts_with(p, '.') {
        return false;
    }
    let name = file_name_of(p);
    match extension_of(name.as_str()) {
        Some(e) => {
            let with_ok = match with {
                Some(w) => holds_folded_exec(w, e.as_str()),
                None => true,
            };
            let without_ok = match without {
                Some(w) => !holds_folded_exec(w, e.as_str()),
                None => true,
            };
            with_ok && without_ok
        },
        None => true,
    }
}

/// The files of a tree (paths relative to its root, as the walk found them)
/// that are not hidden and pass the extension lists, compared without
/// regard to case; sorted segment by segment.
pub fn get_files_in_tree(
    paths: Vec<String>,
    with: Option<Vec<String>>,
    without: Option<Vec<String>>,
) -> (r: Vec<String>)
    ensures
        path_sorted(views(r@)),
        views(r@).to_multiset() == kept_in_tree_all(
            views(paths@),
            opt_views(with),
            opt_views(without),
        ).to_multiset(),
{
    let mut kept: Vec<String> = Vec::new();
    let n = paths.len();
    let mut i: usize = 0;
    while i < n
        invariant
            n == paths@.len(),
            i <= n,
            views(kept@) == kept_in_tree_all(
                views(paths@).take(i as int),
                opt_views(with),
                opt_views(without),
            ),
        decreases n - i,
    {
        let p = &paths[i];
        proof {
            let all = views(paths@);
            assert(all.take(i + 1).drop_last() =~= all.take(i as int));
            assert(all.take(i + 1).last() == p@);
        }
        if keeps_in_tree(p.as_str(), &with, &without) {
            let ghost before = kept@;
            kept.push(p.clone());
            proof {
                assert(views(kept@) =~= views(before).push(p@));
            }
        }
        i = i + 1;
    }
    assert(views(paths@).take(n as int) =~= views(paths@));
    sort_paths(&kept)
}

/// A file of a folder is kept unless its name starts with `.`; where a list
/// is given, it must have an extension, found in `with` and not in
/// `without`, with case.
pub open spec fn kept_in_dir(
    p: Seq<char>,
    with: Option<Seq<Seq<char>>>,
    without: Option<Seq<Seq<char>>>,
) -> bool {
    &&& !(p.len() > 0 && p[0] == '.')
    &&& match with {
        Some(w) => match extension(file_name(p)) {
            Some(e) => w.contains(e),
            None => false,
        },
        None => true,
    }
    &&& match without {
        Some(w) => match extension(file_name(p)) {
            Some(e) => !w.contains(e),
            None => false,
        },
        None => true,
    }
}

pub open spec fn kept_in_dir_all(
    s: Seq<Seq<char>>,
    with: Option<Seq<Seq<char>>>,
    without: Option<Seq<Seq<char>>>,
) -> Seq<Seq<char>>
    decreases s.len(),
{
    if s.len() == 0 {
        s
    } else {
        let rest = kept_in_dir_all(s.drop_last(), with, without);
        if kept_in_dir(s.last(), with, without) {
            rest.push(s.last())
        } else {
            rest
        }
    }
}

fn holds_exact(list: &Vec<String>, e: &str) -> (r: bool)
    ensures
        r == views(list@).contains(e@),
{
    let n = list.len();
    let mut k: usize = 0;
    while k < n
        invariant
            n == list@.len(),
            k <= n,
            forall|j: int| 0 <= j < k ==> views(list@)[j] != e@,
        decreases n - k,
    {
        if same_text(list[k].as_str(), e) {
            assert(views(list@)[k as int] == e@);
            return true;
        }
        k = k + 1;
    }
    false
}

fn keeps_in_dir(p: &str, with: &Option<Vec<String>>, without: &Option<Vec<String>>) -> (r: bool)
    ensures
        r == kept_in_dir(p@, opt_views(*with), opt_views(*without)),
{
    if p.unicode_len() > 0 && p.get_char(0) == '.' {
        return false;
    }
    let name = file_name_of(p);
    let ext = extension_of(name.as_str());
    let with_ok = match (with, &ext) {
        (Some(w), Some(e)) => holds_exact(w, e.as_str()),
        (Some(_), None) => false,
        (None, _) => true,
    };
    let without_ok = match (without, &ext) {
        (Some(w), Some(e)) => !holds_exact(w, e.as_str()),
        (Some(_), None) => false,
        (None, _) => true,
    };
    with_ok && without_ok
}

/// The files of one folder (names as the listing gave them, in its order)
/// that are not hidden and pass the extension lists.
pub fn get_files_in_dir(
    names: Vec<String>,
    with: Option<Vec<String>>,
    without: Option<Vec<String>>,
) -> (r: Vec<String>)
    ensures
        views(r@) == kept_in_dir_all(views(names@), opt_views(with), opt_views(without)),
{
    let mut kept: Vec<String> = Vec::new();
    let n = names.len();
    let mut i: usize = 0;
    while i < n
        invariant
            n == names@.len(),
            i <= n,
            views(kept@) == kept_in_dir_all(
                views(names@).take(i as int),
                opt_views(with),
                opt_views(without),
            ),
        decreases n - i,
    {
        let p = &names[i];
        proof {
            let all = views(names@);
            assert(all.take(i + 1).drop_last() =~= all.take(i as int));
            assert(all.take(i + 1).last() == p@);
        }
        if keeps_in_dir(p.as_str(), &with, &without) {
            let ghost before = kept@;
            kept.push(p.clone());
            proof {
                assert(views(kept@) =~= views(before).push(p@));
            }
        }
        i = i + 1;
    }
    assert(views(names@).take(n as int) =~= views(names@));
    kept
}

} // verus!
