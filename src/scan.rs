//! Records of a scanned content tree. The walk itself hands over the paths
//! it found, relative to the content root and in whatever order; the
//! listings here classify them and put them in (folder, name) order.
use crate::classify::FileDetails;
use crate::lists::views;
use crate::order::{key_sorted, key_views, lemma_sorted_listing_unique, sort_keys, Key};
use crate::paths::{file_name, file_name_of, parent, parent_of, same_text};
use vstd::prelude::*;

verus! {

/// The name of the folder metadata file that one desktop system drops in
/// every folder.
pub open spec fn ds_store() -> Seq<char> {
    seq!['.', 'D', 'S', '_', 'S', 't', 'o', 'r', 'e']
}

pub open spec fn entry_key(p: Seq<char>) -> Key {
    (parent(p), file_name(p))
}

/// A found file is listed unless it is folder metadata; a found folder is
/// listed unless it is the root itself.
pub open spec fn listed(folders: bool, p: Seq<char>) -> bool {
    if folders {
        file_name(p).len() > 0
    } else {
        file_name(p) != ds_store()
    }
}

/// Keys of the listed paths, in the order found.
pub open spec fn entries(folders: bool, s: Seq<Seq<char>>) -> Seq<Key>
    decreases s.len(),
{
    if s.len() == 0 {
        Seq::empty()
    } else {
        let rest = entries(folders, s.drop_last());
        if listed(folders, s.last()) {
            rest.push(entry_key(s.last()))
        } else {
            rest
        }
    }
}

pub open spec fn file_keys(s: Seq<FileDetails>) -> Seq<Key> {
    s.map_values(|f: FileDetails| (f.input_dir@, f.input_name@))
}

fn entry_keys(paths: &Vec<String>, folders: bool) -> (r: Vec<(String, String)>)
    ensures
        key_views(r@) == entries(folders, views(paths@)),
{
    let mut r: Vec<(String, String)> = Vec::new();
    let n = paths.len();
    let mut i: usize = 0;
    proof {
        reveal_strlit(".DS_Store");
        assert(".DS_Store"@ =~= ds_store());
        assert(views(paths@).take(0) =~= Seq::<Seq<char>>::empty());
        assert(key_views(r@) =~= Seq::<Key>::empty());
    }
    while i < n
        invariant
            n == paths@.len(),
            i <= n,
            key_views(r@) == entries(folders, views(paths@).take(i as int)),
            ".DS_Store"@ == ds_store(),
        decreases n - i,
    {
        let p = paths[i].as_str();
        let name = file_name_of(p);
        let keep = if folders {
            name.unicode_len() > 0
        } else {
            !same_text(name.as_str(), ".DS_Store")
        };
        proof {
            let all = views(paths@);
            assert(all.take(i + 1).drop_last() =~= all.take(i as int));
            assert(all.take(i + 1).last() == p@);
        }
        if keep {
            let ghost before = r@;
            r.push((parent_of(p), name));
            proof {
                assert(key_views(r@) =~= key_views(before).push(entry_key(p@)));
            }
        }
        i = i + 1;
    }
    assert(views(paths@).take(n as int) =~= views(paths@));
    r
}

/// The files found, classified, in (folder, name) order; folder metadata
/// files are left out.
pub fn file_list(paths: Vec<String>) -> (r: Vec<FileDetails>)
    ensures
        forall|i: int| 0 <= i < r@.len() ==> (#[trigger] r@[i]).wf(),
        key_sorted(file_keys(r@)),
        file_keys(r@).to_multiset() == entries(false, views(paths@)).to_multiset(),
{
    let keys = entry_keys(&paths, false);
    let sorted = sort_keys(&keys);
    let mut r: Vec<FileDetails> = Vec::new();
    let n = sorted.len();
    let mut i: usize = 0;
    while i < n
        invariant
            n == sorted@.len(),
            i <= n,
            file_keys(r@) == key_views(sorted@).take(i as int),
            forall|j: int| 0 <= j < r@.len() ==> (#[trigger] r@[j]).wf(),
        decreases n - i,
    {
        let d = FileDetails::from_parts(sorted[i].0.clone(), sorted[i].1.clone());
        let ghost before = r@;
        r.push(d);
        proof {
            assert(file_keys(r@) =~= file_keys(before).push(sorted@[i as int]@));
            assert(key_views(sorted@).take(i + 1) =~= key_views(sorted@).take(i as int).push(
                sorted@[i as int]@,
            ));
        }
        i = i + 1;
    }
    assert(key_views(sorted@).take(n as int) =~= key_views(sorted@));
    r
}

/// Two file listings of the same entries hold the same records in the same
/// order, whatever order the entries were found in.
pub proof fn lemma_file_listing_is_canonical(a: Seq<FileDetails>, b: Seq<FileDetails>)
    requires
        forall|i: int| 0 <= i < a.len() ==> (#[trigger] a[i]).wf(),
        forall|i: int| 0 <= i < b.len() ==> (#[trigger] b[i]).wf(),
        key_sorted(file_keys(a)),
        key_sorted(file_keys(b)),
        file_keys(a).to_multiset() == file_keys(b).to_multiset(),
    ensures
        a.len() == b.len(),
        forall|i: int|
            0 <= i < a.len() ==> (#[trigger] a[i])@ == b[i]@,
{
    lemma_sorted_listing_unique(file_keys(a), file_keys(b));
    assert forall|i: int| 0 <= i < a.len() implies (#[trigger] a[i])@ == b[i]@ by {
        assert(file_keys(a)[i] == file_keys(b)[i]);
    }
}

/// A folder of the content tree.
#[derive(Debug, Clone, PartialEq, Eq)]
pub struct FolderDetails {
    pub parent: String,
    pub name: String,
}

impl View for FolderDetails {
    type V = Key;

    open spec fn view(&self) -> Key {
        (self.parent@, self.name@)
    }
}

impl FolderDetails {
    pub fn new(input_path: &str) -> (r: FolderDetails)
        ensures
            r@ == entry_key(input_path@),
    {
        FolderDetails { parent: parent_of(input_path), name: file_name_of(input_path) }
    }

    pub fn sort_key(&self) -> (r: (String, String))
        ensures
            r@ == self@,
    {
        (self.parent.clone(), self.name.clone())
    }
}

/// A folder of the content tree, as the templates see it.
#[derive(Debug, Clone, PartialEq, Eq)]
pub struct ContentFolderDetails {
    pub parent_dir: String,
    pub name: String,
}

impl View for ContentFolderDetails {
    type V = Key;

    open spec fn view(&self) -> Key {
        (self.parent_dir@, self.name@)
    }
}

impl ContentFolderDetails {
    pub fn new(input_path: &str) -> (r: ContentFolderDetails)
        ensures
            r@ == entry_key(input_path@),
    {
        ContentFolderDetails { parent_dir: parent_of(input_path), name: file_name_of(input_path) }
    }

    pub fn sort_key(&self) -> (r: (String, String))
        ensures
            r@ == self@,
    {
        (self.parent_dir.clone(), self.name.clone())
    }
}

pub open spec fn folder_views(s: Seq<FolderDetails>) -> Seq<Key> {
    s.map_values(|f: FolderDetails| f@)
}

pub open spec fn content_folder_views(s: Seq<ContentFolderDetails>) -> Seq<Key> {
    s.map_values(|f: ContentFolderDetails| f@)
}

/// The folders found, but the root, in (parent, name) order.
pub fn folder_list(paths: Vec<String>) -> (r: Vec<FolderDetails>)
    ensures
        key_sorted(folder_views(r@)),
        folder_views(r@).to_multiset() == entries(true, views(paths@)).to_multiset(),
{
    let keys = entry_keys(&paths, true);
    let sorted = sort_keys(&keys);
    let mut r: Vec<FolderDetails> = Vec::new();
    let n = sorted.len();
    let mut i: usize = 0;
    while i < n
        invariant
            n == sorted@.len(),
            i <= n,
            folder_views(r@) == key_views(sorted@).take(i as int),
        decreases n - i,
    {
        let d = FolderDetails { parent: sorted[i].0.clone(), name: sorted[i].1.clone() };
        let ghost before = r@;
        r.push(d);
        proof {
            assert(folder_views(r@) =~= folder_views(before).push(sorted@[i as int]@));
            assert(key_views(sorted@).take(i + 1) =~= key_views(sorted@).take(i as int).push(
                sorted@[i as int]@,
            ));
        }
        i = i + 1;
    }
    assert(key_views(sorted@).take(n as int) =~= key_views(sorted@));
    r
}

/// The folders found, but the root, in (parent, name) order.
pub fn content_folder_list(paths: Vec<String>) -> (r: Vec<ContentFolderDetails>)
    ensures
        key_sorted(content_folder_views(r@)),
        content_folder_views(r@).to_multiset() == entries(true, views(paths@)).to_multiset(),
{
    let keys = entry_keys(&paths, true);
    let sorted = sort_keys(&keys);
    let mut r: Vec<ContentFolderDetails> = Vec::new();
    let n = sorted.len();
    let mut i: usize = 0;
    while i < n
        invariant
            n == sorted@.len(),
            i <= n,
            content_folder_views(r@) == key_views(sorted@).take(i as int),
        decreases n - i,
    {
        let d = ContentFolderDetails {
            parent_dir: sorted[i].0.clone(),
            name: sorted[i].1.clone(),
        };
        let ghost before = r@;
        r.push(d);
        proof {
            assert(content_folder_views(r@) =~= content_folder_views(before).push(
                sorted@[i as int]@,
            ));
            assert(key_views(sorted@).take(i + 1) =~= key_views(sorted@).take(i as int).push(
                sorted@[i as int]@,
            ));
        }
        i = i + 1;
    }
    assert(key_views(sorted@).take(n as int) =~= key_views(sorted@));
    r
}

} // verus!
