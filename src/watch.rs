//! Which file-change notifications ask for a rebuild. The notifier's events
//! come in batches; a batch asks for one rebuild when any event in it
//! qualifies.
use crate::classify::opt_view;
use crate::lists::views;
use crate::paths::{file_name, file_name_of, is_dotted, segment_starts_with};
use itertools::Itertools;
use vstd::prelude::*;

verus! {

/// What a change event says happened.
#[derive(Debug, Clone, Copy, PartialEq, Eq, Structural)]
pub enum ChangeKind {
    /// The contents of a file changed.
    ContentModified,
    /// A file was created.
    FileCreated,
    /// Anything else: metadata, permissions, removal, access.
    Other,
}

/// One event of a batch: what happened, and to which paths.
#[derive(Debug, Clone)]
pub struct ChangeEvent {
    pub kinds: Vec<ChangeKind>,
    pub paths: Vec<String>,
}

pub open spec fn qualifies(kinds: Seq<ChangeKind>) -> bool {
    exists|i: int|
        0 <= i < kinds.len() && (#[trigger] kinds[i] == ChangeKind::ContentModified || kinds[i]
            == ChangeKind::FileCreated)
}

/// An editor's backup file: its name ends with `~`.
pub open spec fn is_backup(p: Seq<char>) -> bool {
    file_name(p).len() > 0 && file_name(p).last() == '~'
}

pub open spec fn watched(p: Seq<char>) -> bool {
    !is_dotted(p) && !is_backup(p)
}

/// The first watched path of an event.
pub open spec fn first_watched(paths: Seq<Seq<char>>) -> Option<Seq<char>>
    decreases paths.len(),
{
    if paths.len() == 0 {
        None
    } else if watched(paths[0]) {
        Some(paths[0])
    } else {
        first_watched(paths.drop_first())
    }
}

/// For each qualifying event with a watched path, its first watched path.
pub open spec fn picked(events: Seq<ChangeEvent>) -> Seq<Seq<char>>
    decreases events.len(),
{
    if events.len() == 0 {
        Seq::empty()
    } else {
        let rest = picked(events.drop_last());
        let e = events.last();
        if qualifies(e.kinds@) {
            match first_watched(views(e.paths@)) {
                Some(p) => rest.push(p),
                None => rest,
            }
        } else {
            rest
        }
    }
}

/// The items of `s` in order, each only where it occurs first.
pub open spec fn first_occurrences(s: Seq<Seq<char>>) -> Seq<Seq<char>>
    decreases s.len(),
{
    if s.len() == 0 {
        s
    } else {
        let rest = first_occurrences(s.drop_last());
        if s.drop_last().contains(s.last()) {
            rest
        } else {
            rest.push(s.last())
        }
    }
}

/// Relies on itertools::Itertools::unique: it yields each item that is not
/// equal to one yielded before, in the order of the input.
#[verifier::external_body]
fn unique_paths(paths: Vec<String>) -> (r: Vec<String>)
    ensures
        views(r@) == first_occurrences(views(paths@)),
{
    paths.into_iter().unique().collect()
}

pub fn is_watched(p: &str) -> (r: bool)
    ensures
        r == watched(p@),
{
    if segment_starts_with(p, '.') {
        return false;
    }
    let name = file_name_of(p);
    let n = name.unicode_len();
    !(n > 0 && name.as_str().get_char(n - 1) == '~')
}

fn first_watched_path(paths: &Vec<String>) -> (r: Option<String>)
    ensures
        opt_view(r) == first_watched(views(paths@)),
{
    let n = paths.len();
    let mut i: usize = 0;
    assert(views(paths@).skip(0) =~= views(paths@));
    while i < n
        invariant
            n == paths@.len(),
            i <= n,
            first_watched(views(paths@)) == first_watched(views(paths@).skip(i as int)),
        decreases n - i,
    {
        let p = paths[i].as_str();
        proof {
            let rest = views(paths@).skip(i as int);
            assert(rest[0] == p@);
            assert(rest.drop_first() =~= views(paths@).skip(i + 1));
        }
        if is_watched(p) {
            return Some(String::from_str(p));
        }
        i = i + 1;
    }
    None
}

fn event_qualifies(kinds: &Vec<ChangeKind>) -> (r: bool)
    ensures
        r == qualifies(kinds@),
{
    let n = kinds.len();
    let mut i: usize = 0;
    while i < n
        invariant
            n == kinds@.len(),
            i <= n,
            forall|k: int|
                0 <= k < i ==> !(#[trigger] kinds@[k] == ChangeKind::ContentModified
                    || kinds@[k] == ChangeKind::FileCreated),
        decreases n - i,
    {
        let k = kinds[i];
        if k == ChangeKind::ContentModified || k == ChangeKind::FileCreated {
            return true;
        }
        i = i + 1;
    }
    false
}

/// The changed paths of a batch that ask for a rebuild: from each event of a
/// content change or a file creation, its first path that is neither hidden
/// (a segment starts with `.`) nor an editor backup; each path once.
pub fn filter_paths(events: &Vec<ChangeEvent>) -> (r: Vec<String>)
    ensures
        views(r@) == first_occurrences(picked(events@)),
{
    let mut found: Vec<String> = Vec::new();
    let n = events.len();
    let mut i: usize = 0;
    while i < n
        invariant
            n == events@.len(),
            i <= n,
            views(found@) == picked(events@.take(i as int)),
        decreases n - i,
    {
        let e = &events[i];
        proof {
            assert(events@.take(i + 1).drop_last() =~= events@.take(i as int));
            assert(events@.take(i + 1).last() == events@[i as int]);
        }
        if event_qualifies(&e.kinds) {
            match first_watched_path(&e.paths) {
                Some(p) => {
                    let ghost before = found@;
                    found.push(p);
                    proof {
                        assert(views(found@) =~= views(before).push(p@));
                    }
                },
                None => {},
            }
        }
        i = i + 1;
    }
    assert(events@.take(n as int) =~= events@);
    unique_paths(found)
}

/// A batch asks for exactly one rebuild when some path of it does, and for
/// none otherwise.
pub fn batch_triggers(events: &Vec<ChangeEvent>) -> (r: bool)
    ensures
        r == (picked(events@).len() > 0),
{
    let paths = filter_paths(events);
    proof {
        lemma_first_occurrences_empty(picked(events@));
    }
    paths.len() > 0
}

proof fn lemma_first_occurrences_empty(s: Seq<Seq<char>>)
    ensures
        (first_occurrences(s).len() == 0) == (s.len() == 0),
    decreases s.len(),
{
    if s.len() > 0 {
        lemma_first_occurrences_empty(s.drop_last());
        if s.drop_last().contains(s.last()) {
            assert(s.drop_last().len() > 0);
        }
    }
}

} // verus!
