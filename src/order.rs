//! The order of listings: by folder, then by name, each compared character
//! by character as `str` compares them.
use crate::lists::views;
use vstd::prelude::*;
use vstd::seq_lib::{
    to_multiset_build, to_multiset_contains, to_multiset_insert, to_multiset_len, to_multiset_remove,
};

verus! {

broadcast use vstd::seq_lib::group_to_multiset_ensures;

/// `x` sorts before `y`; where `slash_first`, `/` sorts before every other
/// character.
pub open spec fn char_lt(x: char, y: char, slash_first: bool) -> bool {
    if slash_first && (x == '/' || y == '/') {
        x == '/' && y != '/'
    } else {
        x < y
    }
}

/// `a` sorts strictly before `b`, character by character.
pub open spec fn text_lt_by(a: Seq<char>, b: Seq<char>, slash_first: bool) -> bool
    decreases a.len(),
{
    if a.len() == 0 {
        b.len() > 0
    } else if b.len() == 0 {
        false
    } else if a[0] != b[0] {
        char_lt(a[0], b[0], slash_first)
    } else {
        text_lt_by(a.drop_first(), b.drop_first(), slash_first)
    }
}

/// The order of `str`.
pub open spec fn text_lt(a: Seq<char>, b: Seq<char>) -> bool {
    text_lt_by(a, b, false)
}

/// The order of paths compared segment by segment, as `Path` compares them
/// where no segment is empty.
pub open spec fn path_lt(a: Seq<char>, b: Seq<char>) -> bool {
    text_lt_by(a, b, true)
}

/// A listing key: folder, then name.
pub type Key = (Seq<char>, Seq<char>);

pub open spec fn key_lt(a: Key, b: Key) -> bool {
    text_lt(a.0, b.0) || (a.0 == b.0 && text_lt(a.1, b.1))
}

pub open spec fn key_sorted(s: Seq<Key>) -> bool {
    forall|i: int, j: int| 0 <= i < j < s.len() ==> !key_lt(#[trigger] s[j], #[trigger] s[i])
}

pub open spec fn key_views(v: Seq<(String, String)>) -> Seq<Key> {
    v.map_values(|k: (String, String)| k@)
}

proof fn lemma_text_total(a: Seq<char>, b: Seq<char>, m: bool)
    ensures
        !text_lt_by(a, a, m),
        text_lt_by(a, b, m) ==> !text_lt_by(b, a, m),
        a != b ==> text_lt_by(a, b, m) || text_lt_by(b, a, m),
    decreases a.len(),
{
    if a.len() > 0 {
        lemma_text_total(a.drop_first(), a.drop_first(), m);
        if b.len() > 0 && a[0] == b[0] {
            lemma_text_total(a.drop_first(), b.drop_first(), m);
            if a != b {
                assert(a =~= seq![a[0]] + a.drop_first());
                assert(b =~= seq![b[0]] + b.drop_first());
            }
        }
    } else if b.len() == 0 {
        assert(a =~= b);
    }
}

proof fn lemma_text_trans(a: Seq<char>, b: Seq<char>, c: Seq<char>, m: bool)
    requires
        text_lt_by(a, b, m),
        text_lt_by(b, c, m),
    ensures
        text_lt_by(a, c, m),
    decreases a.len(),
{
    if a.len() > 0 && b.len() > 0 && c.len() > 0 && a[0] == b[0] && b[0] == c[0] {
        lemma_text_trans(a.drop_first(), b.drop_first(), c.drop_first(), m);
    }
}

/// `path_lt` is a strict total order.
pub proof fn lemma_path_order()
    ensures
        forall|a: Seq<char>| !path_lt(a, a),
        forall|a: Seq<char>, b: Seq<char>| #[trigger] path_lt(a, b) ==> !path_lt(b, a),
        forall|a: Seq<char>, b: Seq<char>|
            a != b ==> #[trigger] path_lt(a, b) || #[trigger] path_lt(b, a),
        forall|a: Seq<char>, b: Seq<char>, c: Seq<char>|
            #[trigger] path_lt(a, b) && #[trigger] path_lt(b, c) ==> path_lt(a, c),
{
    assert forall|a: Seq<char>, b: Seq<char>| #[trigger] path_lt(a, b) implies !path_lt(b, a) by {
        lemma_text_total(a, b, true);
    }
    assert forall|a: Seq<char>| !path_lt(a, a) by {
        lemma_text_total(a, a, true);
    }
    assert forall|a: Seq<char>, b: Seq<char>| a != b implies #[trigger] path_lt(a, b)
        || #[trigger] path_lt(b, a) by {
        lemma_text_total(a, b, true);
    }
    assert forall|a: Seq<char>, b: Seq<char>, c: Seq<char>| #[trigger] path_lt(a, b)
        && #[trigger] path_lt(b, c) implies path_lt(a, c) by {
        lemma_text_trans(a, b, c, true);
    }
}

/// `key_lt` is a strict total order.
pub proof fn lemma_key_order()
    ensures
        forall|a: Key| !key_lt(a, a),
        forall|a: Key, b: Key| #[trigger] key_lt(a, b) ==> !key_lt(b, a),
        forall|a: Key, b: Key| a != b ==> #[trigger] key_lt(a, b) || #[trigger] key_lt(b, a),
        forall|a: Key, b: Key, c: Key|
            #[trigger] key_lt(a, b) && #[trigger] key_lt(b, c) ==> key_lt(a, c),
{
    assert forall|a: Key| !key_lt(a, a) by {
        lemma_text_total(a.0, a.0, false);
        lemma_text_total(a.1, a.1, false);
    }
    assert forall|a: Key, b: Key| #[trigger] key_lt(a, b) implies !key_lt(b, a) by {
        lemma_text_total(a.0, b.0, false);
        lemma_text_total(a.1, b.1, false);
    }
    assert forall|a: Key, b: Key| a != b implies #[trigger] key_lt(a, b) || #[trigger] key_lt(
        b,
        a,
    ) by {
        lemma_text_total(a.0, b.0, false);
        lemma_text_total(a.1, b.1, false);
    }
    assert forall|a: Key, b: Key, c: Key| #[trigger] key_lt(a, b) && #[trigger] key_lt(b, c) implies key_lt(
        a,
        c,
    ) by {
        if text_lt(a.0, b.0) && text_lt(b.0, c.0) {
            lemma_text_trans(a.0, b.0, c.0, false);
        }
        if text_lt(a.1, b.1) && text_lt(b.1, c.1) {
            lemma_text_trans(a.1, b.1, c.1, false);
        }
    }
}

/// Two sorted listings of the same entries are the same listing: the order
/// does not depend on the order in which the entries were found.
pub proof fn lemma_sorted_listing_unique(a: Seq<Key>, b: Seq<Key>)
    requires
        key_sorted(a),
        key_sorted(b),
        a.to_multiset() == b.to_multiset(),
    ensures
        a == b,
    decreases a.len(),
{
    lemma_key_order();
    to_multiset_len(a);
    to_multiset_len(b);
    if a.len() == 0 {
        assert(b.len() == 0);
        assert(a =~= b);
    } else {
        assert(b.len() == a.len());
        assert(a.contains(a[0]));
        to_multiset_contains(a, a[0]);
        to_multiset_contains(b, a[0]);
        assert(b.contains(a[0]));
        assert(b.contains(b[0]));
        to_multiset_contains(a, b[0]);
        to_multiset_contains(b, b[0]);
        assert(a.contains(b[0]));
        let k = choose|k: int| 0 <= k < b.len() && b[k] == a[0];
        let m = choose|m: int| 0 <= m < a.len() && a[m] == b[0];
        if k > 0 {
            assert(!key_lt(b[k], b[0]));
        }
        if m > 0 {
            assert(!key_lt(a[m], a[0]));
        }
        assert(a[0] == b[0]);
        to_multiset_remove(a, 0);
        to_multiset_remove(b, 0);
        assert(a.remove(0) =~= a.drop_first());
        assert(b.remove(0) =~= b.drop_first());
        lemma_sorted_listing_unique(a.drop_first(), b.drop_first());
        assert forall|i: int| 0 <= i < a.len() implies a[i] == b[i] by {
            if i > 0 {
                assert(a[i] == a.drop_first()[i - 1]);
                assert(b[i] == b.drop_first()[i - 1]);
            }
        }
        assert(a =~= b);
    }
}

/// `a` sorts strictly before `b`.
pub fn text_less(a: &str, b: &str, slash_first: bool) -> (r: bool)
    ensures
        r == text_lt_by(a@, b@, slash_first),
{
    let n = a.unicode_len();
    let m = b.unicode_len();
    let mut i: usize = 0;
    assert(a@.subrange(0, n as int) =~= a@);
    assert(b@.subrange(0, m as int) =~= b@);
    while i < n && i < m
        invariant
            n == a@.len(),
            m == b@.len(),
            i <= n,
            i <= m,
            text_lt_by(a@, b@, slash_first) == text_lt_by(
                a@.subrange(i as int, n as int),
                b@.subrange(i as int, m as int),
                slash_first,
            ),
        decreases n - i,
    {
        let x = a.get_char(i);
        let y = b.get_char(i);
        if x != y {
            if slash_first && (x == '/' || y == '/') {
                return x == '/';
            }
            return x < y;
        }
        proof {
            assert(a@.subrange(i as int, n as int).drop_first() =~= a@.subrange(i + 1, n as int));
            assert(b@.subrange(i as int, m as int).drop_first() =~= b@.subrange(i + 1, m as int));
        }
        i = i + 1;
    }
    i == n && i < m
}

pub fn key_less(a: &(String, String), b: &(String, String)) -> (r: bool)
    ensures
        r == key_lt(a@, b@),
{
    if text_less(a.0.as_str(), b.0.as_str(), false) {
        true
    } else {
        crate::paths::same_text(a.0.as_str(), b.0.as_str()) && text_less(
            a.1.as_str(),
            b.1.as_str(),
            false,
        )
    }
}

/// The keys, sorted; the same entries as given.
pub fn sort_keys(v: &Vec<(String, String)>) -> (r: Vec<(String, String)>)
    ensures
        key_sorted(key_views(r@)),
        key_views(r@).to_multiset() == key_views(v@).to_multiset(),
{
    let mut r: Vec<(String, String)> = Vec::new();
    let n = v.len();
    let mut i: usize = 0;
    proof {
        lemma_key_order();
        assert(key_views(v@).take(0) =~= Seq::<Key>::empty());
        assert(key_views(r@) =~= Seq::<Key>::empty());
    }
    while i < n
        invariant
            n == v@.len(),
            i <= n,
            key_sorted(key_views(r@)),
            key_views(r@).to_multiset() == key_views(v@).take(i as int).to_multiset(),
            forall|a: Key, b: Key| #[trigger] key_lt(a, b) ==> !key_lt(b, a),
            forall|a: Key, b: Key| a != b ==> #[trigger] key_lt(a, b) || #[trigger] key_lt(b, a),
            forall|a: Key, b: Key, c: Key|
                #[trigger] key_lt(a, b) && #[trigger] key_lt(b, c) ==> key_lt(a, c),
        decreases n - i,
    {
        let x = (v[i].0.clone(), v[i].1.clone());
        let mut pos: usize = 0;
        while pos < r.len() && !key_less(&x, &r[pos])
            invariant
                pos <= r@.len(),
                forall|k: int| 0 <= k < pos ==> !key_lt(x@, #[trigger] key_views(r@)[k]),
            decreases r@.len() - pos,
        {
            pos = pos + 1;
        }
        let ghost old_keys = key_views(r@);
        proof {
            if pos < r@.len() {
                assert(key_lt(x@, old_keys[pos as int]));
            }
        }
        r.insert(pos, x);
        proof {
            let nk = key_views(r@);
            assert(nk =~= old_keys.insert(pos as int, x@));
            assert forall|p: int, q: int| 0 <= p < q < nk.len() implies !key_lt(
                #[trigger] nk[q],
                #[trigger] nk[p],
            ) by {
                if q < pos {
                    assert(nk[q] == old_keys[q] && nk[p] == old_keys[p]);
                } else if q == pos {
                    assert(nk[p] == old_keys[p]);
                } else if p < pos {
                    assert(nk[q] == old_keys[q - 1] && nk[p] == old_keys[p]);
                } else if p == pos {
                    let y = old_keys[q - 1];
                    let z = old_keys[pos as int];
                    if q - 1 > pos {
                        assert(!key_lt(y, z));
                        assert(z == y || key_lt(z, y));
                        if z != y {
                            assert(key_lt(x@, z) && key_lt(z, y));
                        }
                    }
                    assert(key_lt(x@, y));
                } else {
                    assert(nk[q] == old_keys[q - 1] && nk[p] == old_keys[p - 1]);
                }
            }
            to_multiset_insert(old_keys, pos as int, x@);
            let taken = key_views(v@).take(i + 1);
            assert(taken =~= key_views(v@).take(i as int).push(x@));
            to_multiset_build(key_views(v@).take(i as int), x@);
        }
        i = i + 1;
    }
    assert(key_views(v@).take(n as int) =~= key_views(v@));
    r
}

pub open spec fn path_sorted(s: Seq<Seq<char>>) -> bool {
    forall|i: int, j: int| 0 <= i < j < s.len() ==> !path_lt(#[trigger] s[j], #[trigger] s[i])
}

/// The paths, sorted segment by segment; the same paths as given.
pub fn sort_paths(v: &Vec<String>) -> (r: Vec<String>)
    ensures
        path_sorted(views(r@)),
        views(r@).to_multiset() == views(v@).to_multiset(),
{
    let mut r: Vec<String> = Vec::new();
    let n = v.len();
    let mut i: usize = 0;
    proof {
        lemma_path_order();
        assert(views(v@).take(0) =~= Seq::<Seq<char>>::empty());
        assert(views(r@) =~= Seq::<Seq<char>>::empty());
    }
    while i < n
        invariant
            n == v@.len(),
            i <= n,
            path_sorted(views(r@)),
            views(r@).to_multiset() == views(v@).take(i as int).to_multiset(),
            forall|a: Seq<char>, b: Seq<char>| #[trigger] path_lt(a, b) ==> !path_lt(b, a),
            forall|a: Seq<char>, b: Seq<char>|
                a != b ==> #[trigger] path_lt(a, b) || #[trigger] path_lt(b, a),
            forall|a: Seq<char>, b: Seq<char>, c: Seq<char>|
                #[trigger] path_lt(a, b) && #[trigger] path_lt(b, c) ==> path_lt(a, c),
        decreases n - i,
    {
        let x = v[i].clone();
        let mut pos: usize = 0;
        while pos < r.len() && !text_less(x.as_str(), r[pos].as_str(), true)
            invariant
                pos <= r@.len(),
                forall|k: int| 0 <= k < pos ==> !path_lt(x@, #[trigger] views(r@)[k]),
            decreases r@.len() - pos,
        {
            pos = pos + 1;
        }
        let ghost old_keys = views(r@);
        proof {
            if pos < r@.len() {
                assert(path_lt(x@, old_keys[pos as int]));
            }
        }
        r.insert(pos, x);
        proof {
            let nk = views(r@);
            assert(nk =~= old_keys.insert(pos as int, x@));
            assert forall|p: int, q: int| 0 <= p < q < nk.len() implies !path_lt(
                #[trigger] nk[q],
                #[trigger] nk[p],
            ) by {
                if q < pos {
                    assert(nk[q] == old_keys[q] && nk[p] == old_keys[p]);
                } else if q == pos {
                    assert(nk[p] == old_keys[p]);
                } else if p < pos {
                    assert(nk[q] == old_keys[q - 1] && nk[p] == old_keys[p]);
                } else if p == pos {
                    let y = old_keys[q - 1];
                    let z = old_keys[pos as int];
                    if q - 1 > pos {
                        assert(!path_lt(y, z));
                        assert(z == y || path_lt(z, y));
                        if z != y {
                            assert(path_lt(x@, z) && path_lt(z, y));
                        }
                    }
                    assert(path_lt(x@, y));
                } else {
                    assert(nk[q] == old_keys[q - 1] && nk[p] == old_keys[p - 1]);
                }
            }
            to_multiset_insert(old_keys, pos as int, x@);
            let taken = views(v@).take(i + 1);
            assert(taken =~= views(v@).take(i as int).push(x@));
            to_multiset_build(views(v@).take(i as int), x@);
        }
        i = i + 1;
    }
    assert(views(v@).take(n as int) =~= views(v@));
    r
}

} // verus!
