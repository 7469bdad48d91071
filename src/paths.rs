//! Relative paths as text: segments are separated by `/`.
//!
//! The parent of a path is everything before its last `/` (empty when there
//! is none), its file name everything after. A file name has an extension
//! when it holds a `.` that is not its first character: the extension is
//! what follows the last `.`, the stem what precedes it.
use vstd::prelude::*;
use vstd::string::*;

verus! {

/// Index of the last `c` in `s`, or -1 where `c` does not occur.
pub open spec fn last_index_of(s: Seq<char>, c: char) -> int
    decreases s.len(),
{
    if s.len() == 0 {
        -1
    } else if s.last() == c {
        s.len() - 1
    } else {
        last_index_of(s.drop_last(), c)
    }
}

pub proof fn lemma_last_index_of(s: Seq<char>, c: char)
    ensures
        -1 <= last_index_of(s, c) < s.len(),
        last_index_of(s, c) >= 0 ==> s[last_index_of(s, c)] == c,
        forall|k: int| last_index_of(s, c) < k < s.len() ==> s[k] != c,
    decreases s.len(),
{
    if s.len() > 0 && s.last() != c {
        let t = s.drop_last();
        lemma_last_index_of(t, c);
        assert forall|k: int| last_index_of(s, c) < k < s.len() implies s[k] != c by {
            if k < t.len() {
                assert(s[k] == t[k]);
            }
        }
    }
}

pub open spec fn parent(p: Seq<char>) -> Seq<char> {
    let i = last_index_of(p, '/');
    if i < 0 {
        Seq::empty()
    } else {
        p.subrange(0, i)
    }
}

pub open spec fn file_name(p: Seq<char>) -> Seq<char> {
    p.subrange(last_index_of(p, '/') + 1, p.len() as int)
}

pub open spec fn has_extension(name: Seq<char>) -> bool {
    last_index_of(name, '.') > 0
}

pub open spec fn stem(name: Seq<char>) -> Seq<char> {
    if has_extension(name) {
        name.subrange(0, last_index_of(name, '.'))
    } else {
        name
    }
}

pub open spec fn extension(name: Seq<char>) -> Option<Seq<char>> {
    if has_extension(name) {
        Some(name.subrange(last_index_of(name, '.') + 1, name.len() as int))
    } else {
        None
    }
}

/// `a/b`, where an empty side adds nothing.
pub open spec fn join(a: Seq<char>, b: Seq<char>) -> Seq<char> {
    if a.len() == 0 {
        b
    } else if b.len() == 0 {
        a
    } else {
        a + seq!['/'] + b
    }
}

/// A segment of `p` starts at `i` with `c`.
pub open spec fn segment_starts_at(p: Seq<char>, i: int, c: char) -> bool {
    0 <= i < p.len() && p[i] == c && (i == 0 || p[i - 1] == '/')
}

/// Some segment of `p` starts with `c`.
pub open spec fn has_segment_starting_with(p: Seq<char>, c: char) -> bool {
    exists|i: int| #[trigger] segment_starts_at(p, i, c)
}

/// A segment of the path starts with `_`: the path is a partial, a draft or
/// a data folder, never published.
pub open spec fn is_underscored(p: Seq<char>) -> bool {
    has_segment_starting_with(p, '_')
}

/// A segment of the path starts with `.`.
pub open spec fn is_dotted(p: Seq<char>) -> bool {
    has_segment_starting_with(p, '.')
}

/// Splitting a path at its last `/` loses no segment start: one lies in the
/// parent or starts the file name.
pub proof fn lemma_segment_split(p: Seq<char>, c: char)
    requires
        c != '/',
    ensures
        has_segment_starting_with(p, c) <==> (has_segment_starting_with(parent(p), c) || (
        file_name(p).len() > 0 && file_name(p)[0] == c)),
{
    lemma_last_index_of(p, '/');
    let li = last_index_of(p, '/');
    let par = parent(p);
    let name = file_name(p);
    if has_segment_starting_with(p, c) {
        let i = choose|i: int| segment_starts_at(p, i, c);
        if i < li {
            assert(par[i] == p[i]);
            if i > 0 {
                assert(par[i - 1] == p[i - 1]);
            }
            assert(segment_starts_at(par, i, c));
        } else if i > li + 1 {
            assert(p[i - 1] != '/');
        } else {
            assert(i == li + 1);
            assert(name[0] == p[i]);
        }
    }
    if has_segment_starting_with(par, c) {
        let i = choose|i: int| segment_starts_at(par, i, c);
        assert(p[i] == par[i]);
        if i > 0 {
            assert(p[i - 1] == par[i - 1]);
        }
        assert(segment_starts_at(p, i, c));
    }
    if name.len() > 0 && name[0] == c {
        assert(p[li + 1] == c);
        assert(segment_starts_at(p, li + 1, c));
    }
}

/// Where `s` holds no `/`, it has a segment starting with `c` exactly when
/// its first character is `c`.
pub proof fn lemma_segment_of_name(s: Seq<char>, c: char)
    requires
        forall|k: int| 0 <= k < s.len() ==> s[k] != '/',
    ensures
        has_segment_starting_with(s, c) <==> (s.len() > 0 && s[0] == c),
{
    if s.len() > 0 && s[0] == c {
        assert(segment_starts_at(s, 0, c));
    }
}

pub proof fn lemma_file_name_has_no_slash(p: Seq<char>)
    ensures
        forall|k: int| 0 <= k < file_name(p).len() ==> file_name(p)[k] != '/',
{
    lemma_last_index_of(p, '/');
    let li = last_index_of(p, '/');
    assert forall|k: int| 0 <= k < file_name(p).len() implies file_name(p)[k] != '/' by {
        assert(file_name(p)[k] == p[li + 1 + k]);
    }
}

/// Position of the last `c` in `s`.
pub fn find_last(s: &str, c: char) -> (r: Option<usize>)
    ensures
        match r {
            Some(i) => i == last_index_of(s@, c),
            None => last_index_of(s@, c) == -1,
        },
{
    proof {
        lemma_last_index_of(s@, c);
    }
    let n = s.unicode_len();
    let mut i: usize = n;
    while i > 0
        invariant
            i <= n,
            n == s@.len(),
            forall|k: int| i <= k < n ==> s@[k] != c,
            -1 <= last_index_of(s@, c) < n,
            last_index_of(s@, c) >= 0 ==> s@[last_index_of(s@, c)] == c,
            forall|k: int| last_index_of(s@, c) < k < n ==> s@[k] != c,
        decreases i,
    {
        if s.get_char(i - 1) == c {
            return Some(i - 1);
        }
        i = i - 1;
    }
    None
}

/// `a@ == b@`, character by character.
pub fn same_text(a: &str, b: &str) -> (r: bool)
    ensures
        r == (a@ == b@),
{
    let n = a.unicode_len();
    if n != b.unicode_len() {
        return false;
    }
    let mut i: usize = 0;
    while i < n
        invariant
            n == a@.len(),
            n == b@.len(),
            i <= n,
            forall|k: int| 0 <= k < i ==> a@[k] == b@[k],
        decreases n - i,
    {
        if a.get_char(i) != b.get_char(i) {
            return false;
        }
        i = i + 1;
    }
    assert(a@ =~= b@);
    true
}

pub fn parent_of(p: &str) -> (r: String)
    ensures
        r@ == parent(p@),
{
    match find_last(p, '/') {
        Some(i) => {
            proof {
                lemma_last_index_of(p@, '/');
            }
            String::from_str(p.substring_char(0, i))
        },
        None => String::new(),
    }
}

pub fn file_name_of(p: &str) -> (r: String)
    ensures
        r@ == file_name(p@),
{
    proof {
        lemma_last_index_of(p@, '/');
    }
    let n = p.unicode_len();
    match find_last(p, '/') {
        Some(i) => String::from_str(p.substring_char(i + 1, n)),
        None => String::from_str(p.substring_char(0, n)),
    }
}

pub fn stem_of(name: &str) -> (r: String)
    ensures
        r@ == stem(name@),
{
    proof {
        lemma_last_index_of(name@, '.');
    }
    let n = name.unicode_len();
    match find_last(name, '.') {
        Some(i) => {
            if i > 0 {
                String::from_str(name.substring_char(0, i))
            } else {
                String::from_str(name.substring_char(0, n))
            }
        },
        None => String::from_str(name.substring_char(0, n)),
    }
}

pub fn extension_of(name: &str) -> (r: Option<String>)
    ensures
        match r {
            Some(e) => extension(name@) == Some(e@),
            None => extension(name@) is None,
        },
{
    proof {
        lemma_last_index_of(name@, '.');
    }
    let n = name.unicode_len();
    match find_last(name, '.') {
        Some(i) => {
            if i > 0 {
                Some(String::from_str(name.substring_char(i + 1, n)))
            } else {
                None
            }
        },
        None => None,
    }
}

/// The extension of `name` is `ext`.
pub fn extension_is(name: &str, ext: &str) -> (r: bool)
    ensures
        r == (extension(name@) == Some(ext@)),
{
    match extension_of(name) {
        Some(e) => same_text(e.as_str(), ext),
        None => false,
    }
}

pub fn join_paths(a: &str, b: &str) -> (r: String)
    ensures
        r@ == join(a@, b@),
{
    if a.unicode_len() == 0 {
        String::from_str(b)
    } else if b.unicode_len() == 0 {
        String::from_str(a)
    } else {
        proof {
            reveal_strlit("/");
        }
        let r = String::from_str(a).concat("/");
        r.concat(b)
    }
}

pub fn segment_starts_with(p: &str, c: char) -> (r: bool)
    ensures
        r == has_segment_starting_with(p@, c),
{
    let n = p.unicode_len();
    let mut i: usize = 0;
    let mut prev_slash = true;
    while i < n
        invariant
            n == p@.len(),
            i <= n,
            prev_slash == (i == 0 || p@[i - 1] == '/'),
            forall|k: int| 0 <= k < i ==> !segment_starts_at(p@, k, c),
        decreases n - i,
    {
        let ch = p.get_char(i);
        if ch == c && prev_slash {
            assert(segment_starts_at(p@, i as int, c));
            return true;
        }
        prev_slash = ch == '/';
        i = i + 1;
    }
    false
}

} // verus!
