//! The inventory of a project: one entry per image file, in the order of
//! their relative paths.
use vstd::prelude::*;
use vstd::multiset::Multiset;
use crate::paths::{file_name, is_image, replace_char, strip_root, relative_path_str};
use crate::captions::{parse_tags, tags_of};
use crate::metadata::{RatingsData, get_rating, rating_in};
use crate::rating::rating_name;
use crate::text::{chars_of, string_of, views};

verus! {

broadcast use vstd::seq_lib::group_to_multiset_ensures;

/// `a` comes before `b`: compared character by character by code point, which
/// is the byte order of their UTF-8 encodings; a proper prefix comes first.
pub open spec fn lex_lt(a: Seq<char>, b: Seq<char>) -> bool
    decreases a.len(),
{
    if a.len() == 0 {
        b.len() > 0
    } else if b.len() == 0 {
        false
    } else if a[0] != b[0] {
        a[0] < b[0]
    } else {
        lex_lt(a.drop_first(), b.drop_first())
    }
}

pub proof fn lemma_lex_irreflexive(a: Seq<char>)
    ensures
        !lex_lt(a, a),
    decreases a.len(),
{
    if a.len() > 0 {
        lemma_lex_irreflexive(a.drop_first());
    }
}

pub proof fn lemma_lex_transitive(a: Seq<char>, b: Seq<char>, c: Seq<char>)
    requires
        lex_lt(a, b),
        lex_lt(b, c),
    ensures
        lex_lt(a, c),
    decreases a.len(),
{
    if a.len() > 0 && b.len() > 0 && c.len() > 0 {
        if a[0] == b[0] && b[0] == c[0] {
            lemma_lex_transitive(a.drop_first(), b.drop_first(), c.drop_first());
        }
    }
}

pub proof fn lemma_lex_total(a: Seq<char>, b: Seq<char>)
    requires
        a != b,
    ensures
        lex_lt(a, b) || lex_lt(b, a),
    decreases a.len(),
{
    if a.len() > 0 && b.len() > 0 && a[0] == b[0] {
        if a.drop_first() == b.drop_first() {
            assert(a =~= seq![a[0]] + a.drop_first());
            assert(b =~= seq![b[0]] + b.drop_first());
        }
        lemma_lex_total(a.drop_first(), b.drop_first());
    } else if a.len() == 0 && b.len() == 0 {
        assert(a =~= b);
    }
}

/// Whether `a` comes before `b`.
pub fn lex_less(a: &[char], b: &[char]) -> (r: bool)
    ensures
        r == lex_lt(a@, b@),
{
    let mut i: usize = 0;
    assert(a@.subrange(0, a@.len() as int) =~= a@);
    assert(b@.subrange(0, b@.len() as int) =~= b@);
    while i < a.len() && i < b.len() && a[i] == b[i]
        invariant
            i <= a@.len(),
            i <= b@.len(),
            lex_lt(a@.subrange(i as int, a@.len() as int), b@.subrange(i as int, b@.len() as int))
                == lex_lt(a@, b@),
        decreases a@.len() - i,
    {
        assert(a@.subrange(i as int, a@.len() as int).drop_first() =~= a@.subrange(i + 1, a@.len() as int));
        assert(b@.subrange(i as int, b@.len() as int).drop_first() =~= b@.subrange(i + 1, b@.len() as int));
        i += 1;
    }
    if i == a.len() {
        i < b.len()
    } else if i == b.len() {
        false
    } else {
        a[i] < b[i]
    }
}

#[derive(Debug)]
pub struct OpenProjectPayload {
    pub root_path: String,
}

/// One image of the inventory.
#[derive(Debug)]
pub struct ImageEntry {
    pub id: String,
    pub path: String,
    pub relative_path: String,
    pub filename: String,
    pub has_caption: bool,
    pub tags: Vec<String>,
    pub rating: String,
    pub width: Option<u32>,
    pub height: Option<u32>,
    pub file_size: Option<u64>,
}

#[derive(Debug)]
pub struct FindDuplicatesPayload {
    pub root_path: String,
}

#[derive(Debug)]
pub struct FindDuplicatesResult {
    pub groups: Vec<Vec<String>>,
}

/// The relative path of the image at `path` under `root`, forward slashes
/// only; the path itself where `root` is no leading part of it.
pub open spec fn relative_of(path: Seq<char>, root: Seq<char>) -> Seq<char> {
    match strip_root(path, root) {
        Some(x) => replace_char(x, '\\', '/'),
        None => replace_char(path, '\\', '/'),
    }
}

/// A positive value, or nothing.
pub open spec fn positive_u32(x: u32) -> Option<u32> {
    if x > 0 { Some(x) } else { None }
}

pub open spec fn positive_u64(x: Option<u64>) -> Option<u64> {
    match x {
        Some(n) => if n > 0 { Some(n) } else { None },
        None => None,
    }
}

/// Whether an entry from the walk of the tree goes into the inventory: a
/// regular file with an image extension.
pub fn is_inventory_file(path: &str, is_file: bool) -> (r: bool)
    ensures
        r == (is_file && is_image(path@)),
{
    is_file && crate::paths::is_image_path(path)
}

/// The entry for the image at `path`, found under the project at `root`:
/// `caption` is the text of its caption file if it could be read, `dimensions`
/// its width and height from the image header (zero where unknown) and
/// `file_size` its size in bytes.
pub fn image_entry(
    path: &str,
    root: &str,
    caption: Option<&str>,
    ratings: &RatingsData,
    dimensions: (u32, u32),
    file_size: Option<u64>,
) -> (r: ImageEntry)
    requires
        ratings.ratings.wf(),
    ensures
        r.id@ == path@,
        r.path@ == path@,
        r.relative_path@ == relative_of(path@, root@),
        r.filename@ == file_name(path@),
        r.has_caption == caption is Some,
        caption matches Some(t) ==> views(r.tags@) == tags_of(t@),
        caption is None ==> r.tags@.len() == 0,
        r.rating@ == rating_name(rating_in(ratings.ratings@, crate::paths::store_key(relative_of(path@, root@)))),
        r.width == positive_u32(dimensions.0),
        r.height == positive_u32(dimensions.1),
        r.file_size == positive_u64(file_size),
{
    let relative_path = match relative_path_str(path, root) {
        Some(r) => r,
        None => {
            let p = chars_of(path);
            let mut out: Vec<char> = Vec::new();
            let mut i: usize = 0;
            while i < p.len()
                invariant
                    i <= p@.len(),
                    p@ == path@,
                    out@ == replace_char(p@.subrange(0, i as int), '\\', '/'),
                decreases p@.len() - i,
            {
                let c = p[i];
                out.push(if c == '\\' { '/' } else { c });
                assert(p@.subrange(0, i + 1) =~= p@.subrange(0, i as int).push(c));
                i += 1;
                assert(out@ =~= replace_char(p@.subrange(0, i as int), '\\', '/'));
            }
            assert(p@.subrange(0, i as int) =~= p@);
            string_of(out.as_slice())
        },
    };
    let p = chars_of(path);
    let ns = crate::paths::name_start_of(&p);
    let filename = string_of(crate::paths::copy_range(&p, ns, p.len()).as_slice());
    let (has_caption, tags) = match caption {
        Some(t) => (true, parse_tags(t)),
        None => (false, Vec::new()),
    };
    let rating = get_rating(ratings, relative_path.as_str()).as_str().to_string();
    let size = match file_size {
        Some(n) => if n > 0 { Some(n) } else { None },
        None => None,
    };
    ImageEntry {
        id: path.to_string(),
        path: path.to_string(),
        relative_path,
        filename,
        has_caption,
        tags,
        rating,
        width: if dimensions.0 > 0 { Some(dimensions.0) } else { None },
        height: if dimensions.1 > 0 { Some(dimensions.1) } else { None },
        file_size: size,
    }
}

/// The relative path of an entry.
pub open spec fn key_of(e: ImageEntry) -> Seq<char> {
    e.relative_path@
}

/// In order of relative path: no entry comes before one ahead of it.
pub open spec fn sorted_by_path(s: Seq<ImageEntry>) -> bool {
    forall|i: int, j: int| 0 <= i < j < s.len() ==> !lex_lt(#[trigger] key_of(s[j]), #[trigger] key_of(s[i]))
}

/// No two entries share a relative path.
pub open spec fn distinct_paths(s: Seq<ImageEntry>) -> bool {
    forall|i: int, j: int| 0 <= i < s.len() && 0 <= j < s.len() && i != j ==> #[trigger] key_of(s[i]) != #[trigger] key_of(s[j])
}

/// Whether the progress notice is due after `count` entries: every fifty.
pub fn progress_due(count: usize) -> (r: bool)
    ensures
        r == (count > 0 && count % 50 == 0),
{
    count > 0 && count % 50 == 0
}

/// The entries in ascending order of relative path.
pub fn sort_entries(entries: Vec<ImageEntry>) -> (r: Vec<ImageEntry>)
    ensures
        sorted_by_path(r@),
        r@.to_multiset() == entries@.to_multiset(),
{
    let mut v = entries;
    let mut r: Vec<ImageEntry> = Vec::new();
    let ghost all = v@.to_multiset();
    while v.len() > 0
        invariant
            sorted_by_path(r@),
            r@.to_multiset().add(v@.to_multiset()) == all,
        decreases v@.len(),
    {
        let ghost before = v@;
        let x = v.pop().unwrap();
        assert(before == v@.push(x));
        let xk = chars_of(x.relative_path.as_str());
        let mut p: usize = 0;
        while p < r.len() && !lex_less(xk.as_slice(), chars_of(r[p].relative_path.as_str()).as_slice())
            invariant
                p <= r@.len(),
                xk@ == key_of(x),
                sorted_by_path(r@),
                forall|j: int| 0 <= j < p ==> !lex_lt(key_of(x), #[trigger] key_of(r@[j])),
            decreases r@.len() - p,
        {
            p += 1;
        }
        let ghost old_r = r@;
        r.insert(p, x);
        proof {
            assert(r@ == old_r.insert(p as int, x));
            assert forall|i: int, j: int| 0 <= i < j < r@.len() implies !lex_lt(#[trigger] key_of(r@[j]), #[trigger] key_of(r@[i])) by {
                if j < p {
                    assert(r@[i] == old_r[i] && r@[j] == old_r[j]);
                } else if j == p {
                    assert(r@[i] == old_r[i]);
                } else if i == p {
                    // x comes before old_r[p], which comes no later than old_r[j - 1]
                    assert(r@[j] == old_r[j - 1]);
                    assert(lex_lt(key_of(x), key_of(old_r[p as int])));
                    if lex_lt(key_of(old_r[j - 1]), key_of(x)) {
                        lemma_lex_transitive(key_of(old_r[j - 1]), key_of(x), key_of(old_r[p as int]));
                        if j - 1 > p {
                            assert(!lex_lt(key_of(old_r[j - 1]), key_of(old_r[p as int])));
                        } else {
                            lemma_lex_irreflexive(key_of(old_r[p as int]));
                        }
                    }
                } else if i < p {
                    assert(r@[i] == old_r[i] && r@[j] == old_r[j - 1]);
                } else {
                    assert(r@[i] == old_r[i - 1] && r@[j] == old_r[j - 1]);
                }
            }
            assert(r@.remove(p as int) =~= old_r);
            assert(old_r.to_multiset() =~= r@.to_multiset().remove(x));
            assert(r@.to_multiset().count(x) > 0) by {
                assert(r@[p as int] == x);
                assert(r@.contains(x));
            }
            assert(r@.to_multiset() =~= old_r.to_multiset().insert(x));
            assert(r@.to_multiset().add(v@.to_multiset()) =~= old_r.to_multiset().add(before.to_multiset()));
        }
    }
    assert(v@.to_multiset() =~= Multiset::<ImageEntry>::empty());
    assert(r@.to_multiset().add(v@.to_multiset()) =~= r@.to_multiset());
    r
}

/// Two inventories in order of relative path, with no relative path twice,
/// that hold the same entries are equal: the order of the walk that found
/// them does not show.
pub proof fn lemma_sorted_unique(a: Seq<ImageEntry>, b: Seq<ImageEntry>)
    requires
        sorted_by_path(a),
        sorted_by_path(b),
        distinct_paths(a),
        a.to_multiset() == b.to_multiset(),
    ensures
        a == b,
    decreases a.len(),
{
    assert(a.len() == a.to_multiset().len());
    assert(b.len() == b.to_multiset().len());
    assert(a.len() == b.len());
    if a.len() == 0 {
        assert(a =~= b);
    } else {
        assert(a.contains(a[0]));
        assert(b.to_multiset().count(a[0]) > 0);
        assert(b.contains(b[0]));
        assert(a.to_multiset().count(b[0]) > 0);
        let j = choose|j: int| 0 <= j < b.len() && b[j] == a[0];
        let i = choose|i: int| 0 <= i < a.len() && a[i] == b[0];
        if a[0] != b[0] {
            assert(i != 0 && j != 0);
            assert(!lex_lt(key_of(b[j]), key_of(b[0])));
            assert(!lex_lt(key_of(a[i]), key_of(a[0])));
            assert(key_of(a[i]) != key_of(a[0]));
            lemma_lex_total(key_of(a[0]), key_of(b[0]));
        }
        assert(a.remove(0) =~= a.drop_first());
        assert(b.remove(0) =~= b.drop_first());
        assert(a.drop_first().to_multiset() =~= b.drop_first().to_multiset());
        lemma_sorted_unique(a.drop_first(), b.drop_first());
        assert forall|k: int| 0 <= k < a.len() implies a[k] == b[k] by {
            if k > 0 {
                assert(a[k] == a.drop_first()[k - 1]);
                assert(b[k] == b.drop_first()[k - 1]);
            }
        }
        assert(a =~= b);
    }
}

/// Entries with distinct relative paths keep them distinct in any order.
pub proof fn lemma_distinct_paths_transfer(s: Seq<ImageEntry>, t: Seq<ImageEntry>)
    requires
        distinct_paths(s),
        s.to_multiset() == t.to_multiset(),
    ensures
        distinct_paths(t),
{
    assert(s.no_duplicates()) by {
        assert forall|i: int, j: int| 0 <= i < s.len() && 0 <= j < s.len() && i != j implies s[i] != s[j] by {
            assert(key_of(s[i]) != key_of(s[j]));
        }
    }
    s.lemma_multiset_has_no_duplicates();
    assert forall|x: ImageEntry| t.to_multiset().contains(x) implies t.to_multiset().count(x) == 1 by {
        assert(s.to_multiset().contains(x));
    }
    t.lemma_multiset_has_no_duplicates_conv();
    assert forall|i: int, j: int| 0 <= i < t.len() && 0 <= j < t.len() && i != j implies #[trigger] key_of(t[i]) != #[trigger] key_of(t[j]) by {
        assert(t[i] != t[j]);
        assert(t.contains(t[i]) && t.contains(t[j]));
        assert(s.to_multiset().count(t[i]) > 0);
        assert(s.to_multiset().count(t[j]) > 0);
        let x = choose|x: int| 0 <= x < s.len() && s[x] == t[i];
        let y = choose|y: int| 0 <= y < s.len() && s[y] == t[j];
        assert(x != y);
    }
}

/// Scanning an unchanged tree twice gives the same inventory: sorting two
/// walks that found the same entries, with distinct relative paths, gives
/// equal results.
pub proof fn lemma_scan_deterministic(first: Seq<ImageEntry>, second: Seq<ImageEntry>, r1: Seq<ImageEntry>, r2: Seq<ImageEntry>)
    requires
        first.to_multiset() == second.to_multiset(),
        distinct_paths(first),
        sorted_by_path(r1),
        r1.to_multiset() == first.to_multiset(),
        sorted_by_path(r2),
        r2.to_multiset() == second.to_multiset(),
    ensures
        r1 == r2,
{
    lemma_distinct_paths_transfer(first, r1);
    lemma_sorted_unique(r1, r2);
}

} // verus!
