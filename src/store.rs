//! A persistent mapping from root-relative paths to short strings (ratings,
//! crop statuses), kept as a list of entries with distinct keys and stored
//! as one JSON document per project.
use vstd::prelude::*;
use crate::text::same_str;

verus! {

/// The keys of `s` are pairwise distinct.
pub open spec fn distinct_keys(s: Seq<(String, String)>) -> bool {
    forall|i: int, j: int| 0 <= i < s.len() && 0 <= j < s.len() && i != j ==> #[trigger] s[i].0@ != #[trigger] s[j].0@
}

/// Some entry of `s` has key `k`.
pub open spec fn has_key(s: Seq<(String, String)>, k: Seq<char>) -> bool {
    exists|i: int| 0 <= i < s.len() && #[trigger] s[i].0@ == k
}

/// The map that a list of entries with distinct keys stands for.
pub open spec fn entries_map(s: Seq<(String, String)>) -> Map<Seq<char>, Seq<char>> {
    Map::new(
        |k: Seq<char>| has_key(s, k),
        |k: Seq<char>| s[choose|i: int| 0 <= i < s.len() && #[trigger] s[i].0@ == k].1@,
    )
}

pub proof fn lemma_entries_map_at(s: Seq<(String, String)>, i: int)
    requires
        distinct_keys(s),
        0 <= i < s.len(),
    ensures
        entries_map(s).contains_key(s[i].0@),
        entries_map(s)[s[i].0@] == s[i].1@,
{
    let k = s[i].0@;
    assert(has_key(s, k));
    let j = choose|j: int| 0 <= j < s.len() && #[trigger] s[j].0@ == k;
    assert(j == i);
}

/// `entries_map(a) == m` follows from the keys and the value at each entry.
pub proof fn lemma_entries_map_eq(a: Seq<(String, String)>, m: Map<Seq<char>, Seq<char>>)
    requires
        distinct_keys(a),
        forall|k: Seq<char>| #[trigger] m.contains_key(k) <==> has_key(a, k),
        forall|j: int| 0 <= j < a.len() ==> m[#[trigger] a[j].0@] == a[j].1@,
    ensures
        entries_map(a) == m,
{
    assert forall|k: Seq<char>| #[trigger] entries_map(a).contains_key(k) implies entries_map(a)[k]
        == m[k] by {
        let j = choose|j: int| 0 <= j < a.len() && #[trigger] a[j].0@ == k;
        lemma_entries_map_at(a, j);
    }
    assert(entries_map(a) =~= m);
}

/// The views of a list of (old key, new key) pairs.
pub open spec fn pair_views(s: Seq<(String, String)>) -> Seq<(Seq<char>, Seq<char>)> {
    s.map_values(|p: (String, String)| (p.0@, p.1@))
}

/// Relabelling by `pairs`, in order, from the entries not yet moved (`rest`)
/// and those moved so far (`moved`): a pair whose old key is still in `rest`
/// moves that value to its new key. At the end the entries never moved are
/// put back over the moved ones, so an existing key is never overwritten by
/// a moved value.
pub open spec fn migrate_from(
    rest: Map<Seq<char>, Seq<char>>,
    moved: Map<Seq<char>, Seq<char>>,
    pairs: Seq<(Seq<char>, Seq<char>)>,
) -> Map<Seq<char>, Seq<char>>
    decreases pairs.len(),
{
    if pairs.len() == 0 {
        moved.union_prefer_right(rest)
    } else {
        let (o, n) = pairs[0];
        if rest.contains_key(o) {
            migrate_from(rest.remove(o), moved.insert(n, rest[o]), pairs.drop_first())
        } else {
            migrate_from(rest, moved, pairs.drop_first())
        }
    }
}

/// `m` with its keys relabelled by `pairs`.
pub open spec fn migrated(m: Map<Seq<char>, Seq<char>>, pairs: Seq<(Seq<char>, Seq<char>)>) -> Map<
    Seq<char>,
    Seq<char>,
> {
    migrate_from(m, Map::empty(), pairs)
}

proof fn lemma_migrate_keeps(
    rest: Map<Seq<char>, Seq<char>>,
    moved: Map<Seq<char>, Seq<char>>,
    pairs: Seq<(Seq<char>, Seq<char>)>,
    k: Seq<char>,
)
    requires
        rest.contains_key(k),
        forall|i: int| 0 <= i < pairs.len() ==> (#[trigger] pairs[i]).0 != k,
    ensures
        migrate_from(rest, moved, pairs).contains_key(k),
        migrate_from(rest, moved, pairs)[k] == rest[k],
    decreases pairs.len(),
{
    if pairs.len() > 0 {
        let (o, n) = pairs[0];
        assert(pairs[0].0 != k);
        assert forall|i: int| 0 <= i < pairs.drop_first().len() implies (#[trigger] pairs.drop_first()[i]).0 != k by {
            assert(pairs.drop_first()[i] == pairs[i + 1]);
        }
        if rest.contains_key(o) {
            lemma_migrate_keeps(rest.remove(o), moved.insert(n, rest[o]), pairs.drop_first(), k);
        } else {
            lemma_migrate_keeps(rest, moved, pairs.drop_first(), k);
        }
    }
}

/// Relabelling never clobbers: an entry whose key no pair moves away keeps
/// its key and its value, whatever the pairs move onto that key.
pub proof fn lemma_migrate_keeps_unmoved(m: Map<Seq<char>, Seq<char>>, pairs: Seq<(Seq<char>, Seq<char>)>, k: Seq<char>)
    requires
        m.contains_key(k),
        forall|i: int| 0 <= i < pairs.len() ==> (#[trigger] pairs[i]).0 != k,
    ensures
        migrated(m, pairs).contains_key(k),
        migrated(m, pairs)[k] == m[k],
{
    lemma_migrate_keeps(m, Map::empty(), pairs, k);
}

/// One relabelling onto a free key moves the value: the old key is gone and
/// the new key holds what the old one held.
pub proof fn lemma_migrate_one(m: Map<Seq<char>, Seq<char>>, old_key: Seq<char>, new_key: Seq<char>)
    requires
        m.contains_key(old_key),
        !m.contains_key(new_key),
    ensures
        !migrated(m, seq![(old_key, new_key)]).contains_key(old_key) || old_key == new_key,
        migrated(m, seq![(old_key, new_key)]).contains_key(new_key),
        migrated(m, seq![(old_key, new_key)])[new_key] == m[old_key],
{
    let ps = seq![(old_key, new_key)];
    let rest = m.remove(old_key);
    let moved = Map::<Seq<char>, Seq<char>>::empty().insert(new_key, m[old_key]);
    assert(ps[0] == (old_key, new_key));
    assert(ps.drop_first() =~= Seq::<(Seq<char>, Seq<char>)>::empty());
    assert(migrated(m, ps) == migrate_from(rest, moved, ps.drop_first()));
    assert(migrate_from(rest, moved, ps.drop_first()) == moved.union_prefer_right(rest));
    assert(!rest.contains_key(new_key));
}

proof fn lemma_entries_map_prefix(s: Seq<(String, String)>, j: int)
    requires
        distinct_keys(s),
        0 <= j < s.len(),
    ensures
        entries_map(s.subrange(0, j + 1)) == entries_map(s.subrange(0, j)).insert(s[j].0@, s[j].1@),
{
    let a = s.subrange(0, j + 1);
    let p = s.subrange(0, j);
    let m = entries_map(p).insert(s[j].0@, s[j].1@);
    assert forall|k: Seq<char>| #[trigger] m.contains_key(k) <==> has_key(a, k) by {
        if has_key(p, k) {
            let x = choose|x: int| 0 <= x < p.len() && #[trigger] p[x].0@ == k;
            assert(a[x].0@ == k);
        }
        if k == s[j].0@ {
            assert(a[j].0@ == k);
        }
        if has_key(a, k) {
            let x = choose|x: int| 0 <= x < a.len() && #[trigger] a[x].0@ == k;
            if x < j {
                assert(p[x].0@ == k);
            }
        }
    }
    assert forall|x: int| 0 <= x < a.len() implies m[#[trigger] a[x].0@] == a[x].1@ by {
        if x < j {
            assert(a[x] == p[x]);
            lemma_entries_map_at(p, x);
        }
    }
    lemma_entries_map_eq(a, m);
}

/// The view of an optional string.
pub open spec fn option_view(v: Option<String>) -> Option<Seq<char>> {
    match v {
        Some(s) => Some(s@),
        None => None,
    }
}

/// `m` after storing `v` under `k`: `None` removes the key.
pub open spec fn put_value(m: Map<Seq<char>, Seq<char>>, k: Seq<char>, v: Option<Seq<char>>) -> Map<
    Seq<char>,
    Seq<char>,
> {
    match v {
        Some(x) => m.insert(k, x),
        None => m.remove(k),
    }
}

/// Storing "no value" under a key leaves the key absent, and doing it again
/// changes nothing.
pub proof fn lemma_put_none_idempotent(m: Map<Seq<char>, Seq<char>>, k: Seq<char>)
    ensures
        !put_value(m, k, None).contains_key(k),
        put_value(put_value(m, k, None), k, None) == put_value(m, k, None),
{
    assert(put_value(put_value(m, k, None), k, None) =~= put_value(m, k, None));
}

/// What the JSON document `text` holds under `field`: `None` where the text
/// is no JSON object or the field holds something other than an object of
/// strings; `Some(None)` where the field is absent; else its map from keys to
/// strings. Other fields are not looked at.
pub uninterp spec fn json_field(text: Seq<char>, field: Seq<char>) -> Option<Option<Map<Seq<char>, Seq<char>>>>;

/// The pretty-printed JSON text of a document with one field holding `entries`.
pub uninterp spec fn json_document_text(field: Seq<char>, entries: Map<Seq<char>, Seq<char>>) -> Seq<char>;

#[verifier::external_type_specification]
#[verifier::external_body]
pub struct ExJsonError(serde_json::Error);

/// Relies on `serde_json::from_str` into a `BTreeMap` of JSON values, whose
/// field `field` is then turned by `serde_json::from_value` into a `BTreeMap`
/// of strings: the outcome depends on the text and the field alone, and the
/// keys of a `BTreeMap` are unique.
#[verifier::external_body]
fn parse_json_document(text: &str, field: &str) -> (r: Result<Option<Vec<(String, String)>>, serde_json::Error>)
    ensures
        r is Ok <==> json_field(text@, field@) is Some,
        r matches Ok(o) ==> (o is Some <==> json_field(text@, field@).unwrap() is Some),
        r matches Ok(Some(v)) ==> distinct_keys(v@) && entries_map(v@) == json_field(text@, field@).unwrap().unwrap(),
{
    let mut doc: std::collections::BTreeMap<String, serde_json::Value> = serde_json::from_str(text)?;
    match doc.remove(field) {
        Some(v) => {
            let m: std::collections::BTreeMap<String, String> = serde_json::from_value(v)?;
            Ok(Some(m.into_iter().collect()))
        },
        None => Ok(None),
    }
}

/// Relies on `serde_json::to_string_pretty` of a one-field `BTreeMap` holding
/// a `BTreeMap` of the entries: the text depends on the field name and the
/// map alone, as a `BTreeMap` is written in key order. It fails only where a
/// `Serialize` impl fails or a map key is no string, which cannot happen for
/// maps of strings.
#[verifier::external_body]
fn render_json_document(field: &str, entries: &Vec<(String, String)>) -> (r: Result<String, serde_json::Error>)
    requires
        distinct_keys(entries@),
    ensures
        r is Ok,
        r matches Ok(t) ==> t@ == json_document_text(field@, entries_map(entries@)),
{
    let inner: std::collections::BTreeMap<String, String> = entries.iter().cloned().collect();
    let mut doc = std::collections::BTreeMap::new();
    doc.insert(field.to_string(), inner);
    serde_json::to_string_pretty(&doc)
}

/// Relies on the `Display` of `serde_json::Error` for a message.
#[verifier::external_body]
fn json_error_message(e: &serde_json::Error) -> String {
    e.to_string()
}

/// Why a stored document could not be read or written.
#[derive(Debug)]
pub enum DocumentError {
    /// The text is no JSON object, or the field holds no object of strings.
    Malformed(String),
    /// The document lacks the field that holds the entries.
    MissingField,
}

/// The entries that the document `text` holds under `field`: `None` where it is
/// malformed, an empty map where it lacks the field.
pub open spec fn document_entries(text: Seq<char>, field: Seq<char>) -> Option<Map<Seq<char>, Seq<char>>> {
    match json_field(text, field) {
        Some(Some(m)) => Some(m),
        Some(None) => Some(Map::empty()),
        None => None,
    }
}

/// A mapping from root-relative paths to values; no two entries share a key.
#[derive(Debug)]
pub struct PathKeyedStore {
    entries: Vec<(String, String)>,
}

impl View for PathKeyedStore {
    type V = Map<Seq<char>, Seq<char>>;

    closed spec fn view(&self) -> Map<Seq<char>, Seq<char>> {
        entries_map(self.entries@)
    }
}

impl PathKeyedStore {
    /// The entries are well formed: their keys are distinct.
    pub closed spec fn wf(&self) -> bool {
        distinct_keys(self.entries@)
    }

    /// The entries, as a sequence.
    pub closed spec fn entry_seq(&self) -> Seq<(String, String)> {
        self.entries@
    }

    /// An empty store.
    pub fn new() -> (r: Self)
        ensures
            r.wf(),
            r@ == Map::<Seq<char>, Seq<char>>::empty(),
    {
        let r = PathKeyedStore { entries: Vec::new() };
        assert(r@ =~= Map::<Seq<char>, Seq<char>>::empty());
        r
    }

    /// The entries, in the order in which they are kept.
    pub fn entries(&self) -> (r: &Vec<(String, String)>)
        ensures
            r@ == self.entry_seq(),
    {
        &self.entries
    }

    fn index_of(&self, key: &str) -> (r: Option<usize>)
        ensures
            r matches Some(i) ==> i < self.entries@.len() && self.entries@[i as int].0@ == key@,
            r is None ==> !has_key(self.entries@, key@),
    {
        let mut i: usize = 0;
        while i < self.entries.len()
            invariant
                i <= self.entries@.len(),
                forall|j: int| 0 <= j < i ==> #[trigger] self.entries@[j].0@ != key@,
            decreases self.entries@.len() - i,
        {
            if same_str(self.entries[i].0.as_str(), key) {
                return Some(i);
            }
            i += 1;
        }
        None
    }

    /// The number of keys.
    pub fn len(&self) -> (r: usize)
        requires
            self.wf(),
        ensures
            r == self@.dom().len(),
    {
        proof {
            let ks = self.entries@.map_values(|e: (String, String)| e.0@);
            assert(ks.no_duplicates()) by {
                assert forall|i: int, j: int| 0 <= i < ks.len() && 0 <= j < ks.len() && i != j implies ks[i] != ks[j] by {
                    assert(self.entries@[i].0@ != self.entries@[j].0@);
                }
            }
            ks.unique_seq_to_set();
            assert forall|k: Seq<char>| #[trigger] ks.to_set().contains(k) <==> self@.dom().contains(k) by {
                if ks.to_set().contains(k) {
                    let i = choose|i: int| 0 <= i < ks.len() && ks[i] == k;
                    assert(self.entries@[i].0@ == k);
                }
                if self@.dom().contains(k) {
                    let i = choose|i: int| 0 <= i < self.entries@.len() && #[trigger] self.entries@[i].0@ == k;
                    assert(ks[i] == k);
                }
            }
            assert(ks.to_set() =~= self@.dom());
        }
        self.entries.len()
    }

    /// The value stored under `key`.
    pub fn get(&self, key: &str) -> (r: Option<String>)
        requires
            self.wf(),
        ensures
            r matches Some(v) ==> self@.contains_key(key@) && v@ == self@[key@],
            r is None ==> !self@.contains_key(key@),
    {
        match self.index_of(key) {
            Some(i) => {
                proof {
                    lemma_entries_map_at(self.entries@, i as int);
                }
                Some(self.entries[i].1.clone())
            },
            None => None,
        }
    }

    /// Stores `value` under `key`, replacing what was there.
    pub fn insert(&mut self, key: String, value: String)
        requires
            old(self).wf(),
        ensures
            final(self).wf(),
            final(self)@ == old(self)@.insert(key@, value@),
    {
        let ghost s = self.entries@;
        let ghost m = entries_map(s).insert(key@, value@);
        match self.index_of(key.as_str()) {
            Some(i) => {
                self.entries.set(i, (key, value));
                proof {
                    let a = self.entries@;
                    assert(a == s.update(i as int, a[i as int]));
                    assert forall|k: Seq<char>| #[trigger] m.contains_key(k) <==> has_key(a, k) by {
                        if has_key(s, k) {
                            let j = choose|j: int| 0 <= j < s.len() && #[trigger] s[j].0@ == k;
                            assert(a[j].0@ == k);
                        }
                        if has_key(a, k) {
                            let j = choose|j: int| 0 <= j < a.len() && #[trigger] a[j].0@ == k;
                            assert(s[j].0@ == k);
                        }
                    }
                    assert forall|j: int| 0 <= j < a.len() implies m[#[trigger] a[j].0@] == a[j].1@ by {
                        if j != i {
                            lemma_entries_map_at(s, j);
                        }
                    }
                    lemma_entries_map_eq(a, m);
                }
            },
            None => {
                self.entries.push((key, value));
                proof {
                    let a = self.entries@;
                    assert(a == s.push(a[s.len() as int]));
                    assert forall|k: Seq<char>| #[trigger] m.contains_key(k) <==> has_key(a, k) by {
                        if has_key(s, k) {
                            let j = choose|j: int| 0 <= j < s.len() && #[trigger] s[j].0@ == k;
                            assert(a[j].0@ == k);
                        }
                        if k == key@ {
                            assert(a[s.len() as int].0@ == k);
                        }
                        if has_key(a, k) {
                            let j = choose|j: int| 0 <= j < a.len() && #[trigger] a[j].0@ == k;
                            if j < s.len() {
                                assert(s[j].0@ == k);
                            }
                        }
                    }
                    assert forall|j: int| 0 <= j < a.len() implies m[#[trigger] a[j].0@] == a[j].1@ by {
                        if j < s.len() {
                            lemma_entries_map_at(s, j);
                        }
                    }
                    lemma_entries_map_eq(a, m);
                }
            },
        }
    }

    /// Removes `key`, returning the value that was stored under it.
    pub fn remove(&mut self, key: &str) -> (r: Option<String>)
        requires
            old(self).wf(),
        ensures
            final(self).wf(),
            final(self)@ == old(self)@.remove(key@),
            r matches Some(v) ==> old(self)@.contains_key(key@) && v@ == old(self)@[key@],
            r is None ==> !old(self)@.contains_key(key@),
    {
        let ghost s = self.entries@;
        let ghost m = entries_map(s).remove(key@);
        match self.index_of(key) {
            Some(i) => {
                proof {
                    lemma_entries_map_at(s, i as int);
                }
                let (_, v) = self.entries.remove(i);
                proof {
                    let a = self.entries@;
                    assert forall|x: int, y: int| 0 <= x < a.len() && 0 <= y < a.len() && x != y implies #[trigger] a[x].0@ != #[trigger] a[y].0@ by {
                        let x2 = if x < i { x } else { x + 1 };
                        let y2 = if y < i { y } else { y + 1 };
                        assert(a[x] == s[x2] && a[y] == s[y2]);
                    }
                    assert forall|k: Seq<char>| #[trigger] m.contains_key(k) <==> has_key(a, k) by {
                        if has_key(s, k) && k != key@ {
                            let j = choose|j: int| 0 <= j < s.len() && #[trigger] s[j].0@ == k;
                            if j < i {
                                assert(a[j].0@ == k);
                            } else {
                                assert(a[j - 1].0@ == k);
                            }
                        }
                        if has_key(a, k) {
                            let j = choose|j: int| 0 <= j < a.len() && #[trigger] a[j].0@ == k;
                            let j2 = if j < i { j } else { j + 1 };
                            assert(s[j2].0@ == k);
                        }
                    }
                    assert forall|j: int| 0 <= j < a.len() implies m[#[trigger] a[j].0@] == a[j].1@ by {
                        let j2 = if j < i { j } else { j + 1 };
                        assert(a[j] == s[j2]);
                        lemma_entries_map_at(s, j2);
                    }
                    lemma_entries_map_eq(a, m);
                }
                Some(v)
            },
            None => {
                assert(m =~= entries_map(s));
                None
            },
        }
    }

    /// Stores `value` under `key`, or removes `key` where `value` is `None`.
    pub fn put(&mut self, key: String, value: Option<String>)
        requires
            old(self).wf(),
        ensures
            final(self).wf(),
            final(self)@ == put_value(old(self)@, key@, option_view(value)),
    {
        match value {
            Some(v) => self.insert(key, v),
            None => {
                self.remove(key.as_str());
            },
        }
    }

    /// Relabels keys by `pairs` (old key, new key), in order: the value under
    /// each old key still present moves to the new key, and entries that were
    /// never moved keep their keys and win over moved values.
    pub fn migrate_keys(&mut self, pairs: &Vec<(String, String)>)
        requires
            old(self).wf(),
        ensures
            final(self).wf(),
            final(self)@ == migrated(old(self)@, pair_views(pairs@)),
    {
        let ghost ps = pair_views(pairs@);
        let mut moved = PathKeyedStore::new();
        let mut i: usize = 0;
        assert(ps.subrange(0, ps.len() as int) =~= ps);
        while i < pairs.len()
            invariant
                self.wf(),
                moved.wf(),
                i <= pairs@.len(),
                ps == pair_views(pairs@),
                migrate_from(self@, moved@, ps.subrange(i as int, ps.len() as int)) == migrated(
                    old(self)@,
                    ps,
                ),
            decreases pairs@.len() - i,
        {
            let ghost sub = ps.subrange(i as int, ps.len() as int);
            assert(sub.drop_first() =~= ps.subrange(i + 1, ps.len() as int));
            assert(sub[0] == (pairs@[i as int].0@, pairs@[i as int].1@));
            assert(sub.len() > 0);
            let ghost rest0 = self@;
            let ghost moved0 = moved@;
            let ghost o = pairs@[i as int].0@;
            let ghost n = pairs@[i as int].1@;
            match self.remove(pairs[i].0.as_str()) {
                Some(v) => {
                    let nk = pairs[i].1.clone();
                    moved.insert(nk, v);
                    assert(rest0.contains_key(o));
                    assert(moved@ == moved0.insert(n, rest0[o]));
                },
                None => {
                    assert(!rest0.contains_key(o));
                    assert(self@ =~= rest0);
                },
            }
            assert(migrate_from(rest0, moved0, sub) == migrate_from(self@, moved@, sub.drop_first()));
            i += 1;
        }
        assert(ps.subrange(i as int, ps.len() as int) =~= Seq::<(Seq<char>, Seq<char>)>::empty());
        let ghost moved0 = moved@;
        let mut j: usize = 0;
        assert(self.entries@.subrange(0, 0) =~= Seq::<(String, String)>::empty());
        assert(entries_map(self.entries@.subrange(0, 0)) =~= Map::<Seq<char>, Seq<char>>::empty());
        assert(moved0.union_prefer_right(Map::<Seq<char>, Seq<char>>::empty()) =~= moved0);
        while j < self.entries.len()
            invariant
                self.wf(),
                moved.wf(),
                j <= self.entries@.len(),
                moved@ == moved0.union_prefer_right(entries_map(self.entries@.subrange(0, j as int))),
            decreases self.entries@.len() - j,
        {
            proof {
                lemma_entries_map_prefix(self.entries@, j as int);
            }
            let k = self.entries[j].0.clone();
            let v = self.entries[j].1.clone();
            moved.insert(k, v);
            j += 1;
            assert(moved@ =~= moved0.union_prefer_right(entries_map(self.entries@.subrange(0, j as int))));
        }
        assert(self.entries@.subrange(0, j as int) =~= self.entries@);
        self.entries = moved.entries;
    }

    /// Reads the entries that the JSON document `text` holds under `field`.
    pub fn parse_document(text: &str, field: &str) -> (r: Result<Self, DocumentError>)
        ensures
            r is Ok ==> r.unwrap().wf(),
            r is Ok <==> json_field(text@, field@) matches Some(Some(_)),
            r is Ok ==> r.unwrap()@ == json_field(text@, field@).unwrap().unwrap(),
            r matches Err(DocumentError::Malformed(_)) <==> json_field(text@, field@) is None,
    {
        match parse_json_document(text, field) {
            Ok(Some(v)) => Ok(PathKeyedStore { entries: v }),
            Ok(None) => Err(DocumentError::MissingField),
            Err(e) => Err(DocumentError::Malformed(json_error_message(&e))),
        }
    }

    /// The JSON document that holds the entries under `field`.
    pub fn to_document(&self, field: &str) -> (r: Result<String, DocumentError>)
        requires
            self.wf(),
        ensures
            r is Ok,
            r matches Ok(t) ==> t@ == json_document_text(field@, self@),
    {
        match render_json_document(field, &self.entries) {
            Ok(t) => Ok(t),
            Err(e) => Err(DocumentError::Malformed(json_error_message(&e))),
        }
    }

    /// Removes every entry, returning how many keys there were.
    pub fn clear(&mut self) -> (r: usize)
        requires
            old(self).wf(),
        ensures
            final(self).wf(),
            final(self)@ == Map::<Seq<char>, Seq<char>>::empty(),
            r == old(self)@.dom().len(),
    {
        let n = self.len();
        self.entries = Vec::new();
        assert(self@ =~= Map::<Seq<char>, Seq<char>>::empty());
        n
    }
}

} // verus!
