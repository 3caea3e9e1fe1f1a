//! Grouping the images of a project by the digest of their content.
use vstd::prelude::*;
use crate::store::pair_views;
use crate::text::{chars_of, same_chars};
use crate::scan::FindDuplicatesResult;

verus! {

/// A file of the list counts when its relative path is not empty.
pub open spec fn counted(f: Seq<(Seq<char>, Seq<char>)>, k: int) -> bool {
    f[k].0.len() > 0
}

/// The relative paths of the counted files with digest `d`, in order.
pub open spec fn members(f: Seq<(Seq<char>, Seq<char>)>, d: Seq<char>) -> Seq<Seq<char>>
    decreases f.len(),
{
    if f.len() == 0 {
        Seq::empty()
    } else {
        let prev = members(f.drop_last(), d);
        if f.last().1 == d && f.last().0.len() > 0 {
            prev.push(f.last().0)
        } else {
            prev
        }
    }
}

/// File `i` is the first counted file with its digest.
pub open spec fn first_of(f: Seq<(Seq<char>, Seq<char>)>, i: int) -> bool {
    &&& 0 <= i < f.len()
    &&& counted(f, i)
    &&& forall|j: int| 0 <= j < i ==> !(counted(f, j) && #[trigger] f[j].1 == f[i].1)
}

/// The files among the first `k` that start a group: the first of their
/// digest, with at least one other file sharing it.
pub open spec fn group_starts(f: Seq<(Seq<char>, Seq<char>)>, k: nat) -> Seq<int>
    decreases k,
{
    if k == 0 {
        Seq::empty()
    } else {
        let prev = group_starts(f, (k - 1) as nat);
        let i = k - 1;
        if first_of(f, i) && members(f, f[i].1).len() >= 2 {
            prev.push(i)
        } else {
            prev
        }
    }
}

/// The duplicate groups: for each digest shared by two or more files, in the
/// order of its first file, the relative paths of those files in order.
pub open spec fn duplicate_groups(f: Seq<(Seq<char>, Seq<char>)>) -> Seq<Seq<Seq<char>>> {
    group_starts(f, f.len()).map_values(|i: int| members(f, f[i].1))
}

pub open spec fn group_views(r: Seq<Vec<String>>) -> Seq<Seq<Seq<char>>> {
    r.map_values(|g: Vec<String>| crate::text::views(g@))
}

proof fn lemma_group_starts(f: Seq<(Seq<char>, Seq<char>)>, k: nat)
    requires
        k <= f.len(),
    ensures
        forall|g: int| 0 <= g < group_starts(f, k).len() ==> {
            let i = #[trigger] group_starts(f, k)[g];
            0 <= i < k && first_of(f, i) && members(f, f[i].1).len() >= 2
        },
        forall|i: int| 0 <= i < k && first_of(f, i) && members(f, f[i].1).len() >= 2 ==> exists|g: int|
            0 <= g < group_starts(f, k).len() && #[trigger] group_starts(f, k)[g] == i,
        forall|g1: int, g2: int| 0 <= g1 < g2 < group_starts(f, k).len() ==> #[trigger] group_starts(f, k)[g1] < #[trigger] group_starts(f, k)[g2],
    decreases k,
{
    if k > 0 {
        lemma_group_starts(f, (k - 1) as nat);
        let prev = group_starts(f, (k - 1) as nat);
        let cur = group_starts(f, k);
        assert forall|i: int| 0 <= i < k && first_of(f, i) && members(f, f[i].1).len() >= 2 implies exists|g: int|
            0 <= g < cur.len() && #[trigger] cur[g] == i by {
            if i < k - 1 {
                let g = choose|g: int| 0 <= g < prev.len() && #[trigger] prev[g] == i;
                assert(cur[g] == i);
            } else {
                assert(cur[cur.len() - 1] == i);
            }
        }
    }
}

/// A path listed under `d` belongs to a counted file with digest `d`, and back.
proof fn lemma_members(f: Seq<(Seq<char>, Seq<char>)>, d: Seq<char>)
    ensures
        forall|x: Seq<char>| #[trigger] members(f, d).contains(x) <==> exists|k: int|
            0 <= k < f.len() && counted(f, k) && f[k].1 == d && #[trigger] f[k].0 == x,
    decreases f.len(),
{
    if f.len() > 0 {
        let p = f.drop_last();
        lemma_members(p, d);
        assert forall|x: Seq<char>| #[trigger] members(f, d).contains(x) <==> exists|k: int|
            0 <= k < f.len() && counted(f, k) && f[k].1 == d && #[trigger] f[k].0 == x by {
            if members(f, d).contains(x) {
                if members(p, d).contains(x) {
                    let k = choose|k: int| 0 <= k < p.len() && counted(p, k) && p[k].1 == d && #[trigger] p[k].0 == x;
                    assert(f[k] == p[k]);
                } else {
                    assert(f[f.len() - 1].0 == x);
                }
            }
            if exists|k: int| 0 <= k < f.len() && counted(f, k) && f[k].1 == d && #[trigger] f[k].0 == x {
                let k = choose|k: int| 0 <= k < f.len() && counted(f, k) && f[k].1 == d && #[trigger] f[k].0 == x;
                if k < f.len() - 1 {
                    assert(p[k] == f[k]);
                    assert(members(p, d).contains(x));
                    let m = members(p, d);
                    let j = choose|j: int| 0 <= j < m.len() && m[j] == x;
                    assert(members(f, d)[j] == x);
                } else {
                    assert(members(f, d).last() == x);
                }
            }
        }
    }
}

/// Two counted files with the same digest make a list of at least two.
proof fn lemma_members_two(f: Seq<(Seq<char>, Seq<char>)>, i: int, j: int)
    requires
        0 <= i < f.len(),
        0 <= j < f.len(),
        i != j,
        counted(f, i),
        counted(f, j),
        f[i].1 == f[j].1,
    ensures
        members(f, f[i].1).len() >= 2,
    decreases f.len(),
{
    let d = f[i].1;
    let p = f.drop_last();
    let n = f.len() - 1;
    if i < n && j < n {
        assert(p[i] == f[i] && p[j] == f[j]);
        lemma_members_two(p, i, j);
    } else {
        let other = if i == n { j } else { i };
        lemma_members(p, d);
        assert(p[other] == f[other]);
        assert(members(p, d).contains(p[other].0));
    }
}

/// A list of at least two comes from two different counted files.
proof fn lemma_members_two_back(f: Seq<(Seq<char>, Seq<char>)>, d: Seq<char>)
    requires
        members(f, d).len() >= 2,
    ensures
        exists|i: int, j: int| 0 <= i < f.len() && 0 <= j < f.len() && i != j && counted(f, i) && counted(f, j)
            && #[trigger] f[i].1 == d && #[trigger] f[j].1 == d,
    decreases f.len(),
{
    let p = f.drop_last();
    let n = f.len() - 1;
    if members(p, d).len() >= 2 {
        lemma_members_two_back(p, d);
        let (i, j) = choose|i: int, j: int| 0 <= i < p.len() && 0 <= j < p.len() && i != j && counted(p, i) && counted(p, j)
            && #[trigger] p[i].1 == d && #[trigger] p[j].1 == d;
        assert(f[i] == p[i] && f[j] == p[j]);
    } else {
        lemma_members(p, d);
        assert(members(p, d).len() == 1);
        assert(members(p, d).contains(members(p, d)[0]));
        let k = choose|k: int| 0 <= k < p.len() && counted(p, k) && p[k].1 == d && #[trigger] p[k].0 == members(p, d)[0];
        assert(f[k] == p[k]);
        assert(f[n].1 == d && counted(f, n));
    }
}

/// Every counted file has a first file of its digest at or before it.
proof fn lemma_first_exists(f: Seq<(Seq<char>, Seq<char>)>, i: int)
    requires
        0 <= i < f.len(),
        counted(f, i),
    ensures
        exists|m: int| 0 <= m <= i && first_of(f, m) && #[trigger] f[m].1 == f[i].1,
    decreases i,
{
    if !first_of(f, i) {
        let j = choose|j: int| 0 <= j < i && !!(counted(f, j) && #[trigger] f[j].1 == f[i].1);
        lemma_first_exists(f, j);
        let m = choose|m: int| 0 <= m <= j && first_of(f, m) && #[trigger] f[m].1 == f[j].1;
        assert(f[m].1 == f[i].1);
    } else {
        assert(f[i].1 == f[i].1);
    }
}

/// The counted files have distinct relative paths.
pub open spec fn distinct_counted_paths(f: Seq<(Seq<char>, Seq<char>)>) -> bool {
    forall|i: int, j: int| 0 <= i < f.len() && 0 <= j < f.len() && i != j && counted(f, i) && counted(f, j)
        ==> #[trigger] f[i].0 != #[trigger] f[j].0
}

/// Two files with the same digest are together in exactly one group, and a
/// file whose digest no other file shares is in no group.
pub proof fn lemma_duplicates_grouped(f: Seq<(Seq<char>, Seq<char>)>, i: int)
    requires
        0 <= i < f.len(),
        counted(f, i),
        distinct_counted_paths(f),
    ensures
        forall|j: int| 0 <= j < f.len() && j != i && counted(f, j) && #[trigger] f[j].1 == f[i].1 ==> exists|g: int|
            0 <= g < duplicate_groups(f).len() && #[trigger] duplicate_groups(f)[g].contains(f[i].0)
            && duplicate_groups(f)[g].contains(f[j].0) && forall|h: int| 0 <= h < duplicate_groups(f).len()
                && #[trigger] duplicate_groups(f)[h].contains(f[i].0) ==> h == g,
        (forall|j: int| 0 <= j < f.len() && j != i && counted(f, j) ==> #[trigger] f[j].1 != f[i].1) ==> forall|g: int|
            0 <= g < duplicate_groups(f).len() ==> !(#[trigger] duplicate_groups(f)[g]).contains(f[i].0),
{
    let gs = duplicate_groups(f);
    let st = group_starts(f, f.len());
    lemma_group_starts(f, f.len());
    // a group holding the path of file i is the group of its digest
    assert forall|h: int| 0 <= h < gs.len() && #[trigger] gs[h].contains(f[i].0) implies f[st[h]].1 == f[i].1 by {
        lemma_members(f, f[st[h]].1);
        let k = choose|k: int| 0 <= k < f.len() && counted(f, k) && f[k].1 == f[st[h]].1 && #[trigger] f[k].0 == f[i].0;
        assert(k == i);
    }
    assert forall|j: int| 0 <= j < f.len() && j != i && counted(f, j) && #[trigger] f[j].1 == f[i].1 implies exists|g: int|
        0 <= g < gs.len() && #[trigger] gs[g].contains(f[i].0) && gs[g].contains(f[j].0) && forall|h: int| 0 <= h < gs.len()
            && #[trigger] gs[h].contains(f[i].0) ==> h == g by {
        lemma_members_two(f, i, j);
        lemma_first_exists(f, i);
        let m = choose|m: int| 0 <= m <= i && first_of(f, m) && #[trigger] f[m].1 == f[i].1;
        let g = choose|g: int| 0 <= g < st.len() && #[trigger] st[g] == m;
        lemma_members(f, f[i].1);
        assert(gs[g] == members(f, f[i].1));
        assert(gs[g].contains(f[i].0));
        assert(gs[g].contains(f[j].0));
        assert forall|h: int| 0 <= h < gs.len() && #[trigger] gs[h].contains(f[i].0) implies h == g by {
            if h != g {
                let a = st[h];
                let b = st[g];
                assert(f[a].1 == f[b].1);
                if a < b {
                    assert(!(counted(f, a) && f[a].1 == f[b].1));
                } else if b < a {
                    assert(!(counted(f, b) && f[b].1 == f[a].1));
                } else {
                    if h < g {
                        assert(st[h] < st[g]);
                    } else {
                        assert(st[g] < st[h]);
                    }
                }
            }
        }
    }
    if forall|j: int| 0 <= j < f.len() && j != i && counted(f, j) ==> #[trigger] f[j].1 != f[i].1 {
        assert forall|g: int| 0 <= g < gs.len() implies !(#[trigger] gs[g]).contains(f[i].0) by {
            if gs[g].contains(f[i].0) {
                assert(f[st[g]].1 == f[i].1);
                lemma_members_two_back(f, f[i].1);
                let (a, b) = choose|a: int, b: int| 0 <= a < f.len() && 0 <= b < f.len() && a != b && counted(f, a) && counted(f, b)
                    && #[trigger] f[a].1 == f[i].1 && #[trigger] f[b].1 == f[i].1;
                assert(a == i || f[a].1 != f[i].1);
                assert(b == i || f[b].1 != f[i].1);
            }
        }
    }
}

fn collect_members(files: &Vec<(String, String)>, d: &str) -> (r: Vec<String>)
    ensures
        crate::text::views(r@) == members(pair_views(files@), d@),
{
    let ghost f = pair_views(files@);
    let dc = chars_of(d);
    let mut r: Vec<String> = Vec::new();
    let mut k: usize = 0;
    assert(f.subrange(0, 0) =~= Seq::<(Seq<char>, Seq<char>)>::empty());
    while k < files.len()
        invariant
            k <= files@.len(),
            f == pair_views(files@),
            dc@ == d@,
            crate::text::views(r@) == members(f.subrange(0, k as int), d@),
        decreases files@.len() - k,
    {
        assert(f.subrange(0, k + 1).drop_last() =~= f.subrange(0, k as int));
        assert(f.subrange(0, k + 1).last() == f[k as int]);
        let kd = chars_of(files[k].1.as_str());
        let kr = chars_of(files[k].0.as_str());
        if same_chars(kd.as_slice(), dc.as_slice()) && kr.len() > 0 {
            r.push(files[k].0.clone());
            assert(crate::text::views(r@) =~= members(f.subrange(0, k + 1), d@));
        }
        k += 1;
    }
    assert(f.subrange(0, k as int) =~= f);
    r
}

/// Groups the files, given as (relative path, content digest), by digest:
/// each digest that two or more files share gives one group of their paths.
/// Files with an empty relative path are left out.
pub fn find_duplicate_groups(files: &Vec<(String, String)>) -> (r: Vec<Vec<String>>)
    ensures
        group_views(r@) == duplicate_groups(pair_views(files@)),
{
    let ghost f = pair_views(files@);
    let mut out: Vec<Vec<String>> = Vec::new();
    let mut i: usize = 0;
    assert(group_views(out@) =~= group_starts(f, 0).map_values(|x: int| members(f, f[x].1)));
    while i < files.len()
        invariant
            i <= files@.len(),
            f == pair_views(files@),
            group_views(out@) == group_starts(f, i as nat).map_values(|x: int| members(f, f[x].1)),
        decreases files@.len() - i,
    {
        let ri = chars_of(files[i].0.as_str());
        let di = chars_of(files[i].1.as_str());
        let mut first = ri.len() > 0;
        let mut j: usize = 0;
        while first && j < i
            invariant
                j <= i < files@.len(),
                f == pair_views(files@),
                di@ == f[i as int].1,
                first ==> ri@.len() > 0,
                first ==> forall|x: int| 0 <= x < j ==> !(counted(f, x) && #[trigger] f[x].1 == f[i as int].1),
                !first ==> !first_of(f, i as int),
                ri@ == f[i as int].0,
            decreases i - j,
        {
            let rj = chars_of(files[j].0.as_str());
            let dj = chars_of(files[j].1.as_str());
            if rj.len() > 0 && same_chars(dj.as_slice(), di.as_slice()) {
                assert(counted(f, j as int) && f[j as int].1 == f[i as int].1);
                first = false;
            }
            j += 1;
        }
        let ghost prev = group_starts(f, i as nat);
        if first {
            let m = collect_members(files, files[i].1.as_str());
            assert(crate::text::views(m@).len() == m@.len());
            if m.len() >= 2 {
                let ghost before = out@;
                assert(first_of(f, i as int));
                out.push(m);
                assert(group_starts(f, (i + 1) as nat) == prev.push(i as int));
                assert(group_views(out@) =~= group_views(before).push(crate::text::views(m@)));
                assert(group_views(out@) =~= group_starts(f, (i + 1) as nat).map_values(|x: int| members(f, f[x].1)));
            } else {
                assert(group_starts(f, (i + 1) as nat) == prev);
            }
        } else {
            assert(group_starts(f, (i + 1) as nat) == prev);
        }
        i += 1;
    }
    out
}

/// The duplicate groups of the files, given as (relative path, content digest).
pub fn find_duplicates(files: &Vec<(String, String)>) -> (r: FindDuplicatesResult)
    ensures
        group_views(r.groups@) == duplicate_groups(pair_views(files@)),
{
    FindDuplicatesResult { groups: find_duplicate_groups(files) }
}

} // verus!
