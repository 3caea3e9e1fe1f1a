//! Caption sidecars: tags joined by `", "` in a text file beside the image.
use vstd::prelude::*;
use crate::text::{
    trim_start, chars_of, string_of, trim, trim_chars, trim_str, views, eq_ignore_ascii_case,
    same_ignoring_ascii_case, same_chars, append_str,
};

verus! {

/// `s` cut at every `sep`, as `str::split` cuts it: `k` separators give
/// `k + 1` pieces, some of them possibly empty.
pub open spec fn split_on(s: Seq<char>, sep: char) -> Seq<Seq<char>>
    decreases s.len(),
{
    if s.len() == 0 {
        seq![Seq::<char>::empty()]
    } else {
        let prev = split_on(s.drop_last(), sep);
        if s.last() == sep {
            prev.push(Seq::empty())
        } else {
            prev.update(prev.len() - 1, prev.last().push(s.last()))
        }
    }
}

pub proof fn lemma_split_nonempty(s: Seq<char>, sep: char)
    ensures
        split_on(s, sep).len() >= 1,
    decreases s.len(),
{
    if s.len() > 0 {
        lemma_split_nonempty(s.drop_last(), sep);
    }
}

/// The pieces trimmed, empty ones dropped.
pub open spec fn kept_tags(pieces: Seq<Seq<char>>) -> Seq<Seq<char>>
    decreases pieces.len(),
{
    if pieces.len() == 0 {
        Seq::empty()
    } else {
        let prev = kept_tags(pieces.drop_last());
        let t = trim(pieces.last());
        if t.len() > 0 {
            prev.push(t)
        } else {
            prev
        }
    }
}

/// The tags of a caption text: its comma-separated pieces, trimmed, empty ones dropped.
pub open spec fn tags_of(raw: Seq<char>) -> Seq<Seq<char>> {
    kept_tags(split_on(raw, ','))
}

/// The tags joined by `sep`.
pub open spec fn joined(tags: Seq<Seq<char>>, sep: Seq<char>) -> Seq<char>
    decreases tags.len(),
{
    if tags.len() == 0 {
        Seq::empty()
    } else if tags.len() == 1 {
        tags[0]
    } else {
        joined(tags.drop_last(), sep) + sep + tags.last()
    }
}

/// The caption text for a list of tags.
pub open spec fn caption_text(tags: Seq<Seq<char>>) -> Seq<char> {
    joined(tags, ", "@)
}

/// What a caption file says, for display.
#[derive(Debug)]
pub struct CaptionData {
    pub exists: bool,
    pub raw: String,
    pub tags: Vec<String>,
}

#[derive(Debug)]
pub struct ReadCaptionPayload {
    pub path: String,
}

#[derive(Debug)]
pub struct WriteCaptionPayload {
    pub path: String,
    pub tags: Vec<String>,
}

#[derive(Debug)]
pub struct AddTagPayload {
    pub path: String,
    pub tag: String,
}

#[derive(Debug)]
pub struct RemoveTagPayload {
    pub path: String,
    pub tag: String,
}

#[derive(Debug)]
pub struct ReorderTagsPayload {
    pub path: String,
    pub tags: Vec<String>,
}

fn finish_piece(out: &mut Vec<String>, cur: &Vec<char>)
    ensures
        views(final(out)@) == if trim(cur@).len() > 0 {
            views(old(out)@).push(trim(cur@))
        } else {
            views(old(out)@)
        },
{
    let t = trim_chars(cur.as_slice());
    if t.len() > 0 {
        out.push(string_of(t.as_slice()));
        assert(views(out@) =~= views(old(out)@).push(trim(cur@)));
    }
}

/// The tags of a caption text.
pub fn parse_tags(raw: &str) -> (r: Vec<String>)
    ensures
        views(r@) == tags_of(raw@),
{
    let mut out: Vec<String> = Vec::new();
    let mut cur: Vec<char> = Vec::new();
    assert(raw@.subrange(0, 0) =~= Seq::<char>::empty());
    assert(views(out@) =~= Seq::<Seq<char>>::empty());
    for c in it: raw.chars()
        invariant
            it.seq() == raw@,
            split_on(it.seq().subrange(0, it.index() as int), ',').len() >= 1,
            cur@ == split_on(it.seq().subrange(0, it.index() as int), ',').last(),
            views(out@) == kept_tags(split_on(it.seq().subrange(0, it.index() as int), ',').drop_last()),
    {
        let ghost pre = it.seq().subrange(0, it.index() as int);
        let ghost next = it.seq().subrange(0, it.index() + 1);
        assert(next.drop_last() =~= pre);
        assert(next.last() == c);
        let ghost sp = split_on(pre, ',');
        if c == ',' {
            finish_piece(&mut out, &cur);
            cur = Vec::new();
            assert(split_on(next, ',') == sp.push(Seq::empty()));
            assert(split_on(next, ',').drop_last() =~= sp);
            assert(cur@ =~= Seq::<char>::empty());
        } else {
            cur.push(c);
            assert(split_on(next, ',') == sp.update(sp.len() - 1, sp.last().push(c)));
            assert(split_on(next, ',').drop_last() =~= sp.drop_last());
        }
    }
    let ghost sp = split_on(raw@, ',');
    assert(raw@.subrange(0, raw@.len() as int) =~= raw@);
    finish_piece(&mut out, &cur);
    assert(sp.drop_last().push(sp.last()) =~= sp);
    out
}

/// The caption text for `tags`.
pub fn join_tags(tags: &Vec<String>) -> (r: String)
    ensures
        r@ == caption_text(views(tags@)),
{
    let mut r = String::new();
    let mut i: usize = 0;
    assert(views(tags@).subrange(0, 0) =~= Seq::<Seq<char>>::empty());
    while i < tags.len()
        invariant
            i <= tags@.len(),
            r@ == caption_text(views(tags@).subrange(0, i as int)),
        decreases tags@.len() - i,
    {
        let ghost prev = views(tags@).subrange(0, i as int);
        let ghost next = views(tags@).subrange(0, i + 1);
        assert(next.drop_last() =~= prev);
        if i > 0 {
            append_str(&mut r, ", ");
        }
        append_str(&mut r, tags[i].as_str());
        proof {
            if i == 0 {
                assert(r@ =~= next[0]);
            } else {
                assert(r@ =~= joined(prev, ", "@) + ", "@ + next.last());
            }
        }
        i += 1;
    }
    assert(views(tags@).subrange(0, i as int) =~= views(tags@));
    r
}

/// What a caption file holds (`None` where there is none): whether it
/// exists, its text trimmed, and its tags.
pub fn read_caption(content: Option<&str>) -> (r: CaptionData)
    ensures
        content is None ==> !r.exists && r.raw@.len() == 0 && r.tags@.len() == 0,
        content matches Some(t) ==> (r.exists && r.raw@ == trim(t@) && views(r.tags@) == tags_of(t@)),
{
    match content {
        Some(t) => CaptionData { exists: true, raw: trim_str(t), tags: parse_tags(t) },
        None => CaptionData { exists: false, raw: String::new(), tags: Vec::new() },
    }
}

/// The caption text to write for `tags`.
pub fn write_caption(tags: &Vec<String>) -> (r: String)
    ensures
        r@ == caption_text(views(tags@)),
{
    join_tags(tags)
}

/// The caption text to write for `tags` in their new order.
pub fn reorder_tags(tags: &Vec<String>) -> (r: String)
    ensures
        r@ == caption_text(views(tags@)),
{
    join_tags(tags)
}

fn clone_strings(v: &Vec<String>) -> (r: Vec<String>)
    ensures
        views(r@) == views(v@),
{
    let mut r: Vec<String> = Vec::new();
    let mut i: usize = 0;
    while i < v.len()
        invariant
            i <= v@.len(),
            views(r@) == views(v@).subrange(0, i as int),
        decreases v@.len() - i,
    {
        let c = v[i].clone();
        assert(c@ == v@[i as int]@);
        r.push(c);
        assert(views(r@) =~= views(v@).subrange(0, i as int).push(c@));
        i += 1;
        assert(views(r@) =~= views(v@).subrange(0, i as int));
    }
    assert(views(v@).subrange(0, i as int) =~= views(v@));
    r
}

/// Whether some tag equals `t` up to ASCII case.
pub open spec fn has_tag(tags: Seq<Seq<char>>, t: Seq<char>) -> bool {
    exists|i: int| 0 <= i < tags.len() && eq_ignore_ascii_case(#[trigger] tags[i], t)
}

/// The tags after adding `tag`: it is trimmed, and added at the end unless it
/// is empty or already there up to ASCII case. The flag says whether it was added.
pub fn add_tag(tags: &Vec<String>, tag: &str) -> (r: (Vec<String>, bool))
    ensures
        r.1 == (trim(tag@).len() > 0 && !has_tag(views(tags@), trim(tag@))),
        r.1 ==> views(r.0@) == views(tags@).push(trim(tag@)),
        !r.1 ==> views(r.0@) == views(tags@),
{
    let mut out = clone_strings(tags);
    let t = trim_str(tag);
    let tc = chars_of(t.as_str());
    if tc.len() == 0 {
        return (out, false);
    }
    let mut i: usize = 0;
    while i < tags.len()
        invariant
            i <= tags@.len(),
            tc@ == trim(tag@),
            views(out@) == views(tags@),
            forall|j: int| 0 <= j < i ==> !eq_ignore_ascii_case(#[trigger] views(tags@)[j], tc@),
        decreases tags@.len() - i,
    {
        let x = chars_of(tags[i].as_str());
        if same_ignoring_ascii_case(x.as_slice(), tc.as_slice()) {
            assert(eq_ignore_ascii_case(views(tags@)[i as int], trim(tag@)));
            return (out, false);
        }
        i += 1;
    }
    out.push(t);
    assert(views(out@) =~= views(tags@).push(trim(tag@)));
    (out, true)
}

/// Unicode lower case of a string, as `str::to_lowercase` gives it.
pub uninterp spec fn lowercase(s: Seq<char>) -> Seq<char>;

/// Relies on `str::to_lowercase`: the result depends on the characters alone.
#[verifier::external_body]
fn to_lower(s: &str) -> (r: String)
    ensures
        r@ == lowercase(s@),
{
    s.to_lowercase()
}

/// The tags whose folded form differs from `target`, in order.
pub open spec fn unmatched(tags: Seq<Seq<char>>, folded: Seq<Seq<char>>, target: Seq<char>) -> Seq<Seq<char>>
    decreases tags.len(),
{
    if tags.len() == 0 {
        Seq::empty()
    } else {
        let prev = unmatched(tags.drop_last(), folded.drop_last(), target);
        if folded[tags.len() - 1] != target {
            prev.push(tags.last())
        } else {
            prev
        }
    }
}

/// Keeps the tags whose folded form (`folded[i]` for `tags[i]`) differs from
/// `target`.
pub fn remove_folded(tags: &Vec<String>, folded: &Vec<String>, target: &str) -> (r: Vec<String>)
    requires
        folded@.len() == tags@.len(),
    ensures
        views(r@) == unmatched(views(tags@), views(folded@), target@),
{
    let mut out: Vec<String> = Vec::new();
    let mut i: usize = 0;
    let tc = chars_of(target);
    assert(views(tags@).subrange(0, 0) =~= Seq::<Seq<char>>::empty());
    while i < tags.len()
        invariant
            i <= tags@.len() == folded@.len(),
            tc@ == target@,
            views(out@) == unmatched(views(tags@).subrange(0, i as int), views(folded@).subrange(0, i as int), target@),
        decreases tags@.len() - i,
    {
        let ghost t = views(tags@).subrange(0, i + 1);
        let ghost f = views(folded@).subrange(0, i + 1);
        assert(t.drop_last() =~= views(tags@).subrange(0, i as int));
        assert(f.drop_last() =~= views(folded@).subrange(0, i as int));
        let fc = chars_of(folded[i].as_str());
        if !same_chars(fc.as_slice(), tc.as_slice()) {
            out.push(tags[i].clone());
            assert(views(out@) =~= unmatched(t, f, target@));
        }
        i += 1;
    }
    assert(views(tags@).subrange(0, i as int) =~= views(tags@));
    assert(views(folded@).subrange(0, i as int) =~= views(folded@));
    out
}

/// The tags after removing every tag equal to `tag` (trimmed) up to Unicode case.
pub fn remove_tag(tags: &Vec<String>, tag: &str) -> (r: Vec<String>)
    ensures
        views(r@) == unmatched(
            views(tags@),
            views(tags@).map_values(|t: Seq<char>| lowercase(t)),
            lowercase(trim(tag@)),
        ),
{
    let mut folded: Vec<String> = Vec::new();
    let mut i: usize = 0;
    while i < tags.len()
        invariant
            i <= tags@.len(),
            views(folded@) == views(tags@).subrange(0, i as int).map_values(|t: Seq<char>| lowercase(t)),
        decreases tags@.len() - i,
    {
        let f = to_lower(tags[i].as_str());
        assert(f@ == lowercase(views(tags@)[i as int]));
        folded.push(f);
        assert(views(folded@) =~= views(tags@).subrange(0, i as int).map_values(|t: Seq<char>| lowercase(t)).push(f@));
        i += 1;
        assert(views(folded@) =~= views(tags@).subrange(0, i as int).map_values(|t: Seq<char>| lowercase(t)));
    }
    assert(views(tags@).subrange(0, i as int) =~= views(tags@));
    let target = to_lower(trim_str(tag).as_str());
    remove_folded(tags, &folded, target.as_str())
}

/// A tag that a caption file holds unchanged: not empty, no white space at
/// either end, no comma.
pub open spec fn plain_tag(t: Seq<char>) -> bool {
    t.len() > 0 && trim(t) == t && !t.contains(',')
}

proof fn lemma_split_without_sep(s: Seq<char>, sep: char)
    requires
        !s.contains(sep),
    ensures
        split_on(s, sep) == seq![s],
    decreases s.len(),
{
    if s.len() > 0 {
        let p = s.drop_last();
        assert(!p.contains(sep)) by {
            if p.contains(sep) {
                let i = choose|i: int| 0 <= i < p.len() && p[i] == sep;
                assert(s[i] == sep);
            }
        }
        lemma_split_without_sep(p, sep);
        assert(s.last() != sep) by {
            assert(s[s.len() - 1] == s.last());
        }
        assert(p.push(s.last()) =~= s);
        assert(split_on(s, sep) =~= seq![s]);
    } else {
        assert(s =~= Seq::<char>::empty());
    }
}

proof fn lemma_split_concat(x: Seq<char>, y: Seq<char>, sep: char)
    ensures
        split_on(x + seq![sep] + y, sep) == split_on(x, sep) + split_on(y, sep),
    decreases y.len(),
{
    let xs = x + seq![sep];
    assert((xs).drop_last() =~= x);
    if y.len() == 0 {
        assert(xs + y =~= xs);
        assert(split_on(x, sep).push(Seq::empty()) =~= split_on(x, sep) + split_on(y, sep));
    } else {
        let yp = y.drop_last();
        lemma_split_concat(x, yp, sep);
        lemma_split_nonempty(yp, sep);
        assert((xs + y).drop_last() =~= xs + yp);
        assert((xs + y).last() == y.last());
        let a = split_on(x, sep);
        let b = split_on(yp, sep);
        if y.last() == sep {
            assert((a + b).push(Seq::empty()) =~= a + b.push(Seq::empty()));
        } else {
            assert((a + b).update((a + b).len() - 1, (a + b).last().push(y.last())) =~= a + b.update(
                b.len() - 1,
                b.last().push(y.last()),
            ));
        }
    }
}

proof fn lemma_kept_concat(a: Seq<Seq<char>>, b: Seq<Seq<char>>)
    ensures
        kept_tags(a + b) == kept_tags(a) + kept_tags(b),
    decreases b.len(),
{
    if b.len() == 0 {
        assert(a + b =~= a);
        assert(kept_tags(a) + kept_tags(b) =~= kept_tags(a));
    } else {
        lemma_kept_concat(a, b.drop_last());
        assert((a + b).drop_last() =~= a + b.drop_last());
        assert((a + b).last() == b.last());
        let t = trim(b.last());
        if t.len() > 0 {
            assert((kept_tags(a) + kept_tags(b.drop_last())).push(t) =~= kept_tags(a) + kept_tags(b.drop_last()).push(t));
        }
    }
}

/// Writing plain tags to a caption file and reading them back gives the same
/// tags.
pub proof fn lemma_caption_round_trip(tags: Seq<Seq<char>>)
    requires
        forall|i: int| 0 <= i < tags.len() ==> plain_tag(#[trigger] tags[i]),
    ensures
        tags_of(caption_text(tags)) == tags,
    decreases tags.len(),
{
    reveal_strlit(", ");
    let sep = ", "@;
    assert(sep == seq![',', ' ']);
    if tags.len() == 0 {
        assert(caption_text(tags) =~= Seq::<char>::empty());
        assert(split_on(Seq::<char>::empty(), ',') == seq![Seq::<char>::empty()]);
        assert(seq![Seq::<char>::empty()].drop_last() =~= Seq::<Seq<char>>::empty());
        assert(trim_start(Seq::<char>::empty()) == Seq::<char>::empty());
        assert(trim(Seq::<char>::empty()) == Seq::<char>::empty());
        assert(seq![Seq::<char>::empty()].last() == Seq::<char>::empty());
        assert(kept_tags(Seq::<Seq<char>>::empty()) == Seq::<Seq<char>>::empty());
        assert(kept_tags(seq![Seq::<char>::empty()]) == Seq::<Seq<char>>::empty());
        assert(tags_of(caption_text(tags)) =~= tags);
    } else if tags.len() == 1 {
        let t = tags[0];
        assert(plain_tag(t));
        lemma_split_without_sep(t, ',');
        assert(seq![t].drop_last() =~= Seq::<Seq<char>>::empty());
        assert(seq![t].last() == t);
        assert(kept_tags(Seq::<Seq<char>>::empty()) == Seq::<Seq<char>>::empty());
        assert(caption_text(tags) == t);
        assert(kept_tags(seq![t]) =~= seq![t]);
        assert(tags =~= seq![t]);
    } else {
        let prev = tags.drop_last();
        let last = tags.last();
        assert(plain_tag(tags[tags.len() - 1]));
        assert forall|i: int| 0 <= i < prev.len() implies plain_tag(#[trigger] prev[i]) by {
            assert(prev[i] == tags[i]);
        }
        lemma_caption_round_trip(prev);
        let j = joined(prev, sep);
        let tail = seq![' '] + last;
        assert(caption_text(tags) =~= j + seq![','] + tail);
        assert(!tail.contains(',')) by {
            if tail.contains(',') {
                let i = choose|i: int| 0 <= i < tail.len() && tail[i] == ',';
                assert(last[i - 1] == ',');
            }
        }
        lemma_split_concat(j, tail, ',');
        lemma_split_without_sep(tail, ',');
        lemma_kept_concat(split_on(j, ','), seq![tail]);
        assert(tail.drop_first() =~= last);
        assert(trim_start(tail) == trim_start(last));
        assert(trim(tail) == last);
        assert(seq![tail].drop_last() =~= Seq::<Seq<char>>::empty());
        assert(seq![tail].last() == tail);
        assert(kept_tags(Seq::<Seq<char>>::empty()) == Seq::<Seq<char>>::empty());
        assert(kept_tags(seq![tail]) =~= seq![last]);
        assert(prev.push(last) =~= tags);
    }
}

} // verus!
