//! Paths as `/`-separated strings: file names, extensions, the caption
//! sidecar of an image, and paths relative to a project root.
use vstd::prelude::*;
use crate::text::{chars_of, string_of, same_chars, lower_ascii_char, ascii_lower};

verus! {

/// Where the last component of `s` starts: just after its last `/`.
pub open spec fn name_start(s: Seq<char>) -> nat
    decreases s.len(),
{
    if s.len() == 0 {
        0
    } else if s.last() == '/' {
        s.len()
    } else {
        name_start(s.drop_last())
    }
}

/// The last component of `s`.
pub open spec fn file_name(s: Seq<char>) -> Seq<char> {
    s.subrange(name_start(s) as int, s.len() as int)
}

/// The index of the last `.` in `s`, or -1.
pub open spec fn last_dot(s: Seq<char>) -> int
    decreases s.len(),
{
    if s.len() == 0 {
        -1
    } else if s.last() == '.' {
        s.len() - 1
    } else {
        last_dot(s.drop_last())
    }
}

/// The extension of `s`: what follows the last `.` of its file name, where
/// that dot is not the name's first character.
pub open spec fn extension(s: Seq<char>) -> Option<Seq<char>> {
    let name = file_name(s);
    let d = last_dot(name);
    if d > 0 {
        Some(name.subrange(d + 1, name.len() as int))
    } else {
        None
    }
}

/// `s` with its extension replaced by `ext`, or `.ext` appended where it has none.
pub open spec fn with_extension(s: Seq<char>, ext: Seq<char>) -> Seq<char> {
    let d = last_dot(file_name(s));
    if d > 0 {
        s.subrange(0, name_start(s) as int + d + 1) + ext
    } else {
        s.push('.') + ext
    }
}

/// The caption sidecar of an image: the same path with extension `txt`.
pub open spec fn caption_path(s: Seq<char>) -> Seq<char> {
    with_extension(s, seq!['t', 'x', 't'])
}

/// The extensions, in lower case, of the files taken for images.
pub open spec fn image_extension(e: Seq<char>) -> bool {
    e == "png"@ || e == "jpg"@ || e == "jpeg"@ || e == "webp"@ || e == "gif"@ || e == "bmp"@
}

/// Whether `s` names an image file: its extension, ASCII case ignored, is an image extension.
pub open spec fn is_image(s: Seq<char>) -> bool {
    match extension(s) {
        Some(e) => image_extension(e.map_values(|c: char| ascii_lower(c))),
        None => false,
    }
}

/// Every `from` in `s` replaced by `to`.
pub open spec fn replace_char(s: Seq<char>, from: char, to: char) -> Seq<char> {
    s.map_values(|c: char| if c == from { to } else { c })
}

/// `path` relative to `root`, component-wise: `None` where `root` is no leading part of it.
pub open spec fn strip_root(path: Seq<char>, root: Seq<char>) -> Option<Seq<char>> {
    if root.len() <= path.len() && path.subrange(0, root.len() as int) == root {
        if path.len() == root.len() {
            Some(Seq::empty())
        } else if root.len() > 0 && root.last() == '/' {
            Some(path.subrange(root.len() as int, path.len() as int))
        } else if path[root.len() as int] == '/' {
            Some(path.subrange(root.len() as int + 1, path.len() as int))
        } else {
            None
        }
    } else {
        None
    }
}

pub(crate) fn name_start_of(s: &Vec<char>) -> (r: usize)
    ensures
        r == name_start(s@),
        r <= s@.len(),
{
    let mut i: usize = s.len();
    assert(s@.subrange(0, i as int) =~= s@);
    while i > 0 && s[i - 1] != '/'
        invariant
            i <= s@.len(),
            name_start(s@.subrange(0, i as int)) == name_start(s@),
        decreases i,
    {
        assert(s@.subrange(0, i as int).drop_last() =~= s@.subrange(0, i - 1));
        i -= 1;
    }
    proof {
        if i == 0 {
            assert(s@.subrange(0, 0) =~= Seq::<char>::empty());
        }
    }
    i
}

pub(crate) fn last_dot_of(s: &Vec<char>, from: usize) -> (r: Option<usize>)
    requires
        from <= s@.len(),
    ensures
        r matches Some(k) ==> from <= k < s@.len(),
        r matches Some(k) ==> last_dot(s@.subrange(from as int, s@.len() as int)) == k - from,
        r is None ==> last_dot(s@.subrange(from as int, s@.len() as int)) == -1,
{
    let ghost t = s@.subrange(from as int, s@.len() as int);
    let mut i: usize = s.len();
    while i > from && s[i - 1] != '.'
        invariant
            from <= i <= s@.len(),
            t == s@.subrange(from as int, s@.len() as int),
            last_dot(s@.subrange(from as int, i as int)) == last_dot(t),
        decreases i,
    {
        assert(s@.subrange(from as int, i as int).drop_last() =~= s@.subrange(from as int, i - 1));
        i -= 1;
    }
    if i == from {
        assert(s@.subrange(from as int, i as int) =~= Seq::<char>::empty());
        None
    } else {
        Some(i - 1)
    }
}

pub(crate) fn copy_range(s: &Vec<char>, lo: usize, hi: usize) -> (r: Vec<char>)
    requires
        lo <= hi <= s@.len(),
    ensures
        r@ == s@.subrange(lo as int, hi as int),
{
    let mut r: Vec<char> = Vec::new();
    let mut i = lo;
    while i < hi
        invariant
            lo <= i <= hi <= s@.len(),
            r@ == s@.subrange(lo as int, i as int),
        decreases hi - i,
    {
        r.push(s[i]);
        i += 1;
        assert(r@ =~= s@.subrange(lo as int, i as int));
    }
    r
}

pub(crate) fn copy_range_u8(s: &Vec<u8>, lo: usize, hi: usize) -> (r: Vec<u8>)
    requires
        lo <= hi <= s@.len(),
    ensures
        r@ == s@.subrange(lo as int, hi as int),
{
    let mut r: Vec<u8> = Vec::new();
    let mut i = lo;
    while i < hi
        invariant
            lo <= i <= hi <= s@.len(),
            r@ == s@.subrange(lo as int, i as int),
        decreases hi - i,
    {
        r.push(s[i]);
        i += 1;
        assert(r@ =~= s@.subrange(lo as int, i as int));
    }
    r
}

pub(crate) fn append_chars(out: &mut Vec<char>, s: &Vec<char>)
    ensures
        final(out)@ == old(out)@ + s@,
{
    let ghost start = out@;
    let mut i: usize = 0;
    while i < s.len()
        invariant
            i <= s@.len(),
            out@ == start + s@.subrange(0, i as int),
        decreases s@.len() - i,
    {
        out.push(s[i]);
        i += 1;
        assert(out@ =~= start + s@.subrange(0, i as int));
    }
    assert(s@.subrange(0, s@.len() as int) =~= s@);
}

/// The extension of `path`, if it has one.
pub fn extension_of(path: &str) -> (r: Option<String>)
    ensures
        match r {
            Some(e) => extension(path@) == Some(e@),
            None => extension(path@) is None,
        },
{
    let s = chars_of(path);
    let ns = name_start_of(&s);
    let ghost name = file_name(s@);
    match last_dot_of(&s, ns) {
        Some(k) => {
            if k > ns && k < s.len() {
                let e = copy_range(&s, k + 1, s.len());
                assert(e@ =~= name.subrange(k - ns + 1, name.len() as int));
                Some(string_of(e.as_slice()))
            } else {
                None
            }
        },
        None => None,
    }
}

/// The path of `path` with its extension replaced by `ext` (added where it has none).
pub fn with_extension_of(path: &str, ext: &str) -> (r: String)
    ensures
        r@ == with_extension(path@, ext@),
{
    let s = chars_of(path);
    let e = chars_of(ext);
    let ns = name_start_of(&s);
    let d = last_dot_of(&s, ns);
    let mut out: Vec<char> = match d {
        Some(k) => {
            if k > ns && k < s.len() {
                copy_range(&s, 0, k + 1)
            } else {
                let mut o = copy_range(&s, 0, s.len());
                o.push('.');
                o
            }
        },
        None => {
            let mut o = copy_range(&s, 0, s.len());
            o.push('.');
            o
        },
    };
    assert(s@.subrange(0, s@.len() as int) =~= s@);
    append_chars(&mut out, &e);
    string_of(out.as_slice())
}

/// The caption sidecar path for an image path.
pub fn caption_path_for(image_path: &str) -> (r: String)
    ensures
        r@ == caption_path(image_path@),
{
    proof {
        reveal_strlit("txt");
    }
    with_extension_of(image_path, "txt")
}

/// Whether `path` has one of the image extensions, ASCII case ignored.
pub fn is_image_path(path: &str) -> (r: bool)
    ensures
        r == is_image(path@),
{
    match extension_of(path) {
        Some(e) => {
            let c = chars_of(e.as_str());
            let mut lower: Vec<char> = Vec::new();
            let mut i: usize = 0;
            while i < c.len()
                invariant
                    i <= c@.len(),
                    lower@ == c@.subrange(0, i as int).map_values(|x: char| ascii_lower(x)),
                decreases c@.len() - i,
            {
                lower.push(lower_ascii_char(c[i]));
                i += 1;
                assert(lower@ =~= c@.subrange(0, i as int).map_values(|x: char| ascii_lower(x)));
            }
            assert(c@.subrange(0, c@.len() as int) =~= c@);
            let l = lower.as_slice();
            same_chars(l, chars_of("png").as_slice()) || same_chars(l, chars_of("jpg").as_slice())
                || same_chars(l, chars_of("jpeg").as_slice()) || same_chars(
                l,
                chars_of("webp").as_slice(),
            ) || same_chars(l, chars_of("gif").as_slice()) || same_chars(
                l,
                chars_of("bmp").as_slice(),
            )
        },
        None => false,
    }
}

/// `path` relative to `root` with back slashes turned into forward slashes,
/// or `None` where `root` is no leading part of `path`.
pub fn relative_path_str(path: &str, root: &str) -> (r: Option<String>)
    ensures
        match r {
            Some(rel) => strip_root(path@, root@) matches Some(x) && rel@ == replace_char(x, '\\', '/'),
            None => strip_root(path@, root@) is None,
        },
{
    let p = chars_of(path);
    let q = chars_of(root);
    if q.len() > p.len() {
        return None;
    }
    let head = copy_range(&p, 0, q.len());
    if !same_chars(head.as_slice(), q.as_slice()) {
        return None;
    }
    if p.len() > q.len() && !(q.len() > 0 && q[q.len() - 1] == '/') && p[q.len()] != '/' {
        return None;
    }
    let start: usize = if p.len() == q.len() {
        p.len()
    } else if q.len() > 0 && q[q.len() - 1] == '/' {
        q.len()
    } else {
        q.len() + 1
    };
    let mut out: Vec<char> = Vec::new();
    let mut i = start;
    while i < p.len()
        invariant
            start <= i <= p@.len(),
            out@ == replace_char(p@.subrange(start as int, i as int), '\\', '/'),
        decreases p@.len() - i,
    {
        let c = p[i];
        out.push(if c == '\\' { '/' } else { c });
        assert(p@.subrange(start as int, i + 1) =~= p@.subrange(start as int, i as int).push(c));
        i += 1;
        assert(out@ =~= replace_char(p@.subrange(start as int, i as int), '\\', '/'));
    }
    proof {
        if p.len() == q.len() {
            assert(p@.subrange(start as int, p@.len() as int) =~= Seq::<char>::empty());
        }
    }
    Some(string_of(out.as_slice()))
}

/// `s` without leading `/`.
pub open spec fn trim_leading_slashes(s: Seq<char>) -> Seq<char>
    decreases s.len(),
{
    if s.len() > 0 && s[0] == '/' {
        trim_leading_slashes(s.drop_first())
    } else {
        s
    }
}

/// The one form in which a relative path keys a store: forward slashes, no
/// leading separator, case kept.
pub open spec fn store_key(s: Seq<char>) -> Seq<char> {
    trim_leading_slashes(replace_char(s, '\\', '/'))
}

/// The store key of a relative path.
pub fn normalize_key(relative_path: &str) -> (r: String)
    ensures
        r@ == store_key(relative_path@),
{
    let p = chars_of(relative_path);
    let mut v: Vec<char> = Vec::new();
    let mut i: usize = 0;
    while i < p.len()
        invariant
            i <= p@.len(),
            p@ == relative_path@,
            v@ == replace_char(p@.subrange(0, i as int), '\\', '/'),
        decreases p@.len() - i,
    {
        let c = p[i];
        v.push(if c == '\\' { '/' } else { c });
        assert(p@.subrange(0, i + 1) =~= p@.subrange(0, i as int).push(c));
        i += 1;
        assert(v@ =~= replace_char(p@.subrange(0, i as int), '\\', '/'));
    }
    assert(p@.subrange(0, i as int) =~= p@);
    let mut lo: usize = 0;
    assert(v@.subrange(0, v@.len() as int) =~= v@);
    while lo < v.len() && v[lo] == '/'
        invariant
            lo <= v@.len(),
            trim_leading_slashes(v@.subrange(lo as int, v@.len() as int)) == trim_leading_slashes(v@),
        decreases v@.len() - lo,
    {
        assert(v@.subrange(lo as int, v@.len() as int).drop_first() =~= v@.subrange(lo + 1, v@.len() as int));
        lo += 1;
    }
    let r = copy_range(&v, lo, v.len());
    string_of(r.as_slice())
}

} // verus!
