//! Reading numbers out of the text of system monitoring tools.
use vstd::prelude::*;
use crate::text::{chars_of, trim, trim_chars};

verus! {

/// The value of a string of decimal digits.
pub open spec fn digits_value(s: Seq<char>) -> nat
    decreases s.len(),
{
    if s.len() == 0 {
        0
    } else {
        (digits_value(s.drop_last()) * 10 + ((s.last() as u32) as int - 48)) as nat
    }
}

pub open spec fn all_digits(s: Seq<char>) -> bool {
    forall|i: int| 0 <= i < s.len() ==> '0' <= #[trigger] s[i] <= '9'
}

/// What `u32::from_str` accepts: an optional `+`, then one or more digits
/// whose value fits.
pub open spec fn parsed_u32(s: Seq<char>) -> Option<u32> {
    let d = if s.len() > 0 && s[0] == '+' { s.drop_first() } else { s };
    if d.len() > 0 && all_digits(d) && digits_value(d) <= u32::MAX {
        Some(digits_value(d) as u32)
    } else {
        None
    }
}

/// The leading part of `s` before its first `.` or `,`.
pub open spec fn integer_part(s: Seq<char>) -> Seq<char>
    decreases s.len(),
{
    if s.len() == 0 {
        s
    } else if s.last() == '.' || s.last() == ',' {
        integer_part(s.drop_last())
    } else if integer_part(s.drop_last()).len() == s.len() - 1 {
        s
    } else {
        integer_part(s.drop_last())
    }
}

proof fn lemma_integer_part_prefix(s: Seq<char>)
    ensures
        integer_part(s).len() <= s.len(),
        integer_part(s) == s.subrange(0, integer_part(s).len() as int),
        forall|i: int| 0 <= i < integer_part(s).len() ==> #[trigger] s[i] != '.' && s[i] != ',',
        integer_part(s).len() < s.len() ==> (s[integer_part(s).len() as int] == '.' || s[integer_part(s).len() as int] == ','),
    decreases s.len(),
{
    if s.len() > 0 {
        lemma_integer_part_prefix(s.drop_last());
        let p = s.drop_last();
        if !(s.last() == '.' || s.last() == ',') && integer_part(p).len() == s.len() - 1 {
            assert(integer_part(p) =~= p);
            assert(s.subrange(0, s.len() as int) =~= s);
            assert forall|i: int| 0 <= i < integer_part(s).len() implies #[trigger] s[i] != '.' && s[i] != ',' by {
                if i < p.len() {
                    assert(s[i] == p[i]);
                }
            }
        } else {
            assert(integer_part(p) =~= s.subrange(0, integer_part(p).len() as int));
            assert forall|i: int| 0 <= i < integer_part(s).len() implies #[trigger] s[i] != '.' && s[i] != ',' by {
                assert(s[i] == p[i]);
            }
            if integer_part(s).len() < s.len() && integer_part(p).len() < p.len() {
                assert(s[integer_part(s).len() as int] == p[integer_part(p).len() as int]);
            }
        }
    }
}

/// A whole number read from monitoring output: trimmed, cut at the first
/// decimal separator, then read as `u32::from_str` reads it.
pub fn parse_u32(s: &str) -> (r: Option<u32>)
    ensures
        r == parsed_u32(integer_part(trim(s@))),
{
    let c = chars_of(s);
    let t = trim_chars(c.as_slice());
    let mut n: usize = 0;
    while n < t.len() && t[n] != '.' && t[n] != ','
        invariant
            n <= t@.len(),
            forall|i: int| 0 <= i < n ==> #[trigger] t@[i] != '.' && t@[i] != ',',
        decreases t@.len() - n,
    {
        n += 1;
    }
    proof {
        lemma_integer_part_prefix(t@);
        let k = integer_part(t@).len();
        if k < n {
            assert(t@[k as int] != '.' && t@[k as int] != ',');
        }
        if n < k {
            assert(t@[n as int] != '.' && t@[n as int] != ',');
        }
        assert(k == n);
    }
    let ghost part = t@.subrange(0, n as int);
    assert(part == integer_part(t@));
    assert(t@ == trim(s@));
    let mut start: usize = 0;
    if n > 0 && t[0] == '+' {
        start = 1;
    }
    let ghost d = t@.subrange(start as int, n as int);
    assert(d =~= if part.len() > 0 && part[0] == '+' { part.drop_first() } else { part });
    if start >= n {
        return None;
    }
    let mut value: u64 = 0;
    let mut i: usize = start;
    while i < n
        invariant
            start <= i <= n <= t@.len(),
            d == t@.subrange(start as int, n as int),
            part == integer_part(t@),
            t@ == trim(s@),
            d == (if part.len() > 0 && part[0] == '+' { part.drop_first() } else { part }),
            all_digits(t@.subrange(start as int, i as int)),
            value as nat == digits_value(t@.subrange(start as int, i as int)),
            value <= u32::MAX,
        decreases n - i,
    {
        let ch = t[i];
        assert(t@.subrange(start as int, i + 1).drop_last() =~= t@.subrange(start as int, i as int));
        if ch < '0' || ch > '9' {
            assert(!all_digits(d)) by {
                assert(d[i - start] == ch);
            }
            return None;
        }
        let digit: u64 = (ch as u32 - '0' as u32) as u64;
        let next: u64 = value * 10 + digit;
        if next > u32::MAX as u64 {
            proof {
                assert(t@.subrange(start as int, i + 1) =~= t@.subrange(start as int, i as int).push(ch));
                assert(all_digits(t@.subrange(start as int, i + 1)));
                assert(digits_value(t@.subrange(start as int, i + 1)) == next);
                if all_digits(d) {
                    lemma_digits_grow(d, (i + 1 - start) as int);
                    assert(d.subrange(0, (i + 1 - start) as int) =~= t@.subrange(start as int, i + 1));
                }
            }
            return None;
        }
        value = next;
        i += 1;
    }
    Some(value as u32)
}

proof fn lemma_digits_grow(s: Seq<char>, k: int)
    requires
        0 <= k <= s.len(),
        all_digits(s),
    ensures
        digits_value(s) >= digits_value(s.subrange(0, k)),
    decreases s.len() - k,
{
    if k < s.len() {
        lemma_digits_grow(s, k + 1);
        let a = s.subrange(0, k + 1);
        assert(a.drop_last() =~= s.subrange(0, k));
        assert(a.last() == s[k]);
        assert('0' <= s[k] <= '9');
        assert((s[k] as u32) as int >= 48);
    } else {
        assert(s.subrange(0, k) =~= s);
    }
}

} // verus!
