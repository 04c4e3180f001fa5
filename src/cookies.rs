//! Reading one cookie out of a `Cookie` request header. The header is a list
//! of `name=value` pairs separated by `"; "`; the first pair with the wanted
//! name wins, and its value is everything after the pair's first `=`.
use vstd::prelude::*;
use vstd::string::*;

verus! {

/// A `"; "` separator starts at `i`.
pub open spec fn separator_at(h: Seq<char>, i: int) -> bool {
    0 <= i && i + 1 < h.len() && h[i] == ';' && h[i + 1] == ' '
}

/// The position of the first `=` in `seg` at or after `i`, or `seg.len()`.
pub open spec fn first_equals(seg: Seq<char>, i: int) -> int
    decreases seg.len() - i,
{
    if i >= seg.len() {
        seg.len() as int
    } else if seg[i] == '=' {
        i
    } else {
        first_equals(seg, i + 1)
    }
}

/// The value of the pair `seg` when its name is `name`.
pub open spec fn pair_value(seg: Seq<char>, name: Seq<char>) -> Option<Seq<char>> {
    let e = first_equals(seg, 0);
    if e < seg.len() && seg.subrange(0, e) == name {
        Some(seg.subrange(e + 1, seg.len() as int))
    } else {
        None
    }
}

/// The value of `name` in `h`, scanning from position `i` inside the pair
/// that starts at `start`.
pub open spec fn scan_cookies(h: Seq<char>, name: Seq<char>, start: int, i: int) -> Option<Seq<char>>
    decreases h.len() - i,
{
    if i >= h.len() {
        pair_value(h.subrange(start, h.len() as int), name)
    } else if separator_at(h, i) {
        match pair_value(h.subrange(start, i), name) {
            Some(v) => Some(v),
            None => scan_cookies(h, name, i + 2, i + 2),
        }
    } else {
        scan_cookies(h, name, start, i + 1)
    }
}

/// The value of the first cookie named `name` in the header `h`.
pub open spec fn cookie_value(h: Seq<char>, name: Seq<char>) -> Option<Seq<char>> {
    scan_cookies(h, name, 0, 0)
}

/// The value of the pair `h[start..end]` when its name is `name`.
fn pair_value_in(h: &str, start: usize, end: usize, name: &str) -> (r: Option<String>)
    requires
        start <= end <= h@.len(),
    ensures
        r matches Some(v) ==> pair_value(h@.subrange(start as int, end as int), name@) == Some(v@),
        r is None ==> pair_value(h@.subrange(start as int, end as int), name@) is None,
{
    let ghost seg = h@.subrange(start as int, end as int);
    let mut e: usize = start;
    while e < end && h.get_char(e) != '='
        invariant
            start <= e <= end,
            end <= h@.len(),
            seg == h@.subrange(start as int, end as int),
            first_equals(seg, 0) == first_equals(seg, e - start),
        decreases end - e,
    {
        e = e + 1;
    }
    assert(first_equals(seg, 0) == e - start);
    if e == end {
        return None;
    }
    let n = name.unicode_len();
    if e - start != n {
        assert(seg.subrange(0, e - start).len() != name@.len());
        return None;
    }
    let mut k: usize = 0;
    while k < n
        invariant
            k <= n,
            n == name@.len(),
            start + n == e,
            e < end,
            end <= h@.len(),
            seg == h@.subrange(start as int, end as int),
            first_equals(seg, 0) == n,
            forall|t: int| 0 <= t < k ==> seg[t] == name@[t],
        decreases n - k,
    {
        if h.get_char(start + k) != name.get_char(k) {
            assert(seg.subrange(0, n as int)[k as int] != name@[k as int]);
            return None;
        }
        k = k + 1;
    }
    assert(seg.subrange(0, n as int) =~= name@);
    let v = h.substring_char(e + 1, end).to_owned();
    assert(v@ =~= seg.subrange(e - start + 1, seg.len() as int));
    Some(v)
}

/// The value of the first cookie named `name` in the header `header`.
pub fn find_cookie(header: &str, name: &str) -> (r: Option<String>)
    ensures
        r matches Some(v) ==> cookie_value(header@, name@) == Some(v@),
        r is None ==> cookie_value(header@, name@) is None,
{
    let len = header.unicode_len();
    let mut start: usize = 0;
    let mut i: usize = 0;
    while i < len
        invariant
            len == header@.len(),
            start <= i <= len,
            cookie_value(header@, name@) == scan_cookies(header@, name@, start as int, i as int),
        decreases len - i,
    {
        if i + 1 < len && header.get_char(i) == ';' && header.get_char(i + 1) == ' ' {
            match pair_value_in(header, start, i, name) {
                Some(v) => {
                    return Some(v);
                },
                None => {
                    start = i + 2;
                    i = i + 2;
                },
            }
        } else {
            i = i + 1;
        }
    }
    pair_value_in(header, start, len, name)
}

} // verus!
