//! Sequence helpers shared by the parsers: first occurrences, quote
//! stripping, and exact copies of byte and character ranges.
use vstd::prelude::*;
use vstd::slice::*;
use vstd::string::*;

verus! {

/// Index of the first `x` in `t` at or after `i`, or -1 when there is none.
pub open spec fn index_from<A>(t: Seq<A>, x: A, i: int) -> int
    decreases t.len() - i,
{
    if i < 0 || i >= t.len() {
        -1
    } else if t[i] == x {
        i
    } else {
        index_from(t, x, i + 1)
    }
}

/// Removes an enclosing pair of `q`: only when `v` has at least two
/// elements and both starts and ends with `q`; otherwise `v` is kept.
pub open spec fn strip_outer<A>(v: Seq<A>, q: A) -> Seq<A> {
    if v.len() >= 2 && v[0] == q && v.last() == q {
        v.subrange(1, v.len() - 1)
    } else {
        v
    }
}

/// The contents of an optional byte vector.
pub open spec fn opt_bytes(o: Option<Vec<u8>>) -> Option<Seq<u8>> {
    match o {
        Some(v) => Some(v@),
        None => None,
    }
}

/// The contents of an optional string.
pub open spec fn opt_chars(o: Option<String>) -> Option<Seq<char>> {
    match o {
        Some(v) => Some(v@),
        None => None,
    }
}

/// Index of the first element of `s` at or after `i` that satisfies `p`, or -1.
pub open spec fn first_where<A>(s: Seq<A>, p: spec_fn(A) -> bool, i: int) -> int
    decreases s.len() - i,
{
    if i < 0 || i >= s.len() {
        -1
    } else if p(s[i]) {
        i
    } else {
        first_where(s, p, i + 1)
    }
}

pub proof fn lemma_first_where_bounds<A>(s: Seq<A>, p: spec_fn(A) -> bool, i: int)
    ensures
        first_where(s, p, i) == -1 || (i <= first_where(s, p, i) < s.len() && p(s[first_where(s, p, i)])),
    decreases s.len() - i,
{
    if i < 0 || i >= s.len() {
    } else if p(s[i]) {
    } else {
        lemma_first_where_bounds(s, p, i + 1);
    }
}

pub proof fn lemma_index_from_bounds<A>(t: Seq<A>, x: A, i: int)
    ensures
        index_from(t, x, i) == -1 || (i <= index_from(t, x, i) < t.len() && t[index_from(t, x, i)] == x),
        forall|j: int| 0 <= i <= j < index_from(t, x, i) ==> t[j] != x,
        index_from(t, x, i) == -1 ==> forall|j: int| 0 <= i <= j < t.len() ==> t[j] != x,
    decreases t.len() - i,
{
    if i < 0 || i >= t.len() {
    } else if t[i] == x {
    } else {
        lemma_index_from_bounds(t, x, i + 1);
    }
}

/// Position of the first `x` in `s`.
pub fn find_byte(s: &[u8], x: u8) -> (r: Option<usize>)
    ensures
        r matches Some(k) ==> index_from(s@, x, 0) == k,
        r is None ==> index_from(s@, x, 0) == -1,
{
    let mut i: usize = 0;
    while i < s.len()
        invariant
            i <= s@.len(),
            index_from(s@, x, 0) == index_from(s@, x, i as int),
        decreases s@.len() - i,
    {
        if s[i] == x {
            return Some(i);
        }
        i = i + 1;
    }
    None
}

/// Position of the first `x` in `s`.
pub fn find_char(s: &Vec<char>, x: char) -> (r: Option<usize>)
    ensures
        r matches Some(k) ==> index_from(s@, x, 0) == k,
        r is None ==> index_from(s@, x, 0) == -1,
{
    let mut i: usize = 0;
    while i < s.len()
        invariant
            i <= s@.len(),
            index_from(s@, x, 0) == index_from(s@, x, i as int),
        decreases s@.len() - i,
    {
        if s[i] == x {
            return Some(i);
        }
        i = i + 1;
    }
    None
}

/// Byte-for-byte equality.
pub fn bytes_equal(a: &[u8], b: &[u8]) -> (r: bool)
    ensures
        r == (a@ == b@),
{
    if a.len() != b.len() {
        return false;
    }
    let mut i: usize = 0;
    while i < a.len()
        invariant
            a@.len() == b@.len(),
            i <= a@.len(),
            forall|j: int| 0 <= j < i ==> a@[j] == b@[j],
        decreases a@.len() - i,
    {
        if a[i] != b[i] {
            return false;
        }
        i = i + 1;
    }
    assert(a@ =~= b@);
    true
}

/// Character-for-character equality.
pub fn chars_equal(a: &Vec<char>, b: &Vec<char>) -> (r: bool)
    ensures
        r == (a@ == b@),
{
    if a.len() != b.len() {
        return false;
    }
    let mut i: usize = 0;
    while i < a.len()
        invariant
            a@.len() == b@.len(),
            i <= a@.len(),
            forall|j: int| 0 <= j < i ==> a@[j] == b@[j],
        decreases a@.len() - i,
    {
        if a[i] != b[i] {
            return false;
        }
        i = i + 1;
    }
    assert(a@ =~= b@);
    true
}

/// Same as [`bytes_equal`], on optional sequences.
pub fn opt_bytes_equal(a: &Option<Vec<u8>>, b: &Option<Vec<u8>>) -> (r: bool)
    ensures
        r == (opt_bytes(*a) == opt_bytes(*b)),
{
    match (a, b) {
        (None, None) => true,
        (Some(x), Some(y)) => bytes_equal(x.as_slice(), y.as_slice()),
        _ => false,
    }
}

/// A copy of `s[from..to]`.
pub fn copy_bytes(s: &[u8], from: usize, to: usize) -> (r: Vec<u8>)
    requires
        from <= to <= s@.len(),
    ensures
        r@ == s@.subrange(from as int, to as int),
{
    slice_to_vec(slice_subrange(s, from, to))
}

/// The characters of `s`, one by one.
pub fn chars_of(s: &str) -> (r: Vec<char>)
    ensures
        r@ == s@,
{
    let n = s.unicode_len();
    let mut r: Vec<char> = Vec::new();
    let mut i: usize = 0;
    while i < n
        invariant
            n == s@.len(),
            i <= n,
            r@ == s@.subrange(0, i as int),
        decreases n - i,
    {
        r.push(s.get_char(i));
        i = i + 1;
        assert(r@ =~= s@.subrange(0, i as int));
    }
    assert(r@ =~= s@);
    r
}

/// A copy of the characters `from..to` of `s`.
pub fn copy_chars(s: &str, from: usize, to: usize) -> (r: String)
    requires
        from <= to <= s@.len(),
    ensures
        r@ == s@.subrange(from as int, to as int),
{
    s.substring_char(from, to).to_owned()
}

} // verus!
