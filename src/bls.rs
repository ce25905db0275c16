//! Boot Loader Specification entries: parsing, rendering and ordering.
//!
//! An entry is text with one `key value` pair per line. Blank lines and lines
//! starting with `#` are skipped, as are lines without a space. `initrd` may
//! repeat; for the other keys the last line wins. Keys that the specification
//! does not name are kept as extras.
use crate::text::{chars_equal, chars_of, copy_chars, index_from, lemma_index_from_bounds};
use core::cmp::Ordering;
use vstd::prelude::*;
use vstd::string::*;

verus! {

/// Unicode `White_Space`, which `str::trim` removes.
pub open spec fn is_space(c: char) -> bool {
    ('\u{9}' <= c && c <= '\u{d}') || c == ' ' || c == '\u{85}' || c == '\u{a0}' || c == '\u{1680}'
        || ('\u{2000}' <= c && c <= '\u{200a}') || c == '\u{2028}' || c == '\u{2029}' || c
        == '\u{202f}' || c == '\u{205f}' || c == '\u{3000}'
}

pub fn is_space_char(c: char) -> (r: bool)
    ensures
        r == is_space(c),
{
    ('\u{9}' <= c && c <= '\u{d}') || c == ' ' || c == '\u{85}' || c == '\u{a0}' || c == '\u{1680}'
        || ('\u{2000}' <= c && c <= '\u{200a}') || c == '\u{2028}' || c == '\u{2029}' || c
        == '\u{202f}' || c == '\u{205f}' || c == '\u{3000}'
}

/// Number of white space characters at the start of `t`.
pub open spec fn lead_space(t: Seq<char>) -> nat
    decreases t.len(),
{
    if t.len() > 0 && is_space(t[0]) {
        1 + lead_space(t.skip(1))
    } else {
        0
    }
}

/// Number of white space characters at the end of `t`.
pub open spec fn trail_space(t: Seq<char>) -> nat
    decreases t.len(),
{
    if t.len() > 0 && is_space(t.last()) {
        1 + trail_space(t.drop_last())
    } else {
        0
    }
}

/// `t` without white space at either end.
pub open spec fn trim(t: Seq<char>) -> Seq<char> {
    let u = t.skip(lead_space(t) as int);
    u.take(u.len() - trail_space(u))
}

/// The lines of `s`: the pieces between `\n`, the current one begun at `start`.
pub open spec fn lines_from(s: Seq<char>, start: int, i: int) -> Seq<Seq<char>>
    decreases s.len() - i,
{
    if i >= s.len() {
        seq![s.subrange(start, s.len() as int)]
    } else if s[i] == '\n' {
        seq![s.subrange(start, i)] + lines_from(s, i + 1, i + 1)
    } else {
        lines_from(s, start, i + 1)
    }
}

pub open spec fn lines(s: Seq<char>) -> Seq<Seq<char>> {
    lines_from(s, 0, 0)
}

/// The `key value` pair that a line holds, if it holds one.
pub open spec fn entry_of(line: Seq<char>) -> Option<(Seq<char>, Seq<char>)> {
    let t = trim(line);
    let k = index_from(t, ' ', 0);
    if t.len() == 0 || t[0] == '#' || k < 0 {
        None
    } else {
        Some((t.take(k), trim(t.skip(k + 1))))
    }
}

/// The pairs that the lines hold, in order.
pub open spec fn entries_of(ls: Seq<Seq<char>>) -> Seq<(Seq<char>, Seq<char>)>
    decreases ls.len(),
{
    if ls.len() == 0 {
        seq![]
    } else {
        match entry_of(ls.last()) {
            Some(e) => entries_of(ls.drop_last()).push(e),
            None => entries_of(ls.drop_last()),
        }
    }
}

pub open spec fn entries(s: Seq<char>) -> Seq<(Seq<char>, Seq<char>)> {
    entries_of(lines(s))
}

/// The value of the last pair with key `k`.
pub open spec fn last_value(es: Seq<(Seq<char>, Seq<char>)>, k: Seq<char>) -> Option<Seq<char>>
    decreases es.len(),
{
    if es.len() == 0 {
        None
    } else if es.last().0 == k {
        Some(es.last().1)
    } else {
        last_value(es.drop_last(), k)
    }
}

/// The values of all pairs with key `k`, in order.
pub open spec fn all_values(es: Seq<(Seq<char>, Seq<char>)>, k: Seq<char>) -> Seq<Seq<char>>
    decreases es.len(),
{
    if es.len() == 0 {
        seq![]
    } else if es.last().0 == k {
        all_values(es.drop_last(), k).push(es.last().1)
    } else {
        all_values(es.drop_last(), k)
    }
}

pub open spec fn key_title() -> Seq<char> {
    seq!['t', 'i', 't', 'l', 'e']
}

pub open spec fn key_version() -> Seq<char> {
    seq!['v', 'e', 'r', 's', 'i', 'o', 'n']
}

pub open spec fn key_linux() -> Seq<char> {
    seq!['l', 'i', 'n', 'u', 'x']
}

pub open spec fn key_initrd() -> Seq<char> {
    seq!['i', 'n', 'i', 't', 'r', 'd']
}

pub open spec fn key_options() -> Seq<char> {
    seq!['o', 'p', 't', 'i', 'o', 'n', 's']
}

pub open spec fn key_machine_id() -> Seq<char> {
    seq!['m', 'a', 'c', 'h', 'i', 'n', 'e', '-', 'i', 'd']
}

pub open spec fn key_sort_key() -> Seq<char> {
    seq!['s', 'o', 'r', 't', '-', 'k', 'e', 'y']
}

/// The keys with a field of their own.
pub open spec fn is_known_key(k: Seq<char>) -> bool {
    k == key_title() || k == key_version() || k == key_linux() || k == key_initrd() || k
        == key_options() || k == key_machine_id() || k == key_sort_key()
}

/// The extra pairs as character sequences.
pub open spec fn extra_view(v: Seq<(String, String)>) -> Seq<(Seq<char>, Seq<char>)> {
    v.map_values(|p: (String, String)| (p.0@, p.1@))
}

/// `ev` holds, once each, every unknown key of `es` with its last value.
pub open spec fn extras_match(ev: Seq<(Seq<char>, Seq<char>)>, es: Seq<(Seq<char>, Seq<char>)>) -> bool {
    &&& forall|i: int, j: int| 0 <= i < j < ev.len() ==> ev[i].0 != ev[j].0
    &&& forall|i: int|
        0 <= i < ev.len() ==> !is_known_key(#[trigger] ev[i].0) && last_value(es, ev[i].0) == Some(
            ev[i].1,
        )
    &&& forall|k: Seq<char>|
        !is_known_key(k) && #[trigger] last_value(es, k) is Some ==> exists|i: int|
            0 <= i < ev.len() && #[trigger] ev[i].0 == k
}

/// Why an entry could not be parsed.
#[derive(Debug, PartialEq, Eq)]
pub enum BlsError {
    MissingLinux,
    MissingVersion,
}

impl BlsError {
    /// A message for people.
    pub fn to_string(&self) -> (r: String)
        ensures
            *self == BlsError::MissingLinux ==> r@ == "Missing 'linux' value"@,
            *self == BlsError::MissingVersion ==> r@ == "Missing 'version' value"@,
    {
        match self {
            BlsError::MissingLinux => String::from_str("Missing 'linux' value"),
            BlsError::MissingVersion => String::from_str("Missing 'version' value"),
        }
    }
}

/// One Boot Loader Specification entry.
#[derive(Debug)]
pub struct BLSConfig {
    /// The title shown in the boot menu.
    pub title: Option<String>,
    /// The version, compared as the UAPI version format says.
    pub version: String,
    /// The kernel to boot.
    pub linux: String,
    /// The initrd images, in order.
    pub initrd: Vec<String>,
    /// The kernel command line.
    pub options: Option<String>,
    pub machine_id: Option<String>,
    pub sort_key: Option<String>,
    /// Other keys, each once, with their values.
    pub extra: Vec<(String, String)>,
}

pub open spec fn opt_view(o: Option<String>) -> Option<Seq<char>> {
    match o {
        Some(s) => Some(s@),
        None => None,
    }
}

pub open spec fn strings_view(v: Seq<String>) -> Seq<Seq<char>> {
    v.map_values(|s: String| s@)
}

impl BLSConfig {
    /// Well formed: no extra key is used twice, and none is a named field.
    pub open spec fn wf(&self) -> bool {
        let ev = extra_view(self.extra@);
        &&& forall|i: int, j: int| 0 <= i < j < ev.len() ==> ev[i].0 != ev[j].0
        &&& forall|i: int| 0 <= i < ev.len() ==> !is_known_key(#[trigger] ev[i].0)
    }

    /// `self` holds what the pairs `es` say.
    pub open spec fn holds(&self, es: Seq<(Seq<char>, Seq<char>)>) -> bool {
        &&& opt_view(self.title) == last_value(es, key_title())
        &&& Some(self.version@) == last_value(es, key_version())
        &&& Some(self.linux@) == last_value(es, key_linux())
        &&& strings_view(self.initrd@) == all_values(es, key_initrd())
        &&& opt_view(self.options) == last_value(es, key_options())
        &&& opt_view(self.machine_id) == last_value(es, key_machine_id())
        &&& opt_view(self.sort_key) == last_value(es, key_sort_key())
        &&& extras_match(extra_view(self.extra@), es)
    }

    /// The value of the extra key `key`.
    pub fn extra_value(&self, key: &str) -> (r: Option<&String>)
        ensures
            r is None ==> forall|i: int| 0 <= i < self.extra@.len() ==> (#[trigger] self.extra@[i]).0@ != key@,
            r matches Some(v) ==> exists|i: int|
                0 <= i < self.extra@.len() && (#[trigger] self.extra@[i]).0@ == key@ && self.extra@[i].1
                    == v,
    {
        let want = chars_of(key);
        let mut i: usize = 0;
        while i < self.extra.len()
            invariant
                i <= self.extra@.len(),
                want@ == key@,
                forall|j: int| 0 <= j < i ==> (#[trigger] self.extra@[j]).0@ != key@,
            decreases self.extra@.len() - i,
        {
            let k = chars_of(self.extra[i].0.as_str());
            if chars_equal(&k, &want) {
                return Some(&self.extra[i].1);
            }
            i = i + 1;
        }
        None
    }
}

/// The known keys differ from each other in length or first letter.
pub proof fn lemma_known_keys_distinct()
    ensures
        key_title() != key_version(),
        key_title() != key_linux(),
        key_title() != key_initrd(),
        key_title() != key_options(),
        key_title() != key_machine_id(),
        key_title() != key_sort_key(),
        key_version() != key_linux(),
        key_version() != key_initrd(),
        key_version() != key_options(),
        key_version() != key_machine_id(),
        key_version() != key_sort_key(),
        key_linux() != key_initrd(),
        key_linux() != key_options(),
        key_linux() != key_machine_id(),
        key_linux() != key_sort_key(),
        key_initrd() != key_options(),
        key_initrd() != key_machine_id(),
        key_initrd() != key_sort_key(),
        key_options() != key_machine_id(),
        key_options() != key_sort_key(),
        key_machine_id() != key_sort_key(),
{
    assert(key_title()[0] != key_version()[0]);
}

/// Whether `cs[from..to]` is `pat`.
fn range_is(cs: &Vec<char>, from: usize, to: usize, pat: &Vec<char>) -> (r: bool)
    requires
        from <= to <= cs@.len(),
    ensures
        r == (cs@.subrange(from as int, to as int) == pat@),
{
    if to - from != pat.len() {
        return false;
    }
    let mut i: usize = 0;
    while i < pat.len()
        invariant
            to - from == pat@.len(),
            from <= to <= cs@.len(),
            i <= pat@.len(),
            forall|j: int| 0 <= j < i ==> cs@[from + j] == pat@[j],
        decreases pat@.len() - i,
    {
        if cs[from + i] != pat[i] {
            assert(cs@.subrange(from as int, to as int)[i as int] != pat@[i as int]);
            return false;
        }
        i = i + 1;
    }
    assert(cs@.subrange(from as int, to as int) =~= pat@);
    true
}

/// Which known key `cs[from..to]` is: 0 title, 1 version, 2 linux, 3 initrd,
/// 4 options, 5 machine-id, 6 sort-key, 7 none.
fn known_key(cs: &Vec<char>, from: usize, to: usize) -> (r: u8)
    requires
        from <= to <= cs@.len(),
    ensures
        r == 0 <==> cs@.subrange(from as int, to as int) == key_title(),
        r == 1 <==> cs@.subrange(from as int, to as int) == key_version(),
        r == 2 <==> cs@.subrange(from as int, to as int) == key_linux(),
        r == 3 <==> cs@.subrange(from as int, to as int) == key_initrd(),
        r == 4 <==> cs@.subrange(from as int, to as int) == key_options(),
        r == 5 <==> cs@.subrange(from as int, to as int) == key_machine_id(),
        r == 6 <==> cs@.subrange(from as int, to as int) == key_sort_key(),
        r == 7 <==> !is_known_key(cs@.subrange(from as int, to as int)),
{
    let t = vec!['t', 'i', 't', 'l', 'e'];
    let v = vec!['v', 'e', 'r', 's', 'i', 'o', 'n'];
    let l = vec!['l', 'i', 'n', 'u', 'x'];
    let i = vec!['i', 'n', 'i', 't', 'r', 'd'];
    let o = vec!['o', 'p', 't', 'i', 'o', 'n', 's'];
    let m = vec!['m', 'a', 'c', 'h', 'i', 'n', 'e', '-', 'i', 'd'];
    let s = vec!['s', 'o', 'r', 't', '-', 'k', 'e', 'y'];
    assert(t@ =~= key_title());
    assert(v@ =~= key_version());
    assert(l@ =~= key_linux());
    assert(i@ =~= key_initrd());
    assert(o@ =~= key_options());
    assert(m@ =~= key_machine_id());
    assert(s@ =~= key_sort_key());
    proof {
        lemma_known_keys_distinct();
    }
    if range_is(cs, from, to, &t) {
        0
    } else if range_is(cs, from, to, &v) {
        1
    } else if range_is(cs, from, to, &l) {
        2
    } else if range_is(cs, from, to, &i) {
        3
    } else if range_is(cs, from, to, &o) {
        4
    } else if range_is(cs, from, to, &m) {
        5
    } else if range_is(cs, from, to, &s) {
        6
    } else {
        7
    }
}


/// The range `from..to` of `cs` without white space at either end.
pub fn trim_range(cs: &Vec<char>, from: usize, to: usize) -> (r: (usize, usize))
    requires
        from <= to <= cs@.len(),
    ensures
        from <= r.0 <= r.1 <= to,
        cs@.subrange(r.0 as int, r.1 as int) == trim(cs@.subrange(from as int, to as int)),
{
    let ghost t = cs@.subrange(from as int, to as int);
    let mut a = from;
    while a < to && is_space_char(cs[a])
        invariant
            from <= a <= to <= cs@.len(),
            t == cs@.subrange(from as int, to as int),
            lead_space(t) == (a - from) + lead_space(cs@.subrange(a as int, to as int)),
        decreases to - a,
    {
        assert(cs@.subrange(a as int, to as int).skip(1) =~= cs@.subrange(a + 1, to as int));
        a = a + 1;
    }
    assert(lead_space(cs@.subrange(a as int, to as int)) == 0);
    let ghost u = t.skip(lead_space(t) as int);
    assert(u =~= cs@.subrange(a as int, to as int));
    let mut b = to;
    while b > a && is_space_char(cs[b - 1])
        invariant
            from <= a <= b <= to <= cs@.len(),
            u == cs@.subrange(a as int, to as int),
            trail_space(u) == (to - b) + trail_space(cs@.subrange(a as int, b as int)),
        decreases b - a,
    {
        assert(cs@.subrange(a as int, b as int).drop_last() =~= cs@.subrange(a as int, b - 1));
        b = b - 1;
    }
    assert(trail_space(cs@.subrange(a as int, b as int)) == 0);
    assert(u.take(u.len() - trail_space(u)) =~= cs@.subrange(a as int, b as int));
    (a, b)
}

/// Position of the first space in `cs[from..to]`.
fn find_space(cs: &Vec<char>, from: usize, to: usize) -> (r: Option<usize>)
    requires
        from <= to <= cs@.len(),
    ensures
        r is None ==> index_from(cs@.subrange(from as int, to as int), ' ', 0) == -1,
        r matches Some(k) ==> from <= k < to && index_from(cs@.subrange(from as int, to as int), ' ', 0)
            == k - from,
{
    let ghost t = cs@.subrange(from as int, to as int);
    let mut i = from;
    while i < to
        invariant
            from <= i <= to <= cs@.len(),
            t == cs@.subrange(from as int, to as int),
            index_from(t, ' ', 0) == index_from(t, ' ', i - from),
        decreases to - i,
    {
        if cs[i] == ' ' {
            return Some(i);
        }
        i = i + 1;
    }
    None
}

/// The pairs `es` followed by what `line` holds.
pub open spec fn push_entry(es: Seq<(Seq<char>, Seq<char>)>, line: Seq<char>) -> Seq<(Seq<char>, Seq<char>)> {
    match entry_of(line) {
        Some(e) => es.push(e),
        None => es,
    }
}

proof fn lemma_extras_known_key(
    ev: Seq<(Seq<char>, Seq<char>)>,
    es: Seq<(Seq<char>, Seq<char>)>,
    e: (Seq<char>, Seq<char>),
)
    requires
        extras_match(ev, es),
        is_known_key(e.0),
    ensures
        extras_match(ev, es.push(e)),
{
    let es2 = es.push(e);
    assert(es2.drop_last() =~= es);
    assert forall|i: int| 0 <= i < ev.len() implies !is_known_key(#[trigger] ev[i].0) && last_value(
        es2,
        ev[i].0,
    ) == Some(ev[i].1) by {
        assert(last_value(es2, ev[i].0) == last_value(es, ev[i].0));
    }
    assert forall|k: Seq<char>| !is_known_key(k) && #[trigger] last_value(es2, k) is Some implies exists|i: int|
        0 <= i < ev.len() && #[trigger] ev[i].0 == k by {
        assert(last_value(es2, k) == last_value(es, k));
    }
}

/// The fields gathered so far while reading an entry.
struct Fields {
    title: Option<String>,
    version: Option<String>,
    linux: Option<String>,
    initrd: Vec<String>,
    options: Option<String>,
    machine_id: Option<String>,
    sort_key: Option<String>,
    extra: Vec<(String, String)>,
}

impl Fields {
    spec fn holds(&self, es: Seq<(Seq<char>, Seq<char>)>) -> bool {
        &&& opt_view(self.title) == last_value(es, key_title())
        &&& opt_view(self.version) == last_value(es, key_version())
        &&& opt_view(self.linux) == last_value(es, key_linux())
        &&& strings_view(self.initrd@) == all_values(es, key_initrd())
        &&& opt_view(self.options) == last_value(es, key_options())
        &&& opt_view(self.machine_id) == last_value(es, key_machine_id())
        &&& opt_view(self.sort_key) == last_value(es, key_sort_key())
        &&& extras_match(extra_view(self.extra@), es)
    }

    /// Records the pair `key value`, where `kind` says which known key `key` is.
    fn add(&mut self, key: String, value: String, kind: u8, Ghost(es): Ghost<Seq<(Seq<char>, Seq<char>)>>)
        requires
            old(self).holds(es),
            kind == 0 <==> key@ == key_title(),
            kind == 1 <==> key@ == key_version(),
            kind == 2 <==> key@ == key_linux(),
            kind == 3 <==> key@ == key_initrd(),
            kind == 4 <==> key@ == key_options(),
            kind == 5 <==> key@ == key_machine_id(),
            kind == 6 <==> key@ == key_sort_key(),
            kind == 7 <==> !is_known_key(key@),
        ensures
            final(self).holds(es.push((key@, value@))),
    {
        let ghost e = (key@, value@);
        let ghost es2 = es.push(e);
        assert(es2.drop_last() =~= es);
        assert(es2.last() == e);
        let ghost old_extra = extra_view(self.extra@);
        proof {
            lemma_known_keys_distinct();
            if kind <= 6 {
                lemma_extras_known_key(old_extra, es, e);
            }
        }
        if kind == 0 {
            self.title = Some(value);
        } else if kind == 1 {
            self.version = Some(value);
        } else if kind == 2 {
            self.linux = Some(value);
        } else if kind == 3 {
            self.initrd.push(value);
            assert(strings_view(self.initrd@) =~= all_values(es2, key_initrd()));
        } else if kind == 4 {
            self.options = Some(value);
        } else if kind == 5 {
            self.machine_id = Some(value);
        } else if kind == 6 {
            self.sort_key = Some(value);
        } else {
            let want = chars_of(key.as_str());
            let mut j: usize = 0;
            let mut found: Option<usize> = None;
            while j < self.extra.len()
                invariant
                    j <= self.extra@.len(),
                    want@ == key@,
                    extra_view(self.extra@) == old_extra,
                    found is None ==> forall|m: int| 0 <= m < j ==> old_extra[m].0 != key@,
                    found matches Some(x) ==> x < self.extra@.len() && old_extra[x as int].0 == key@,
                decreases self.extra@.len() - j,
            {
                let k = chars_of(self.extra[j].0.as_str());
                if chars_equal(&k, &want) {
                    found = Some(j);
                    j = self.extra.len();
                } else {
                    j = j + 1;
                }
            }
            match found {
                Some(x) => {
                    self.extra.set(x, (key, value));
                    assert(extra_view(self.extra@) =~= old_extra.update(x as int, e));
                    let ghost nv = extra_view(self.extra@);
                    assert forall|m: int| 0 <= m < nv.len() implies !is_known_key(#[trigger] nv[m].0)
                        && last_value(es2, nv[m].0) == Some(nv[m].1) by {
                        if m != x {
                            assert(nv[m] == old_extra[m]);
                        }
                    }
                    assert forall|k: Seq<char>|
                        !is_known_key(k) && #[trigger] last_value(es2, k) is Some implies exists|m: int|
                            0 <= m < nv.len() && #[trigger] nv[m].0 == k by {
                        if k == key@ {
                            assert(nv[x as int].0 == k);
                        } else {
                            assert(last_value(es2, k) == last_value(es, k));
                            assert(last_value(es, k) is Some);
                            let m = choose|m: int| 0 <= m < old_extra.len() && #[trigger] old_extra[m].0 == k;
                            assert(nv[m].0 == k);
                        }
                    }
                },
                None => {
                    self.extra.push((key, value));
                    assert(extra_view(self.extra@) =~= old_extra.push(e));
                    let ghost nv = extra_view(self.extra@);
                    assert forall|m: int| 0 <= m < nv.len() implies !is_known_key(#[trigger] nv[m].0)
                        && last_value(es2, nv[m].0) == Some(nv[m].1) by {
                        if m < old_extra.len() {
                            assert(nv[m] == old_extra[m]);
                            assert(old_extra[m].0 != key@);
                            assert(last_value(es2, nv[m].0) == last_value(es, nv[m].0));
                        }
                    }
                    assert forall|k: Seq<char>|
                        !is_known_key(k) && #[trigger] last_value(es2, k) is Some implies exists|m: int|
                            0 <= m < nv.len() && #[trigger] nv[m].0 == k by {
                        if k == key@ {
                            assert(nv[old_extra.len() as int].0 == k);
                        } else {
                            assert(last_value(es2, k) == last_value(es, k));
                            assert(last_value(es, k) is Some);
                            let m = choose|m: int| 0 <= m < old_extra.len() && #[trigger] old_extra[m].0 == k;
                            assert(nv[m].0 == k);
                        }
                    }
                },
            }
        }
    }

    /// Records what the line `cs[from..to]` holds.
    fn add_line(&mut self, input: &str, cs: &Vec<char>, from: usize, to: usize, Ghost(es): Ghost<Seq<(Seq<char>, Seq<char>)>>)
        requires
            old(self).holds(es),
            cs@ == input@,
            from <= to <= cs@.len(),
        ensures
            final(self).holds(push_entry(es, cs@.subrange(from as int, to as int))),
    {
        let ghost line = cs@.subrange(from as int, to as int);
        let (a, b) = trim_range(cs, from, to);
        let ghost t = trim(line);
        if a == b || cs[a] == '#' {
            return;
        }
        assert(t[0] == cs@[a as int]);
        match find_space(cs, a, b) {
            None => {},
            Some(k) => {
                proof {
                    lemma_index_from_bounds(t, ' ', 0);
                }
                let (va, vb) = trim_range(cs, k + 1, b);
                assert(cs@.subrange(a as int, k as int) =~= t.take(k - a));
                assert(cs@.subrange(k + 1, b as int) =~= t.skip(k - a + 1));
                let kind = known_key(cs, a, k);
                let key = copy_chars(input, a, k);
                let value = copy_chars(input, va, vb);
                self.add(key, value, kind, Ghost(es));
            },
        }
    }
}

/// Parses an entry. `linux` and `version` must be present, `linux` is looked
/// for first.
pub fn parse_bls_config(input: &str) -> (r: Result<BLSConfig, BlsError>)
    ensures
        last_value(entries(input@), key_linux()) is None ==> r == Err::<BLSConfig, BlsError>(
            BlsError::MissingLinux,
        ),
        last_value(entries(input@), key_linux()) is Some && last_value(entries(input@), key_version()) is None
            ==> r == Err::<BLSConfig, BlsError>(BlsError::MissingVersion),
        last_value(entries(input@), key_linux()) is Some && last_value(entries(input@), key_version()) is Some
            ==> (r matches Ok(c) && c.holds(entries(input@)) && c.wf()),
{
    let cs = chars_of(input);
    let n = cs.len();
    let mut f = Fields {
        title: None,
        version: None,
        linux: None,
        initrd: Vec::new(),
        options: None,
        machine_id: None,
        sort_key: None,
        extra: Vec::new(),
    };
    let mut start: usize = 0;
    let mut i: usize = 0;
    let ghost mut done: Seq<Seq<char>> = seq![];
    assert(strings_view(f.initrd@) =~= Seq::<Seq<char>>::empty());
    assert(extra_view(f.extra@) =~= Seq::<(Seq<char>, Seq<char>)>::empty());
    while i < n
        invariant
            n == cs@.len(),
            cs@ == input@,
            start <= i <= n,
            done + lines_from(cs@, start as int, i as int) == lines(cs@),
            f.holds(entries_of(done)),
        decreases n - i,
    {
        if cs[i] == '\n' {
            f.add_line(input, &cs, start, i, Ghost(entries_of(done)));
            proof {
                let line = cs@.subrange(start as int, i as int);
                assert(done + lines_from(cs@, start as int, i as int) =~= done.push(line) + lines_from(
                    cs@,
                    i + 1,
                    i + 1,
                ));
                assert(done.push(line).drop_last() =~= done);
                done = done.push(line);
            }
            start = i + 1;
        }
        i = i + 1;
    }
    f.add_line(input, &cs, start, n, Ghost(entries_of(done)));
    proof {
        let line = cs@.subrange(start as int, n as int);
        assert(done + lines_from(cs@, start as int, n as int) =~= done.push(line));
        assert(done.push(line).drop_last() =~= done);
        done = done.push(line);
    }
    let linux = match f.linux {
        Some(l) => l,
        None => {
            return Err(BlsError::MissingLinux);
        },
    };
    let version = match f.version {
        Some(v) => v,
        None => {
            return Err(BlsError::MissingVersion);
        },
    };
    Ok(
        BLSConfig {
            title: f.title,
            version,
            linux,
            initrd: f.initrd,
            options: f.options,
            machine_id: f.machine_id,
            sort_key: f.sort_key,
            extra: f.extra,
        },
    )
}

/// One rendered line: `key value` and a newline.
pub open spec fn line_of(k: Seq<char>, v: Seq<char>) -> Seq<char> {
    k + seq![' '] + v + seq!['\n']
}

pub open spec fn render_opt(k: Seq<char>, o: Option<Seq<char>>) -> Seq<char> {
    match o {
        Some(v) => line_of(k, v),
        None => seq![],
    }
}

/// One line per value, all with key `k`.
pub open spec fn render_all(k: Seq<char>, vs: Seq<Seq<char>>) -> Seq<char>
    decreases vs.len(),
{
    if vs.len() == 0 {
        seq![]
    } else {
        render_all(k, vs.drop_last()) + line_of(k, vs.last())
    }
}

/// One line per pair.
pub open spec fn render_pairs(ev: Seq<(Seq<char>, Seq<char>)>) -> Seq<char>
    decreases ev.len(),
{
    if ev.len() == 0 {
        seq![]
    } else {
        render_pairs(ev.drop_last()) + line_of(ev.last().0, ev.last().1)
    }
}

/// The text of an entry: title, version, linux, each initrd, options,
/// machine-id, sort-key, then the extras.
pub open spec fn render(c: &BLSConfig) -> Seq<char> {
    render_opt(key_title(), opt_view(c.title)) + line_of(key_version(), c.version@) + line_of(
        key_linux(),
        c.linux@,
    ) + render_all(key_initrd(), strings_view(c.initrd@)) + render_opt(
        key_options(),
        opt_view(c.options),
    ) + render_opt(key_machine_id(), opt_view(c.machine_id)) + render_opt(
        key_sort_key(),
        opt_view(c.sort_key),
    ) + render_pairs(extra_view(c.extra@))
}

/// Appends the line `key value`.
pub fn push_line(out: &mut String, key: &str, value: &str)
    ensures
        final(out)@ == old(out)@ + line_of(key@, value@),
{
    out.append(key);
    out.append(" ");
    out.append(value);
    out.append("\n");
    proof {
        reveal_strlit(" ");
        reveal_strlit("\n");
    }
    assert(" "@ =~= seq![' ']);
    assert("\n"@ =~= seq!['\n']);
    assert(final(out)@ =~= old(out)@ + line_of(key@, value@));
}

/// Appends the line `key value` when there is a value.
fn push_opt(out: &mut String, key: &str, value: &Option<String>)
    ensures
        final(out)@ == old(out)@ + render_opt(key@, opt_view(*value)),
{
    match value {
        Some(v) => push_line(out, key, v.as_str()),
        None => {
            assert(old(out)@ + render_opt(key@, opt_view(*value)) =~= old(out)@);
        },
    }
}

impl BLSConfig {
    /// The text of the entry, one `key value` line each.
    pub fn to_string(&self) -> (r: String)
        ensures
            r@ == render(self),
    {
        proof {
            reveal_strlit("title");
            reveal_strlit("version");
            reveal_strlit("linux");
            reveal_strlit("initrd");
            reveal_strlit("options");
            reveal_strlit("machine-id");
            reveal_strlit("sort-key");
        }
        assert("title"@ =~= key_title());
        assert("version"@ =~= key_version());
        assert("linux"@ =~= key_linux());
        assert("initrd"@ =~= key_initrd());
        assert("options"@ =~= key_options());
        assert("machine-id"@ =~= key_machine_id());
        assert("sort-key"@ =~= key_sort_key());
        let mut out = String::new();
        push_opt(&mut out, "title", &self.title);
        push_line(&mut out, "version", self.version.as_str());
        push_line(&mut out, "linux", self.linux.as_str());
        let ghost head = out@;
        let ghost iv = strings_view(self.initrd@);
        let mut i: usize = 0;
        while i < self.initrd.len()
            invariant
                i <= self.initrd@.len(),
                iv == strings_view(self.initrd@),
                out@ == head + render_all(key_initrd(), iv.take(i as int)),
                "initrd"@ == key_initrd(),
            decreases self.initrd@.len() - i,
        {
            assert(iv.take(i + 1).drop_last() =~= iv.take(i as int));
            push_line(&mut out, "initrd", self.initrd[i].as_str());
            i = i + 1;
        }
        assert(iv.take(i as int) =~= iv);
        push_opt(&mut out, "options", &self.options);
        push_opt(&mut out, "machine-id", &self.machine_id);
        push_opt(&mut out, "sort-key", &self.sort_key);
        let ghost head2 = out@;
        let ghost ev = extra_view(self.extra@);
        let mut j: usize = 0;
        while j < self.extra.len()
            invariant
                j <= self.extra@.len(),
                ev == extra_view(self.extra@),
                out@ == head2 + render_pairs(ev.take(j as int)),
            decreases self.extra@.len() - j,
        {
            assert(ev.take(j + 1).drop_last() =~= ev.take(j as int));
            push_line(&mut out, self.extra[j].0.as_str(), self.extra[j].1.as_str());
            j = j + 1;
        }
        assert(ev.take(j as int) =~= ev);
        out
    }
}

/// How `uapi_version::strverscmp` orders two version strings.
pub uninterp spec fn version_order(a: Seq<char>, b: Seq<char>) -> Ordering;

/// Relies on `uapi_version::strverscmp`, the comparison of the UAPI Version
/// Format Specification; its result depends on the two strings alone.
#[verifier::external_body]
fn compare_versions(a: &str, b: &str) -> (r: Ordering)
    ensures
        r == version_order(a@, b@),
{
    uapi_version::strverscmp(a, b)
}

/// Lexicographic order on characters, as `str`'s `Ord` orders.
pub open spec fn lex_order(a: Seq<char>, b: Seq<char>) -> Ordering
    decreases a.len(),
{
    if a.len() == 0 {
        if b.len() == 0 {
            Ordering::Equal
        } else {
            Ordering::Less
        }
    } else if b.len() == 0 {
        Ordering::Greater
    } else if a[0] < b[0] {
        Ordering::Less
    } else if a[0] > b[0] {
        Ordering::Greater
    } else {
        lex_order(a.skip(1), b.skip(1))
    }
}

fn compare_strs(a: &str, b: &str) -> (r: Ordering)
    ensures
        r == lex_order(a@, b@),
{
    let x = chars_of(a);
    let y = chars_of(b);
    let mut i: usize = 0;
    assert(x@.skip(0) =~= x@);
    assert(y@.skip(0) =~= y@);
    while i < x.len() && i < y.len()
        invariant
            x@ == a@,
            y@ == b@,
            i <= x@.len(),
            i <= y@.len(),
            lex_order(a@, b@) == lex_order(x@.skip(i as int), y@.skip(i as int)),
        decreases x@.len() - i,
    {
        assert(x@.skip(i as int).skip(1) =~= x@.skip(i + 1));
        assert(y@.skip(i as int).skip(1) =~= y@.skip(i + 1));
        let c = x[i];
        let d = y[i];
        if c < d {
            return Ordering::Less;
        }
        if c > d {
            return Ordering::Greater;
        }
        i = i + 1;
    }
    if x.len() == i {
        if y.len() == i {
            Ordering::Equal
        } else {
            Ordering::Less
        }
    } else {
        Ordering::Greater
    }
}

/// Compares two optional keys as `Option` orders: absent before present.
pub open spec fn key_order(a: Option<Seq<char>>, b: Option<Seq<char>>) -> Ordering {
    match (a, b) {
        (Some(x), Some(y)) => lex_order(x, y),
        (None, Some(_)) => Ordering::Less,
        (Some(_), None) => Ordering::Greater,
        (None, None) => Ordering::Equal,
    }
}

pub open spec fn reversed(o: Ordering) -> Ordering {
    match o {
        Ordering::Less => Ordering::Greater,
        Ordering::Equal => Ordering::Equal,
        Ordering::Greater => Ordering::Less,
    }
}

/// The boot menu order: by sort key, then by machine id, then by version,
/// newest first.
pub open spec fn entry_order(a: &BLSConfig, b: &BLSConfig) -> Ordering {
    let o1 = key_order(opt_view(a.sort_key), opt_view(b.sort_key));
    let o2 = key_order(opt_view(a.machine_id), opt_view(b.machine_id));
    if o1 != Ordering::Equal {
        o1
    } else if o2 != Ordering::Equal {
        o2
    } else {
        reversed(version_order(a.version@, b.version@))
    }
}

fn compare_keys(a: &Option<String>, b: &Option<String>) -> (r: Ordering)
    ensures
        r == key_order(opt_view(*a), opt_view(*b)),
{
    match (a, b) {
        (Some(x), Some(y)) => compare_strs(x.as_str(), y.as_str()),
        (None, Some(_)) => Ordering::Less,
        (Some(_), None) => Ordering::Greater,
        (None, None) => Ordering::Equal,
    }
}

impl BLSConfig {
    /// Orders entries as a boot menu lists them.
    pub fn cmp(&self, other: &BLSConfig) -> (r: Ordering)
        ensures
            r == entry_order(self, other),
    {
        let o1 = compare_keys(&self.sort_key, &other.sort_key);
        match o1 {
            Ordering::Equal => {},
            _ => {
                return o1;
            },
        }
        let o2 = compare_keys(&self.machine_id, &other.machine_id);
        match o2 {
            Ordering::Equal => {},
            _ => {
                return o2;
            },
        }
        match compare_versions(self.version.as_str(), other.version.as_str()) {
            Ordering::Less => Ordering::Greater,
            Ordering::Equal => Ordering::Equal,
            Ordering::Greater => Ordering::Less,
        }
    }
}

/// Field-by-field equality, extras compared in order.
pub open spec fn same_config(a: &BLSConfig, b: &BLSConfig) -> bool {
    &&& opt_view(a.title) == opt_view(b.title)
    &&& a.version@ == b.version@
    &&& a.linux@ == b.linux@
    &&& strings_view(a.initrd@) == strings_view(b.initrd@)
    &&& opt_view(a.options) == opt_view(b.options)
    &&& opt_view(a.machine_id) == opt_view(b.machine_id)
    &&& opt_view(a.sort_key) == opt_view(b.sort_key)
    &&& extra_view(a.extra@) == extra_view(b.extra@)
}

fn same_opt(a: &Option<String>, b: &Option<String>) -> (r: bool)
    ensures
        r == (opt_view(*a) == opt_view(*b)),
{
    match (a, b) {
        (None, None) => true,
        (Some(x), Some(y)) => *x == *y,
        _ => false,
    }
}

fn same_strings(a: &Vec<String>, b: &Vec<String>) -> (r: bool)
    ensures
        r == (strings_view(a@) == strings_view(b@)),
{
    if a.len() != b.len() {
        assert(strings_view(a@).len() != strings_view(b@).len());
        return false;
    }
    let mut i: usize = 0;
    while i < a.len()
        invariant
            a@.len() == b@.len(),
            i <= a@.len(),
            forall|j: int| 0 <= j < i ==> (#[trigger] a@[j])@ == b@[j]@,
        decreases a@.len() - i,
    {
        if a[i] != b[i] {
            assert(strings_view(a@)[i as int] != strings_view(b@)[i as int]);
            return false;
        }
        i = i + 1;
    }
    assert(strings_view(a@) =~= strings_view(b@));
    true
}

fn same_pairs(a: &Vec<(String, String)>, b: &Vec<(String, String)>) -> (r: bool)
    ensures
        r == (extra_view(a@) == extra_view(b@)),
{
    if a.len() != b.len() {
        assert(extra_view(a@).len() != extra_view(b@).len());
        return false;
    }
    let mut i: usize = 0;
    while i < a.len()
        invariant
            a@.len() == b@.len(),
            i <= a@.len(),
            forall|j: int| 0 <= j < i ==> (#[trigger] a@[j]).0@ == b@[j].0@ && a@[j].1@ == b@[j].1@,
        decreases a@.len() - i,
    {
        if a[i].0 != b[i].0 || a[i].1 != b[i].1 {
            assert(extra_view(a@)[i as int] != extra_view(b@)[i as int]);
            return false;
        }
        i = i + 1;
    }
    assert(extra_view(a@) =~= extra_view(b@));
    true
}

impl PartialEq for BLSConfig {
    fn eq(&self, other: &BLSConfig) -> (r: bool) {
        same_opt(&self.title, &other.title) && self.version == other.version && self.linux
            == other.linux && same_strings(&self.initrd, &other.initrd) && same_opt(
            &self.options,
            &other.options,
        ) && same_opt(&self.machine_id, &other.machine_id) && same_opt(
            &self.sort_key,
            &other.sort_key,
        ) && same_pairs(&self.extra, &other.extra)
    }
}

impl vstd::std_specs::cmp::PartialEqSpecImpl for BLSConfig {
    open spec fn obeys_eq_spec() -> bool {
        true
    }

    open spec fn eq_spec(&self, other: &BLSConfig) -> bool {
        same_config(self, other)
    }
}

impl PartialOrd for BLSConfig {
    fn partial_cmp(&self, other: &BLSConfig) -> (r: Option<Ordering>) {
        Some(self.cmp(other))
    }
}

impl vstd::std_specs::cmp::PartialOrdSpecImpl for BLSConfig {
    open spec fn obeys_partial_cmp_spec() -> bool {
        true
    }

    open spec fn partial_cmp_spec(&self, other: &BLSConfig) -> Option<Ordering> {
        Some(entry_order(self, other))
    }
}

/// The pair that the line `cs[from..to]` holds, if any.
fn line_entry(input: &str, cs: &Vec<char>, from: usize, to: usize) -> (r: Option<(String, String)>)
    requires
        cs@ == input@,
        from <= to <= cs@.len(),
    ensures
        r is None ==> entry_of(cs@.subrange(from as int, to as int)) is None,
        r matches Some(p) ==> entry_of(cs@.subrange(from as int, to as int)) == Some((p.0@, p.1@)),
{
    let ghost line = cs@.subrange(from as int, to as int);
    let (a, b) = trim_range(cs, from, to);
    let ghost t = trim(line);
    if a == b || cs[a] == '#' {
        return None;
    }
    assert(t[0] == cs@[a as int]);
    match find_space(cs, a, b) {
        None => None,
        Some(k) => {
            proof {
                lemma_index_from_bounds(t, ' ', 0);
            }
            let (va, vb) = trim_range(cs, k + 1, b);
            assert(cs@.subrange(a as int, k as int) =~= t.take(k - a));
            assert(cs@.subrange(k + 1, b as int) =~= t.skip(k - a + 1));
            Some((copy_chars(input, a, k), copy_chars(input, va, vb)))
        },
    }
}

/// Appends the pair that the line `cs[from..to]` holds, if any.
fn push_line_entry(out: &mut Vec<(String, String)>, input: &str, cs: &Vec<char>, from: usize, to: usize)
    requires
        cs@ == input@,
        from <= to <= cs@.len(),
    ensures
        extra_view(final(out)@) == push_entry(extra_view(old(out)@), cs@.subrange(from as int, to as int)),
{
    match line_entry(input, cs, from, to) {
        Some(p) => {
            out.push(p);
            assert(extra_view(final(out)@) =~= extra_view(old(out)@).push((p.0@, p.1@)));
        },
        None => {},
    }
}

/// The `key value` pairs of a text, line by line, as an entry is read.
pub fn entry_pairs(input: &str) -> (r: Vec<(String, String)>)
    ensures
        extra_view(r@) == entries(input@),
{
    let cs = chars_of(input);
    let n = cs.len();
    let mut out: Vec<(String, String)> = Vec::new();
    let mut start: usize = 0;
    let mut i: usize = 0;
    let ghost mut done: Seq<Seq<char>> = seq![];
    assert(extra_view(out@) =~= entries_of(done));
    while i < n
        invariant
            n == cs@.len(),
            cs@ == input@,
            start <= i <= n,
            done + lines_from(cs@, start as int, i as int) == lines(cs@),
            extra_view(out@) == entries_of(done),
        decreases n - i,
    {
        if cs[i] == '\n' {
            push_line_entry(&mut out, input, &cs, start, i);
            proof {
                let line = cs@.subrange(start as int, i as int);
                assert(done + lines_from(cs@, start as int, i as int) =~= done.push(line) + lines_from(
                    cs@,
                    i + 1,
                    i + 1,
                ));
                assert(done.push(line).drop_last() =~= done);
                done = done.push(line);
            }
            start = i + 1;
        }
        i = i + 1;
    }
    push_line_entry(&mut out, input, &cs, start, n);
    proof {
        let line = cs@.subrange(start as int, n as int);
        assert(done + lines_from(cs@, start as int, n as int) =~= done.push(line));
        assert(done.push(line).drop_last() =~= done);
        done = done.push(line);
    }
    out
}

} // verus!
