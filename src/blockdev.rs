//! Block devices and partition tables as reported by `lsblk` and `sfdisk`,
//! and size expressions in MiB.
use crate::text::{chars_equal, chars_of, first_where};
use vstd::prelude::*;
use vstd::string::*;

verus! {

/// A block device, with its children (partitions, holders) if any.
#[derive(Debug)]
pub struct Device {
    pub name: String,
    pub serial: Option<String>,
    pub model: Option<String>,
    pub partlabel: Option<String>,
    pub parttype: Option<String>,
    pub partuuid: Option<String>,
    pub children: Option<Vec<Device>>,
    pub size: u64,
    pub maj_min: Option<String>,
    /// Not reported by older util-linux, nor for whole devices.
    pub start: Option<u64>,
    pub label: Option<String>,
    pub fstype: Option<String>,
    pub path: Option<String>,
}

impl Device {
    /// The device node: the reported path, else `/dev/<name>`.
    pub fn path(&self) -> (r: String)
        ensures
            self.path matches Some(p) ==> r@ == p@,
            self.path is None ==> r@ == "/dev/"@ + self.name@,
    {
        match &self.path {
            Some(p) => p.clone(),
            None => String::from_str("/dev/").concat(self.name.as_str()),
        }
    }

    /// Whether the device has at least one child.
    pub fn has_children(&self) -> (r: bool)
        ensures
            r == (self.children matches Some(c) && c@.len() > 0),
    {
        match &self.children {
            Some(c) => c.len() > 0,
            None => false,
        }
    }
}

/// One entry of a partition table.
#[derive(Debug)]
pub struct Partition {
    pub node: String,
    pub start: u64,
    pub size: u64,
    pub parttype: String,
    pub uuid: Option<String>,
    pub name: Option<String>,
}

impl Partition {
    /// The device node of the partition.
    pub fn path(&self) -> (r: &str)
        ensures
            r@ == self.node@,
    {
        self.node.as_str()
    }
}

/// The kind of a partition table.
#[derive(Debug, PartialEq, Eq)]
pub enum PartitionType {
    Dos,
    Gpt,
    Unknown(String),
}

/// A partition table, partitions in on-disk order.
#[derive(Debug)]
pub struct PartitionTable {
    pub label: PartitionType,
    pub id: String,
    pub device: String,
    pub partitions: Vec<Partition>,
}

/// Holds of the partitions whose node is `devname`.
pub open spec fn node_is(devname: Seq<char>) -> spec_fn(Partition) -> bool {
    |p: Partition| p.node@ == devname
}

/// The partition type of an EFI system partition.
pub open spec fn esp_guid() -> Seq<char> {
    "C12A7328-F81F-11D2-BA4B-00A0C93EC93B"@
}

/// Holds of the partitions of type `t`.
pub open spec fn parttype_is(t: Seq<char>) -> spec_fn(Partition) -> bool {
    |p: Partition| p.parttype@ == t
}

/// Why a partition lookup failed.
#[derive(Debug, PartialEq, Eq)]
pub enum PartitionError {
    /// There is no partition with this number (counted from 1).
    MissingPartition(u32),
}

impl PartitionTable {
    /// The partition whose node is `devname`, the first one if several are.
    pub fn find(&self, devname: &str) -> (r: Option<&Partition>)
        ensures
            first_where(self.partitions@, node_is(devname@), 0) < 0 ==> r is None,
            first_where(self.partitions@, node_is(devname@), 0) >= 0 ==> r == Some(
                &self.partitions@[first_where(self.partitions@, node_is(devname@), 0)],
            ),
    {
        let want = chars_of(devname);
        let mut i: usize = 0;
        while i < self.partitions.len()
            invariant
                i <= self.partitions@.len(),
                want@ == devname@,
                first_where(self.partitions@, node_is(devname@), 0) == first_where(
                    self.partitions@,
                    node_is(devname@),
                    i as int,
                ),
            decreases self.partitions@.len() - i,
        {
            let node = chars_of(self.partitions[i].node.as_str());
            if chars_equal(&node, &want) {
                assert(node_is(devname@)(self.partitions@[i as int]));
                return Some(&self.partitions[i]);
            }
            i = i + 1;
        }
        None
    }

    /// The EFI system partition: the first partition of the ESP type.
    pub fn esp_partition(&self) -> (r: Option<&Partition>)
        ensures
            first_where(self.partitions@, parttype_is(esp_guid()), 0) < 0 ==> r is None,
            first_where(self.partitions@, parttype_is(esp_guid()), 0) >= 0 ==> r == Some(
                &self.partitions@[first_where(self.partitions@, parttype_is(esp_guid()), 0)],
            ),
    {
        proof {
            reveal_strlit("C12A7328-F81F-11D2-BA4B-00A0C93EC93B");
        }
        let want = chars_of("C12A7328-F81F-11D2-BA4B-00A0C93EC93B");
        let mut i: usize = 0;
        while i < self.partitions.len()
            invariant
                i <= self.partitions@.len(),
                want@ == esp_guid(),
                first_where(self.partitions@, parttype_is(esp_guid()), 0) == first_where(
                    self.partitions@,
                    parttype_is(esp_guid()),
                    i as int,
                ),
            decreases self.partitions@.len() - i,
        {
            let t = chars_of(self.partitions[i].parttype.as_str());
            if chars_equal(&t, &want) {
                assert(parttype_is(esp_guid())(self.partitions@[i as int]));
                return Some(&self.partitions[i]);
            }
            i = i + 1;
        }
        None
    }

    /// The device the table belongs to.
    pub fn path(&self) -> (r: &str)
        ensures
            r@ == self.device@,
    {
        self.device.as_str()
    }

    /// The partition with the given number, counted from 1.
    pub fn find_partno(&self, partno: u32) -> (r: Result<&Partition, PartitionError>)
        requires
            partno >= 1,
        ensures
            partno <= self.partitions@.len() ==> r == Ok::<&Partition, PartitionError>(
                &self.partitions@[partno - 1],
            ),
            partno > self.partitions@.len() ==> r == Err::<&Partition, PartitionError>(
                PartitionError::MissingPartition(partno),
            ),
    {
        let i = (partno - 1) as usize;
        if i < self.partitions.len() {
            Ok(&self.partitions[i])
        } else {
            Err(PartitionError::MissingPartition(partno))
        }
    }
}

/// Why a size expression was refused.
#[derive(Debug, PartialEq, Eq)]
pub enum SizeError {
    /// A unit suffix occurs with more text after it.
    TrailingText,
    /// What is left once the suffix is gone is not a number that fits in 64 bits.
    InvalidNumber,
    /// The size in MiB does not fit in 64 bits.
    Overflow,
}

/// The unit suffixes, in the order they are tried.
pub open spec fn suffix(i: int) -> Seq<char> {
    if i == 0 {
        seq!['M', 'i', 'B']
    } else if i == 1 {
        seq!['M']
    } else if i == 2 {
        seq!['G', 'i', 'B']
    } else if i == 3 {
        seq!['G']
    } else if i == 4 {
        seq!['T', 'i', 'B']
    } else {
        seq!['T']
    }
}

/// The factor to MiB of [`suffix`]`(i)`.
pub open spec fn suffix_factor(i: int) -> nat {
    if i <= 1 {
        1
    } else if i <= 3 {
        1024
    } else {
        1048576
    }
}

/// `pat` occurs in `s`.
pub open spec fn occurs_in(s: Seq<char>, pat: Seq<char>) -> bool {
    exists|j: int| 0 <= j && j + pat.len() <= s.len() && #[trigger] s.subrange(j, j + pat.len()) == pat
}

/// Removes the unit suffixes from `i` on. A suffix is cut off where `s` ends
/// with it (its last occurrence is then at the end); one that occurs elsewhere
/// leaves trailing text, which is an error. Returns what is left and the factor
/// of the last suffix cut.
pub open spec fn strip_units(s: Seq<char>, i: int, factor: nat) -> Option<(Seq<char>, nat)>
    decreases 6 - i,
{
    if i >= 6 || i < 0 {
        Some((s, factor))
    } else if suffix(i).is_suffix_of(s) {
        strip_units(s.take(s.len() - suffix(i).len()), i + 1, suffix_factor(i))
    } else if occurs_in(s, suffix(i)) {
        None
    } else {
        strip_units(s, i + 1, factor)
    }
}

pub open spec fn is_digit(c: char) -> bool {
    '0' <= c && c <= '9'
}

/// The number written by the decimal digits `d`.
pub open spec fn decimal_value(d: Seq<char>) -> nat
    decreases d.len(),
{
    if d.len() == 0 {
        0
    } else {
        decimal_value(d.drop_last()) * 10 + (d.last() as nat - '0' as nat) as nat
    }
}

/// The number that an unsigned integer literal denotes (an optional `+`, then
/// one or more decimal digits), if `s` is one.
pub open spec fn unsigned_literal(s: Seq<char>) -> Option<nat> {
    if literal_digits(s).len() > 0 && all_digits(literal_digits(s)) {
        Some(decimal_value(literal_digits(s)))
    } else {
        None
    }
}

/// `s` without a leading `+`.
pub open spec fn literal_digits(s: Seq<char>) -> Seq<char> {
    if s.len() > 0 && s[0] == '+' {
        s.skip(1)
    } else {
        s
    }
}

pub open spec fn all_digits(d: Seq<char>) -> bool {
    forall|k: int| 0 <= k < d.len() ==> is_digit(#[trigger] d[k])
}

/// The size in MiB that `s` denotes.
pub open spec fn size_mib(s: Seq<char>) -> Result<u64, SizeError> {
    match strip_units(s, 0, 1) {
        None => Err(SizeError::TrailingText),
        Some((n, factor)) => match unsigned_literal(n) {
            None => Err(SizeError::InvalidNumber),
            Some(v) => if v > u64::MAX {
                Err(SizeError::InvalidNumber)
            } else if v * factor > u64::MAX {
                Err(SizeError::Overflow)
            } else {
                Ok((v * factor) as u64)
            },
        },
    }
}

/// The decimal digit for `d < 10`.
pub open spec fn digit_char(d: nat) -> char {
    if d == 0 {
        '0'
    } else if d == 1 {
        '1'
    } else if d == 2 {
        '2'
    } else if d == 3 {
        '3'
    } else if d == 4 {
        '4'
    } else if d == 5 {
        '5'
    } else if d == 6 {
        '6'
    } else if d == 7 {
        '7'
    } else if d == 8 {
        '8'
    } else {
        '9'
    }
}

/// The decimal rendering of `n`, without leading zeros.
pub open spec fn decimal_digits(n: nat) -> Seq<char>
    decreases n,
{
    if n < 10 {
        seq![digit_char(n)]
    } else {
        decimal_digits(n / 10).push(digit_char(n % 10))
    }
}

proof fn lemma_digit_char(m: nat)
    requires
        m < 10,
    ensures
        is_digit(digit_char(m)),
        digit_char(m) as nat - '0' as nat == m,
{
}

proof fn lemma_decimal_digits(n: nat)
    ensures
        decimal_digits(n).len() > 0,
        all_digits(decimal_digits(n)),
        decimal_value(decimal_digits(n)) == n,
    decreases n,
{
    lemma_digit_char(n % 10);
    if n < 10 {
        let d = decimal_digits(n);
        assert(d.drop_last() =~= Seq::<char>::empty());
        assert(n % 10 == n);
        assert(d.last() == digit_char(n));
        assert(decimal_value(d.drop_last()) == 0);
        assert(decimal_value(d) == decimal_value(d.drop_last()) * 10 + (d.last() as nat - '0' as nat) as nat);
    } else {
        lemma_decimal_digits(n / 10);
        let d = decimal_digits(n);
        assert(d.drop_last() =~= decimal_digits(n / 10));
        assert(n == (n / 10) * 10 + n % 10);
        assert(d.last() == digit_char(n % 10));
        assert(decimal_value(d) == decimal_value(d.drop_last()) * 10 + (d.last() as nat - '0' as nat) as nat);
        assert forall|k: int| 0 <= k < d.len() implies is_digit(#[trigger] d[k]) by {
            if k < d.len() - 1 {
                assert(d[k] == decimal_digits(n / 10)[k]);
            }
        }
    }
}

proof fn lemma_digits_hold_no_unit(d: Seq<char>, i: int)
    requires
        0 <= i < 6,
        d.len() > 0,
        all_digits(d),
    ensures
        !suffix(i).is_suffix_of(d),
        !occurs_in(d, suffix(i)),
{
    let pat = suffix(i);
    assert(!is_digit(pat[0]));
    if pat.is_suffix_of(d) {
        assert(d.subrange(d.len() - pat.len(), d.len() as int)[0] == d[d.len() - pat.len()]);
    }
    if occurs_in(d, pat) {
        let j = choose|j: int| 0 <= j && j + pat.len() <= d.len() && #[trigger] d.subrange(j, j + pat.len()) == pat;
        assert(d.subrange(j, j + pat.len())[0] == d[j]);
    }
}

proof fn lemma_strip_units_digits(d: Seq<char>, i: int, f: nat)
    requires
        0 <= i <= 6,
        d.len() > 0,
        all_digits(d),
    ensures
        strip_units(d, i, f) == Some((d, f)),
    decreases 6 - i,
{
    if i < 6 {
        lemma_digits_hold_no_unit(d, i);
        lemma_strip_units_digits(d, i + 1, f);
    }
}

/// A unit that cannot stand in the text of a number followed by unit `s`:
/// it is longer than `s`, or its first letter is not in `s`.
proof fn lemma_unit_absent(d: Seq<char>, s: Seq<char>, pat: Seq<char>)
    requires
        d.len() > 0,
        all_digits(d),
        pat.len() > 0,
        !is_digit(pat[0]),
        pat.len() > s.len() || forall|k: int| 0 <= k < s.len() ==> #[trigger] s[k] != pat[0],
    ensures
        !pat.is_suffix_of(d + s),
        !occurs_in(d + s, pat),
{
    let t = d + s;
    assert forall|p: int| 0 <= p && p + pat.len() <= t.len() implies #[trigger] t.subrange(p, p + pat.len())
        != pat by {
        assert(t.subrange(p, p + pat.len())[0] == t[p]);
        if p < d.len() {
            assert(t[p] == d[p]);
        } else {
            assert(t[p] == s[p - d.len()]);
        }
    }
    if pat.is_suffix_of(t) {
        let p = t.len() - pat.len();
        assert(t.subrange(p, p + pat.len()) == pat);
    }
}

/// Every 64-bit number, written in decimal, reads back as itself.
pub proof fn lemma_size_mib_round_trip(n: u64)
    ensures
        size_mib(decimal_digits(n as nat)) == Ok::<u64, SizeError>(n),
{
    let d = decimal_digits(n as nat);
    lemma_decimal_digits(n as nat);
    lemma_strip_units_digits(d, 0, 1);
    assert(!is_digit('+'));
    assert(literal_digits(d) == d);
    assert(unsigned_literal(d) == Some(n as nat));
    assert((n as nat) * 1nat == n as nat);
    assert(strip_units(d, 0, 1) == Some((d, 1nat)));
}

/// Every number written in decimal and followed by a unit reads back as that
/// many MiB times the unit's factor, when the product fits in 64 bits.
pub proof fn lemma_size_mib_unit_round_trip(n: u64, i: int)
    requires
        0 <= i < 6,
        n * suffix_factor(i) <= u64::MAX,
    ensures
        size_mib(decimal_digits(n as nat) + suffix(i)) == Ok::<u64, SizeError>((n * suffix_factor(i)) as u64),
{
    let d = decimal_digits(n as nat);
    let sx = suffix(i);
    let t = d + sx;
    lemma_decimal_digits(n as nat);
    // the units tried before unit `i` do not stand in the text
    assert forall|j: int| 0 <= j < i implies !(#[trigger] suffix(j)).is_suffix_of(t) && !occurs_in(t, suffix(j)) by {
        let pat = suffix(j);
        assert(!is_digit(pat[0]));
        lemma_unit_absent(d, sx, pat);
    }
    // unit `i` ends the text, and cutting it leaves the digits
    assert(t.subrange(t.len() - sx.len(), t.len() as int) =~= sx);
    assert(t.take(t.len() - sx.len()) =~= d);
    lemma_strip_units_digits(d, i + 1, suffix_factor(i));
    lemma_strip_steps(t, 0, i, d);
    assert(strip_units(t, 0, 1) == Some((d, suffix_factor(i))));
    assert(!is_digit('+'));
    assert(literal_digits(d) == d);
    assert(unsigned_literal(d) == Some(n as nat));
}

/// Unwinds `strip_units` from `j` over the units before `i`, which do not
/// stand in `t`, then cuts unit `i`.
proof fn lemma_strip_steps(t: Seq<char>, j: int, i: int, d: Seq<char>)
    requires
        0 <= j <= i < 6,
        forall|q: int| 0 <= q < i ==> !(#[trigger] suffix(q)).is_suffix_of(t) && !occurs_in(t, suffix(q)),
        suffix(i).is_suffix_of(t),
        t.take(t.len() - suffix(i).len()) == d,
    ensures
        strip_units(t, j, 1) == strip_units(d, i + 1, suffix_factor(i)),
    decreases i - j,
{
    if j < i {
        assert(!suffix(j).is_suffix_of(t) && !occurs_in(t, suffix(j)));
        lemma_strip_steps(t, j + 1, i, d);
    }
}

/// Suffix `i` and its factor, as values.
fn suffix_entry(i: usize) -> (r: (Vec<char>, u64))
    requires
        i < 6,
    ensures
        r.0@ == suffix(i as int),
        r.1 == suffix_factor(i as int),
{
    let r = if i == 0 {
        (vec!['M', 'i', 'B'], 1u64)
    } else if i == 1 {
        (vec!['M'], 1u64)
    } else if i == 2 {
        (vec!['G', 'i', 'B'], 1024u64)
    } else if i == 3 {
        (vec!['G'], 1024u64)
    } else if i == 4 {
        (vec!['T', 'i', 'B'], 1048576u64)
    } else {
        (vec!['T'], 1048576u64)
    };
    assert(r.0@ =~= suffix(i as int));
    r
}

/// Whether `pat` occurs in `s[..n]`.
pub(crate) fn occurs_in_prefix(s: &Vec<char>, n: usize, pat: &Vec<char>) -> (r: bool)
    requires
        n <= s@.len(),
    ensures
        r == occurs_in(s@.take(n as int), pat@),
{
    let ghost t = s@.take(n as int);
    if pat.len() > n {
        assert forall|j: int| 0 <= j && j + pat@.len() <= t.len() implies #[trigger] t.subrange(
            j,
            j + pat@.len(),
        ) != pat@ by {}
        return false;
    }
    let mut j: usize = 0;
    while j <= n - pat.len()
        invariant
            pat@.len() <= n <= s@.len(),
            t == s@.take(n as int),
            forall|m: int| 0 <= m < j ==> #[trigger] t.subrange(m, m + pat@.len()) != pat@,
        decreases n - j,
    {
        let mut k: usize = 0;
        let mut same = true;
        while k < pat.len()
            invariant
                j + pat@.len() <= n <= s@.len(),
                k <= pat@.len(),
                t == s@.take(n as int),
                same == forall|m: int| 0 <= m < k ==> s@[j + m] == pat@[m],
            decreases pat@.len() - k,
        {
            if s[j + k] != pat[k] {
                same = false;
            }
            k = k + 1;
        }
        if same {
            assert(t.subrange(j as int, j + pat@.len()) =~= pat@);
            return true;
        }
        assert(t.subrange(j as int, j + pat@.len()) != pat@) by {
            let w = choose|m: int| 0 <= m < pat@.len() && s@[j + m] != pat@[m];
            assert(t.subrange(j as int, j + pat@.len())[w] != pat@[w]);
        }
        j = j + 1;
    }
    assert forall|m: int| 0 <= m && m + pat@.len() <= t.len() implies #[trigger] t.subrange(
        m,
        m + pat@.len(),
    ) != pat@ by {}
    false
}

/// Whether `s[..n]` ends with `pat`.
fn ends_with_prefix(s: &Vec<char>, n: usize, pat: &Vec<char>) -> (r: bool)
    requires
        n <= s@.len(),
    ensures
        r == pat@.is_suffix_of(s@.take(n as int)),
{
    let ghost t = s@.take(n as int);
    if pat.len() > n {
        return false;
    }
    let off = n - pat.len();
    let mut k: usize = 0;
    while k < pat.len()
        invariant
            off + pat@.len() == n <= s@.len(),
            k <= pat@.len(),
            t == s@.take(n as int),
            forall|m: int| 0 <= m < k ==> s@[off + m] == pat@[m],
        decreases pat@.len() - k,
    {
        if s[off + k] != pat[k] {
            assert(t.subrange(off as int, n as int)[k as int] != pat@[k as int]);
            return false;
        }
        k = k + 1;
    }
    assert(t.subrange(off as int, n as int) =~= pat@);
    true
}

proof fn lemma_decimal_prefix_le(d: Seq<char>, i: int)
    requires
        0 <= i <= d.len(),
        forall|k: int| 0 <= k < d.len() ==> is_digit(#[trigger] d[k]),
    ensures
        decimal_value(d.take(i)) <= decimal_value(d),
    decreases d.len(),
{
    if i < d.len() {
        let e = d.drop_last();
        assert(d.take(i) =~= e.take(i));
        assert(forall|k: int| 0 <= k < e.len() ==> is_digit(#[trigger] e[k]) ==> true);
        assert forall|k: int| 0 <= k < e.len() implies is_digit(#[trigger] e[k]) by {
            assert(e[k] == d[k]);
        }
        lemma_decimal_prefix_le(e, i);
    } else {
        assert(d.take(i) =~= d);
    }
}

/// Parses a size in MiB: a decimal number with an optional unit suffix
/// (`MiB`/`M` ×1, `GiB`/`G` ×1024, `TiB`/`T` ×1024²). A suffix followed by
/// more text is an error.
pub fn parse_size_mib(s: &str) -> (r: Result<u64, SizeError>)
    ensures
        r == size_mib(s@),
{
    let cs = chars_of(s);
    let mut n: usize = cs.len();
    let mut factor: u64 = 1;
    let mut i: usize = 0;
    assert(cs@.take(n as int) =~= cs@);
    while i < 6
        invariant
            factor >= 1,
            n <= cs@.len(),
            cs@ == s@,
            i <= 6,
            strip_units(s@, 0, 1) == strip_units(cs@.take(n as int), i as int, factor as nat),
        decreases 6 - i,
    {
        let (pat, f) = suffix_entry(i);
        if ends_with_prefix(&cs, n, &pat) {
            assert(cs@.take(n as int).take(n - pat@.len()) =~= cs@.take(n - pat@.len()));
            n = n - pat.len();
            factor = f;
        } else if occurs_in_prefix(&cs, n, &pat) {
            return Err(SizeError::TrailingText);
        }
        i = i + 1;
    }
    let ghost body = cs@.take(n as int);
    assert(strip_units(s@, 0, 1) == Some((body, factor as nat)));
    // an optional leading `+`
    let mut k: usize = 0;
    if n > 0 && cs[0] == '+' {
        k = 1;
    }
    let ghost d = literal_digits(body);
    assert(d =~= cs@.subrange(k as int, n as int));
    if k >= n {
        assert(d.len() == 0);
        assert(unsigned_literal(body) is None);
        return Err(SizeError::InvalidNumber);
    }
    let mut v: u64 = 0;
    let mut j: usize = k;
    while j < n
        invariant
            k <= j <= n <= cs@.len(),
            cs@ == s@,
            body == cs@.take(n as int),
            d == cs@.subrange(k as int, n as int),
            d == literal_digits(body),
            strip_units(s@, 0, 1) == Some((body, factor as nat)),
            forall|m: int| 0 <= m < j - k ==> is_digit(#[trigger] d[m]),
            v == decimal_value(d.take(j - k)),
        decreases n - j,
    {
        let c = cs[j];
        if !('0' <= c && c <= '9') {
            assert(!is_digit(d[j - k]));
            assert(unsigned_literal(body) is None);
            return Err(SizeError::InvalidNumber);
        }
        assert(d.take(j - k + 1).drop_last() =~= d.take(j - k));
        let digit = (c as u32 - '0' as u32) as u64;
        if v > (u64::MAX - digit) / 10 {
            proof {
                assert(decimal_value(d.take(j - k + 1)) == v * 10 + digit);
                assert(v * 10 + digit > u64::MAX) by (nonlinear_arith)
                    requires
                        v > (u64::MAX - digit) / 10,
                        digit <= 9,
                ;
                // the rest of the literal only makes it larger, or is not digits
                if forall|q: int| 0 <= q < d.len() ==> is_digit(#[trigger] d[q]) {
                    lemma_decimal_prefix_le(d, j - k + 1);
                }
            }
            return Err(SizeError::InvalidNumber);
        }
        v = v * 10 + digit;
        j = j + 1;
    }
    assert(d.take(n - k) =~= d);
    if factor > 1 && v > u64::MAX / factor {
        assert(v * factor > u64::MAX) by (nonlinear_arith)
            requires
                factor > 1,
                v > u64::MAX / factor,
        ;
        return Err(SizeError::Overflow);
    }
    assert(v * factor <= u64::MAX) by (nonlinear_arith)
        requires
            factor >= 1,
            factor > 1 ==> v <= u64::MAX / factor,
            v <= u64::MAX,
    ;
    Ok(v * factor)
}


/// What closing a loopback device does: detach the device, and stop the
/// helper process that would otherwise detach it when this process dies.
#[derive(Debug, PartialEq, Eq)]
pub struct CloseAction {
    /// The device to detach with `losetup -d`.
    pub detach: String,
    /// The helper process to stop, if one was started.
    pub kill_helper: Option<u32>,
}

/// A loopback device as this process holds it.
#[derive(Debug)]
pub struct LoopbackDevice {
    /// The device node, until it is detached.
    pub dev: Option<String>,
    /// The process id of the cleanup helper, if one runs.
    pub helper: Option<u32>,
}

/// The state after closing, and what closing does.
pub open spec fn close_step(dev: Option<Seq<char>>, helper: Option<u32>) -> (
    Option<Seq<char>>,
    Option<u32>,
    Option<(Seq<char>, Option<u32>)>,
) {
    match dev {
        None => (None, helper, None),
        Some(d) => (None, None, Some((d, helper))),
    }
}

impl LoopbackDevice {
    pub open spec fn dev_view(&self) -> Option<Seq<char>> {
        match self.dev {
            Some(d) => Some(d@),
            None => None,
        }
    }

    /// A device just attached, with its helper if one could be started.
    pub fn new(dev: String, helper: Option<u32>) -> (r: LoopbackDevice)
        ensures
            r.dev_view() == Some(dev@),
            r.helper == helper,
    {
        LoopbackDevice { dev: Some(dev), helper }
    }

    /// The device node.
    pub fn path(&self) -> (r: &str)
        requires
            self.dev is Some,
        ensures
            Some(r@) == self.dev_view(),
    {
        match &self.dev {
            Some(d) => d.as_str(),
            None => "",
        }
    }

    /// Marks the device closed and says what to do: the first call detaches
    /// it (and stops the helper), any later call does nothing.
    pub fn close(&mut self) -> (r: Option<CloseAction>)
        ensures
            close_step(old(self).dev_view(), old(self).helper) == (
                final(self).dev_view(),
                final(self).helper,
                match r {
                    Some(a) => Some((a.detach@, a.kill_helper)),
                    None => None,
                },
            ),
    {
        match self.dev.take() {
            None => None,
            Some(d) => {
                let helper = self.helper.take();
                Some(CloseAction { detach: d, kill_helper: helper })
            },
        }
    }
}

/// Closing twice detaches once: the second close finds nothing to do.
pub proof fn lemma_close_idempotent(dev: Option<Seq<char>>, helper: Option<u32>)
    ensures
        ({
            let (d1, h1, _) = close_step(dev, helper);
            close_step(d1, h1).2 is None
        }),
        close_step(dev, helper).2 is Some <==> dev is Some,
{
}

/// The `--direct-io` setting for `losetup`: on only when the environment asks
/// for it with `on`.
pub fn direct_io_setting(env_value: Option<&str>) -> (r: &'static str)
    ensures
        env_value matches Some(v) && v@ == "on"@ ==> r@ == "on"@,
        !(env_value matches Some(v) && v@ == "on"@) ==> r@ == "off"@,
{
    proof {
        reveal_strlit("on");
        reveal_strlit("off");
    }
    match env_value {
        Some(v) => {
            let a = chars_of(v);
            let b = chars_of("on");
            if chars_equal(&a, &b) {
                "on"
            } else {
                "off"
            }
        },
        None => "off",
    }
}
} // verus!
