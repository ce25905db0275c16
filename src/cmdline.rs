//! Kernel command line parsing.
//!
//! A command line is a byte buffer, not necessarily UTF-8. It is split on
//! ASCII whitespace outside double quotes; each piece is a parameter, split on
//! its first `=` into a key and an optional value whose outermost quotes are
//! dropped. Keys compare equal when they agree after mapping `-` to `_`.
use crate::text::{
    chars_equal, chars_of, copy_bytes, copy_chars, find_byte, find_char, first_where,
    index_from, lemma_index_from_bounds, opt_bytes, opt_bytes_equal, opt_chars, strip_outer,
};
use vstd::prelude::*;
use vstd::string::*;
use vstd::utf8::*;

verus! {

pub open spec fn is_ascii_space(b: u8) -> bool {
    b == 0x20u8 || b == 0x09u8 || b == 0x0au8 || b == 0x0cu8 || b == 0x0du8
}

/// Whether a double quote is open after the first `k` bytes of `s`.
pub open spec fn quoted_after(s: Seq<u8>, k: int) -> bool
    decreases k,
{
    if k <= 0 {
        false
    } else {
        quoted_after(s, k - 1) != (s[k - 1] == 0x22u8)
    }
}

/// ASCII white space, as `char::is_ascii_whitespace` has it.
pub open spec fn is_ascii_space_char(c: char) -> bool {
    c == ' ' || c == '\t' || c == '\n' || c == '\u{c}' || c == '\r'
}

/// The byte at `i` separates two parameters.
pub open spec fn splits_at(s: Seq<u8>, i: int) -> bool {
    !quoted_after(s, i + 1) && is_ascii_space(s[i])
}

/// The pieces of `s`, where the current piece began at `start` and `i` is the
/// next byte to look at.
pub open spec fn pieces_from(s: Seq<u8>, start: int, i: int) -> Seq<Seq<u8>>
    decreases s.len() - i,
{
    if i >= s.len() {
        nonempty_piece(s.subrange(start, s.len() as int))
    } else if splits_at(s, i) {
        nonempty_piece(s.subrange(start, i)) + pieces_from(s, i + 1, i + 1)
    } else {
        pieces_from(s, start, i + 1)
    }
}

/// `[p]`, or nothing when `p` is empty.
pub open spec fn nonempty_piece(p: Seq<u8>) -> Seq<Seq<u8>> {
    if p.len() == 0 {
        seq![]
    } else {
        seq![p]
    }
}

/// The raw parameters of a command line, in order; runs of white space make
/// no empty parameters.
pub open spec fn tokens(s: Seq<u8>) -> Seq<Seq<u8>> {
    pieces_from(s, 0, 0)
}

/// The key of a parameter: everything before the first `=`.
pub open spec fn key_of<A>(t: Seq<A>, eq: A) -> Seq<A> {
    let k = index_from(t, eq, 0);
    if k < 0 {
        t
    } else {
        t.take(k)
    }
}

/// The value of a parameter: what follows the first `=`, outer quotes removed.
pub open spec fn value_of_token<A>(t: Seq<A>, eq: A, quote: A) -> Option<Seq<A>> {
    let k = index_from(t, eq, 0);
    if k < 0 {
        None
    } else {
        Some(strip_outer(t.skip(k + 1), quote))
    }
}

pub open spec fn param_key(t: Seq<u8>) -> Seq<u8> {
    key_of(t, 0x3du8)
}

pub open spec fn param_value(t: Seq<u8>) -> Option<Seq<u8>> {
    value_of_token(t, 0x3du8, 0x22u8)
}

pub open spec fn str_key(t: Seq<char>) -> Seq<char> {
    key_of(t, '=')
}

pub open spec fn str_value(t: Seq<char>) -> Option<Seq<char>> {
    value_of_token(t, '=', '"')
}

pub open spec fn dedash(b: u8) -> u8 {
    if b == 0x2du8 {
        0x5fu8
    } else {
        b
    }
}

pub open spec fn dedash_char(c: char) -> char {
    if c == '-' {
        '_'
    } else {
        c
    }
}

/// Two keys are the same when they agree after mapping `-` to `_`.
pub open spec fn keys_match(a: Seq<u8>, b: Seq<u8>) -> bool {
    &&& a.len() == b.len()
    &&& forall|i: int| 0 <= i < a.len() ==> dedash(#[trigger] a[i]) == dedash(b[i])
}

/// Same as [`keys_match`], on characters.
pub open spec fn keys_match_chars(a: Seq<char>, b: Seq<char>) -> bool {
    &&& a.len() == b.len()
    &&& forall|i: int| 0 <= i < a.len() ==> dedash_char(#[trigger] a[i]) == dedash_char(b[i])
}

/// Holds of the raw parameters whose key is `key`.
pub open spec fn key_is(key: Seq<u8>) -> spec_fn(Seq<u8>) -> bool {
    |t: Seq<u8>| keys_match(param_key(t), key)
}

/// Holds of the raw parameters that are UTF-8 and whose key is `key`.
pub open spec fn str_key_is(key: Seq<char>) -> spec_fn(Seq<u8>) -> bool {
    |t: Seq<u8>| valid_utf8(t) && keys_match_chars(str_key(decode_utf8(t)), key)
}

/// Index of the first parameter of `s` with key `key`, or -1.
pub open spec fn find_index(s: Seq<u8>, key: Seq<u8>) -> int {
    first_where(tokens(s), key_is(key), 0)
}

/// The value of the first parameter of `s` with key `key`, if that exists
/// and has a value.
pub open spec fn lookup(s: Seq<u8>, key: Seq<u8>) -> Option<Seq<u8>> {
    let k = find_index(s, key);
    if k < 0 {
        None
    } else {
        param_value(tokens(s)[k])
    }
}

/// The UTF-8 parameters among `toks` whose key starts with `prefix`, decoded.
pub open spec fn prefixed(toks: Seq<Seq<u8>>, prefix: Seq<char>) -> Seq<Seq<char>>
    decreases toks.len(),
{
    if toks.len() == 0 {
        seq![]
    } else {
        let rest = prefixed(toks.drop_last(), prefix);
        let t = toks.last();
        if valid_utf8(t) && prefix.is_prefix_of(str_key(decode_utf8(t))) {
            rest.push(decode_utf8(t))
        } else {
            rest
        }
    }
}

/// What `String::from_utf8_lossy` makes of `b`.
pub uninterp spec fn lossy_of(b: Seq<u8>) -> Seq<char>;

/// Relies on `std::str::from_utf8`: it succeeds exactly on valid UTF-8, and
/// then holds the decoded characters.
#[verifier::external_body]
pub(crate) fn decode_bytes(b: &[u8]) -> (r: Option<String>)
    ensures
        r is Some <==> valid_utf8(b@),
        r matches Some(s) ==> s@ == decode_utf8(b@),
{
    std::str::from_utf8(b).ok().map(|s| s.to_string())
}

/// Relies on `String::from_utf8_lossy`: valid UTF-8 is decoded as it is,
/// anything else is replaced by U+FFFD.
#[verifier::external_body]
pub(crate) fn lossy_string(b: &[u8]) -> (r: String)
    ensures
        r@ == lossy_of(b@),
        valid_utf8(b@) ==> r@ == decode_utf8(b@),
{
    String::from_utf8_lossy(b).into_owned()
}

/// Why a lookup on the command line failed.
#[derive(Debug)]
pub enum CmdlineError {
    /// The value found is not UTF-8.
    InvalidUtf8,
    /// No parameter with this key, or one without a value.
    MissingArgument(String),
}

impl CmdlineError {
    /// A message for people.
    pub fn to_string(&self) -> (r: String)
        ensures
            self matches CmdlineError::MissingArgument(k) ==> r@ == "Failed to find kernel argument '"@
                + k@ + "'"@,
    {
        match self {
            CmdlineError::InvalidUtf8 => String::from_str("invalid utf-8 sequence"),
            CmdlineError::MissingArgument(k) => {
                let m = String::from_str("Failed to find kernel argument '");
                let m = m.concat(k.as_str());
                m.concat("'")
            },
        }
    }
}

/// Key-wise equality with `-` and `_` taken as the same byte.
fn keys_equal(a: &[u8], b: &[u8]) -> (r: bool)
    ensures
        r == keys_match(a@, b@),
{
    if a.len() != b.len() {
        return false;
    }
    let mut i: usize = 0;
    while i < a.len()
        invariant
            a@.len() == b@.len(),
            i <= a@.len(),
            forall|j: int| 0 <= j < i ==> dedash(#[trigger] a@[j]) == dedash(b@[j]),
        decreases a@.len() - i,
    {
        let x = if a[i] == 0x2du8 {
            0x5fu8
        } else {
            a[i]
        };
        let y = if b[i] == 0x2du8 {
            0x5fu8
        } else {
            b[i]
        };
        if x != y {
            return false;
        }
        i = i + 1;
    }
    true
}

/// Same as [`keys_equal`], on characters.
fn keys_equal_chars(a: &Vec<char>, b: &Vec<char>) -> (r: bool)
    ensures
        r == keys_match_chars(a@, b@),
{
    if a.len() != b.len() {
        return false;
    }
    let mut i: usize = 0;
    while i < a.len()
        invariant
            a@.len() == b@.len(),
            i <= a@.len(),
            forall|j: int| 0 <= j < i ==> dedash_char(#[trigger] a@[j]) == dedash_char(b@[j]),
        decreases a@.len() - i,
    {
        let x = if a[i] == '-' {
            '_'
        } else {
            a[i]
        };
        let y = if b[i] == '-' {
            '_'
        } else {
            b[i]
        };
        if x != y {
            return false;
        }
        i = i + 1;
    }
    true
}

/// Whether `p` is a prefix of `s`.
fn starts_with_chars(s: &Vec<char>, p: &Vec<char>) -> (r: bool)
    ensures
        r == p@.is_prefix_of(s@),
{
    if p.len() > s.len() {
        return false;
    }
    let mut i: usize = 0;
    while i < p.len()
        invariant
            p@.len() <= s@.len(),
            i <= p@.len(),
            forall|j: int| 0 <= j < i ==> p@[j] == s@[j],
        decreases p@.len() - i,
    {
        if p[i] != s[i] {
            return false;
        }
        i = i + 1;
    }
    assert(p@ =~= s@.take(p@.len() as int));
    true
}

/// A parameter key, compared with `-` and `_` taken as equal.
#[derive(Debug)]
pub struct ParameterKey(pub Vec<u8>);

impl PartialEq for ParameterKey {
    fn eq(&self, other: &ParameterKey) -> (r: bool) {
        keys_equal(self.0.as_slice(), other.0.as_slice())
    }
}

impl vstd::std_specs::cmp::PartialEqSpecImpl for ParameterKey {
    open spec fn obeys_eq_spec() -> bool {
        true
    }

    open spec fn eq_spec(&self, other: &ParameterKey) -> bool {
        keys_match(self.0@, other.0@)
    }
}

/// A UTF-8 parameter key, compared as [`ParameterKey`] is.
#[derive(Debug)]
pub struct ParameterKeyStr(pub String);

impl ParameterKeyStr {
    pub fn from(value: &str) -> (r: ParameterKeyStr)
        ensures
            r.0@ == value@,
    {
        ParameterKeyStr(value.to_owned())
    }
}

impl PartialEq for ParameterKeyStr {
    fn eq(&self, other: &ParameterKeyStr) -> (r: bool) {
        let a = chars_of(self.0.as_str());
        let b = chars_of(other.0.as_str());
        keys_equal_chars(&a, &b)
    }
}

impl vstd::std_specs::cmp::PartialEqSpecImpl for ParameterKeyStr {
    open spec fn obeys_eq_spec() -> bool {
        true
    }

    open spec fn eq_spec(&self, other: &ParameterKeyStr) -> bool {
        keys_match_chars(self.0@, other.0@)
    }
}

/// A single kernel command line parameter.
#[derive(Debug)]
pub struct Parameter {
    /// The full original bytes.
    pub parameter: Vec<u8>,
    /// The key.
    pub key: ParameterKey,
    /// The value, if there is an `=`.
    pub value: Option<Vec<u8>>,
}

impl Parameter {
    /// `self` is the parameter read from the raw bytes `t`.
    pub open spec fn models(&self, t: Seq<u8>) -> bool {
        &&& self.parameter@ == t
        &&& self.key.0@ == param_key(t)
        &&& opt_bytes(self.value) == param_value(t)
    }

    /// Parses a parameter: split on the first `=`, only the outermost double
    /// quotes of the value removed, the whole input the key if there is no `=`.
    pub fn from(input: &[u8]) -> (r: Parameter)
        ensures
            r.models(input@),
    {
        let t = input;
        match find_byte(t, 0x3du8) {
            None => {
                assert(t@.subrange(0, t@.len() as int) =~= t@);
                Parameter {
                    parameter: copy_bytes(t, 0, t.len()),
                    key: ParameterKey(copy_bytes(t, 0, t.len())),
                    value: None,
                }
            },
            Some(k) => {
                proof {
                    lemma_index_from_bounds(t@, 0x3du8, 0);
                }
                let n = t.len();
                let s = k + 1;
                let (a, b) = if n - s >= 2 && t[s] == 0x22u8 && t[n - 1] == 0x22u8 {
                    (s + 1, n - 1)
                } else {
                    (s, n)
                };
                let value = copy_bytes(t, a, b);
                let ghost v = t@.skip(k + 1);
                assert(value@ =~= strip_outer(v, 0x22u8));
                assert(t@.subrange(0, k as int) =~= t@.take(k as int));
                assert(t@.subrange(0, n as int) =~= t@);
                Parameter {
                    parameter: copy_bytes(t, 0, n),
                    key: ParameterKey(copy_bytes(t, 0, k)),
                    value: Some(value),
                }
            },
        }
    }

    /// A parameter with the given key and value.
    pub fn new_kv(key: &[u8], value: &[u8]) -> (r: Parameter)
        ensures
            r.key.0@ == key@,
            opt_bytes(r.value) == Some(value@),
    {
        let mut parameter = copy_bytes(key, 0, key.len());
        parameter.push(0x3du8);
        let mut v = copy_bytes(value, 0, value.len());
        parameter.append(&mut v);
        Parameter {
            parameter,
            key: ParameterKey(copy_bytes(key, 0, key.len())),
            value: Some(copy_bytes(value, 0, value.len())),
        }
    }

    /// A parameter with the given key and no value.
    pub fn new_key(key: &[u8]) -> (r: Parameter)
        ensures
            r.key.0@ == key@,
            r.value is None,
    {
        Parameter {
            parameter: copy_bytes(key, 0, key.len()),
            key: ParameterKey(copy_bytes(key, 0, key.len())),
            value: None,
        }
    }

    /// The key, with invalid UTF-8 replaced.
    pub fn key_lossy(&self) -> (r: String)
        ensures
            r@ == lossy_of(self.key.0@),
            valid_utf8(self.key.0@) ==> r@ == decode_utf8(self.key.0@),
    {
        lossy_string(self.key.0.as_slice())
    }

    /// The value, with invalid UTF-8 replaced; empty when there is none.
    pub fn value_lossy(&self) -> (r: String)
        ensures
            self.value matches Some(v) ==> r@ == lossy_of(v@),
            self.value is None ==> r@ == lossy_of(Seq::<u8>::empty()),
    {
        match &self.value {
            Some(v) => lossy_string(v.as_slice()),
            None => {
                let empty: Vec<u8> = Vec::new();
                lossy_string(empty.as_slice())
            },
        }
    }

    /// The parameter as text: `key`, or `key=value` with the value in double
    /// quotes when it holds ASCII white space; invalid UTF-8 replaced.
    pub fn to_string(&self) -> (r: String)
        ensures
            self.value is None ==> r@ == lossy_of(self.key.0@),
            self.value matches Some(v) ==> r@ == lossy_of(self.key.0@) + seq!['='] + (if exists|i: int|
                0 <= i < lossy_of(v@).len() && is_ascii_space_char(#[trigger] lossy_of(v@)[i]) {
                seq!['"'] + lossy_of(v@) + seq!['"']
            } else {
                lossy_of(v@)
            }),
    {
        proof {
            reveal_strlit("=");
            reveal_strlit("\"");
        }
        let key = self.key_lossy();
        match &self.value {
            None => key,
            Some(v) => {
                let value = lossy_string(v.as_slice());
                let cs = chars_of(value.as_str());
                let mut i: usize = 0;
                let mut spaced = false;
                while i < cs.len()
                    invariant
                        i <= cs@.len(),
                        cs@ == value@,
                        spaced == exists|j: int| 0 <= j < i && is_ascii_space_char(#[trigger] cs@[j]),
                    decreases cs@.len() - i,
                {
                    let c = cs[i];
                    if c == ' ' || c == '\t' || c == '\n' || c == '\u{c}' || c == '\r' {
                        assert(is_ascii_space_char(cs@[i as int]));
                        spaced = true;
                    }
                    i = i + 1;
                }
                proof {
                    reveal_strlit("=\"");
                }
                let ghost k = key@;
                if spaced {
                    let r = key.concat("=\"").concat(value.as_str()).concat("\"");
                    assert("=\""@ =~= seq!['=', '"']);
                    assert(r@ =~= k + seq!['='] + (seq!['"'] + value@ + seq!['"']));
                    r
                } else {
                    let r = key.concat("=").concat(value.as_str());
                    assert(r@ =~= k + seq!['='] + value@);
                    r
                }
            },
        }
    }

    /// The same parameter as UTF-8 text, if it is valid UTF-8.
    pub fn to_str(&self) -> (r: Option<ParameterStr>)
        ensures
            r is Some <==> valid_utf8(self.parameter@),
            r matches Some(p) ==> p.models(decode_utf8(self.parameter@)),
    {
        match decode_bytes(self.parameter.as_slice()) {
            None => None,
            Some(s) => Some(ParameterStr::from(s.as_str())),
        }
    }
}

impl PartialEq for Parameter {
    fn eq(&self, other: &Parameter) -> (r: bool) {
        keys_equal(self.key.0.as_slice(), other.key.0.as_slice()) && opt_bytes_equal(
            &self.value,
            &other.value,
        )
    }
}

impl vstd::std_specs::cmp::PartialEqSpecImpl for Parameter {
    open spec fn obeys_eq_spec() -> bool {
        true
    }

    open spec fn eq_spec(&self, other: &Parameter) -> bool {
        same_parameter(self, other)
    }
}

/// Parameters are equal when their keys match and their values are the same bytes.
pub open spec fn same_parameter(a: &Parameter, b: &Parameter) -> bool {
    keys_match(a.key.0@, b.key.0@) && opt_bytes(a.value) == opt_bytes(b.value)
}

/// `t` with every `-` replaced by `_`.
pub open spec fn dedash_all(t: Seq<u8>) -> Seq<u8> {
    t.map_values(|b: u8| dedash(b))
}

proof fn lemma_index_from_dedashed(t1: Seq<u8>, t2: Seq<u8>, i: int)
    requires
        dedash_all(t1) == dedash_all(t2),
        0 <= i,
    ensures
        index_from(t1, 0x3du8, i) == index_from(t2, 0x3du8, i),
    decreases t1.len() - i,
{
    assert(t1.len() == dedash_all(t1).len());
    assert(t2.len() == dedash_all(t2).len());
    if i < t1.len() {
        assert(dedash_all(t1)[i] == dedash(t1[i]));
        assert(dedash_all(t2)[i] == dedash(t2[i]));
        assert((t1[i] == 0x3du8) == (t2[i] == 0x3du8));
        lemma_index_from_dedashed(t1, t2, i + 1);
    }
}

/// Two parameters whose raw bytes agree once every `-` is mapped to `_` are
/// equal, as long as their values agree: values are compared byte for byte, so
/// `a-b=x-y` and `a_b=x_y` differ.
pub proof fn lemma_dedashed_parameters_equal(t1: Seq<u8>, t2: Seq<u8>, p1: Parameter, p2: Parameter)
    requires
        p1.models(t1),
        p2.models(t2),
        dedash_all(t1) == dedash_all(t2),
        param_value(t1) == param_value(t2),
    ensures
        same_parameter(&p1, &p2),
{
    lemma_index_from_dedashed(t1, t2, 0);
    let k1 = param_key(t1);
    let k2 = param_key(t2);
    assert(t1.len() == dedash_all(t1).len());
    assert(t2.len() == dedash_all(t2).len());
    lemma_index_from_bounds(t1, 0x3du8, 0);
    lemma_index_from_bounds(t2, 0x3du8, 0);
    assert(k1.len() == k2.len());
    assert forall|i: int| 0 <= i < k1.len() implies dedash(#[trigger] k1[i]) == dedash(k2[i]) by {
        assert(k1[i] == t1[i]);
        assert(k2[i] == t2[i]);
        assert(dedash_all(t1)[i] == dedash(t1[i]));
        assert(dedash_all(t2)[i] == dedash(t2[i]));
    }
}

/// A single kernel command line parameter that is UTF-8 text.
#[derive(Debug)]
pub struct ParameterStr {
    /// The full original text.
    pub parameter: String,
    /// The key.
    pub key: ParameterKeyStr,
    /// The value, if there is an `=`.
    pub value: Option<String>,
}

impl ParameterStr {
    /// `self` is the parameter read from the text `t`.
    pub open spec fn models(&self, t: Seq<char>) -> bool {
        &&& self.parameter@ == t
        &&& self.key.0@ == str_key(t)
        &&& opt_chars(self.value) == str_value(t)
    }

    /// Parses a parameter from text, as [`Parameter::from`] does from bytes.
    pub fn from(parameter: &str) -> (r: ParameterStr)
        ensures
            r.models(parameter@),
    {
        let t = chars_of(parameter);
        match find_char(&t, '=') {
            None => ParameterStr {
                parameter: parameter.to_owned(),
                key: ParameterKeyStr(parameter.to_owned()),
                value: None,
            },
            Some(k) => {
                proof {
                    lemma_index_from_bounds(t@, '=', 0);
                }
                let n = t.len();
                let s = k + 1;
                let (a, b) = if n - s >= 2 && t[s] == '"' && t[n - 1] == '"' {
                    (s + 1, n - 1)
                } else {
                    (s, n)
                };
                let value = copy_chars(parameter, a, b);
                let ghost v = t@.skip(k + 1);
                assert(value@ =~= strip_outer(v, '"'));
                assert(parameter@.subrange(0, k as int) =~= t@.take(k as int));
                ParameterStr {
                    parameter: parameter.to_owned(),
                    key: ParameterKeyStr(copy_chars(parameter, 0, k)),
                    value: Some(value),
                }
            },
        }
    }

    /// The full text of the parameter.
    pub fn as_ref(&self) -> (r: &str)
        ensures
            r@ == self.parameter@,
    {
        self.parameter.as_str()
    }
}

impl PartialEq for ParameterStr {
    fn eq(&self, other: &ParameterStr) -> (r: bool) {
        let a = chars_of(self.parameter.as_str());
        let b = chars_of(other.parameter.as_str());
        let ka = chars_of(self.key.0.as_str());
        let kb = chars_of(other.key.0.as_str());
        let same_value = match (&self.value, &other.value) {
            (None, None) => true,
            (Some(x), Some(y)) => {
                let x = chars_of(x.as_str());
                let y = chars_of(y.as_str());
                chars_equal(&x, &y)
            },
            _ => false,
        };
        chars_equal(&a, &b) && keys_equal_chars(&ka, &kb) && same_value
    }
}

impl vstd::std_specs::cmp::PartialEqSpecImpl for ParameterStr {
    open spec fn obeys_eq_spec() -> bool {
        true
    }

    open spec fn eq_spec(&self, other: &ParameterStr) -> bool {
        &&& self.parameter@ == other.parameter@
        &&& keys_match_chars(self.key.0@, other.key.0@)
        &&& opt_chars(self.value) == opt_chars(other.value)
    }
}

/// A kernel command line, as raw bytes.
#[derive(Debug)]
pub struct Cmdline(pub Vec<u8>);

impl Cmdline {
    pub open spec fn view(&self) -> Seq<u8> {
        self.0@
    }

    /// A command line holding a copy of `input`.
    pub fn from(input: &[u8]) -> (r: Cmdline)
        ensures
            r@ == input@,
    {
        Cmdline(copy_bytes(input, 0, input.len()))
    }

    /// All parameters, in order: the line is split on ASCII whitespace that
    /// is not inside double quotes.
    pub fn iter(&self) -> (r: Vec<Parameter>)
        ensures
            r@.len() == tokens(self@).len(),
            forall|j: int| 0 <= j < r@.len() ==> (#[trigger] r@[j]).models(tokens(self@)[j]),
    {
        let s = self.0.as_slice();
        let n = s.len();
        let mut out: Vec<Parameter> = Vec::new();
        let mut start: usize = 0;
        let mut i: usize = 0;
        let mut in_quotes = false;
        let ghost mut done: Seq<Seq<u8>> = seq![];
        while i < n
            invariant
                n == s@.len(),
                s@ == self@,
                start <= i <= n,
                in_quotes == quoted_after(s@, i as int),
                done + pieces_from(s@, start as int, i as int) == tokens(s@),
                out@.len() == done.len(),
                forall|j: int| 0 <= j < out@.len() ==> (#[trigger] out@[j]).models(done[j]),
            decreases n - i,
        {
            if s[i] == 0x22u8 {
                in_quotes = !in_quotes;
            }
            let c = s[i];
            let sep = !in_quotes && (c == 0x20u8 || c == 0x09u8 || c == 0x0au8 || c == 0x0cu8
                || c == 0x0du8);
            if sep {
                let ghost piece = s@.subrange(start as int, i as int);
                if start < i {
                    let p = Parameter::from(slice_part(s, start, i));
                    proof {
                        assert(done + pieces_from(s@, start as int, i as int) =~= done.push(piece)
                            + pieces_from(s@, i + 1, i + 1));
                        done = done.push(piece);
                    }
                    out.push(p);
                } else {
                    assert(done + pieces_from(s@, start as int, i as int) =~= done + pieces_from(
                        s@,
                        i + 1,
                        i + 1,
                    ));
                }
                start = i + 1;
            }
            i = i + 1;
        }
        let ghost piece = s@.subrange(start as int, n as int);
        if start < n {
            let p = Parameter::from(slice_part(s, start, n));
            proof {
                assert(done + pieces_from(s@, start as int, n as int) =~= done.push(piece));
                done = done.push(piece);
            }
            out.push(p);
        } else {
            assert(done + pieces_from(s@, start as int, n as int) =~= done);
        }
        out
    }

    /// The first parameter whose key is `key`.
    pub fn find(&self, key: &[u8]) -> (r: Option<Parameter>)
        ensures
            find_index(self@, key@) < 0 ==> r is None,
            find_index(self@, key@) >= 0 ==> (r matches Some(p) && p.models(
                tokens(self@)[find_index(self@, key@)],
            )),
    {
        let mut params = self.iter();
        let ghost toks = tokens(self@);
        let mut j: usize = 0;
        while j < params.len()
            invariant
                params@.len() == toks.len(),
                toks == tokens(self@),
                forall|m: int| 0 <= m < params@.len() ==> (#[trigger] params@[m]).models(toks[m]),
                j <= params@.len(),
                first_where(toks, key_is(key@), 0) == first_where(toks, key_is(key@), j as int),
            decreases params@.len() - j,
        {
            if keys_equal(params[j].key.0.as_slice(), key) {
                assert(key_is(key@)(toks[j as int]));
                return Some(params.remove(j));
            }
            j = j + 1;
        }
        None
    }

    /// The first parameter that is UTF-8 and whose key is `key`.
    pub fn find_str(&self, key: &str) -> (r: Option<ParameterStr>)
        ensures
            first_where(tokens(self@), str_key_is(key@), 0) < 0 ==> r is None,
            first_where(tokens(self@), str_key_is(key@), 0) >= 0 ==> (r matches Some(p) && p.models(
                decode_utf8(tokens(self@)[first_where(tokens(self@), str_key_is(key@), 0)]),
            )),
    {
        let params = self.iter();
        let want = chars_of(key);
        let ghost toks = tokens(self@);
        let mut j: usize = 0;
        while j < params.len()
            invariant
                params@.len() == toks.len(),
                toks == tokens(self@),
                want@ == key@,
                forall|m: int| 0 <= m < params@.len() ==> (#[trigger] params@[m]).models(toks[m]),
                j <= params@.len(),
                first_where(toks, str_key_is(key@), 0) == first_where(
                    toks,
                    str_key_is(key@),
                    j as int,
                ),
            decreases params@.len() - j,
        {
            match params[j].to_str() {
                Some(p) => {
                    let k = chars_of(p.key.0.as_str());
                    if keys_equal_chars(&k, &want) {
                        assert(str_key_is(key@)(toks[j as int]));
                        return Some(p);
                    }
                },
                None => {},
            }
            j = j + 1;
        }
        None
    }

    /// All parameters that are UTF-8 and whose key starts with `prefix`, in order.
    pub fn find_all_starting_with_str(&self, prefix: &str) -> (r: Vec<ParameterStr>)
        ensures
            r@.len() == prefixed(tokens(self@), prefix@).len(),
            forall|j: int| 0 <= j < r@.len() ==> (#[trigger] r@[j]).models(
                prefixed(tokens(self@), prefix@)[j],
            ),
    {
        let params = self.iter();
        let want = chars_of(prefix);
        let ghost toks = tokens(self@);
        let mut out: Vec<ParameterStr> = Vec::new();
        let mut j: usize = 0;
        while j < params.len()
            invariant
                params@.len() == toks.len(),
                toks == tokens(self@),
                want@ == prefix@,
                forall|m: int| 0 <= m < params@.len() ==> (#[trigger] params@[m]).models(toks[m]),
                j <= params@.len(),
                out@.len() == prefixed(toks.take(j as int), prefix@).len(),
                forall|m: int| 0 <= m < out@.len() ==> (#[trigger] out@[m]).models(
                    prefixed(toks.take(j as int), prefix@)[m],
                ),
            decreases params@.len() - j,
        {
            assert(toks.take(j + 1).drop_last() =~= toks.take(j as int));
            match params[j].to_str() {
                Some(p) => {
                    let k = chars_of(p.key.0.as_str());
                    if starts_with_chars(&k, &want) {
                        out.push(p);
                    }
                },
                None => {},
            }
            j = j + 1;
        }
        assert(toks.take(j as int) =~= toks);
        out
    }

    /// The value of the first parameter whose key is `key`.
    pub fn value_of(&self, key: &[u8]) -> (r: Option<Vec<u8>>)
        ensures
            opt_bytes(r) == lookup(self@, key@),
    {
        match self.find(key) {
            Some(p) => p.value,
            None => None,
        }
    }

    /// Same as [`Self::value_of`], with the value decoded as UTF-8.
    pub fn value_of_utf8(&self, key: &str) -> (r: Result<Option<String>, CmdlineError>)
        ensures
            lookup(self@, key.spec_bytes()) is None ==> r matches Ok(None),
            lookup(self@, key.spec_bytes()) matches Some(v) ==> {
                &&& valid_utf8(v) ==> (r matches Ok(Some(x)) && x@ == decode_utf8(v))
                &&& !valid_utf8(v) ==> r matches Err(CmdlineError::InvalidUtf8)
            },
    {
        match self.value_of(key.as_bytes()) {
            None => Ok(None),
            Some(v) => match decode_bytes(v.as_slice()) {
                Some(s) => Ok(Some(s)),
                None => Err(CmdlineError::InvalidUtf8),
            },
        }
    }

    /// Same as [`Self::value_of`], with a missing value an error.
    pub fn require_value_of(&self, key: &[u8]) -> (r: Result<Vec<u8>, CmdlineError>)
        ensures
            lookup(self@, key@) matches Some(v) ==> (r matches Ok(x) && x@ == v),
            lookup(self@, key@) is None ==> (r matches Err(CmdlineError::MissingArgument(k)) && k@
                == lossy_of(key@)),
    {
        match self.value_of(key) {
            Some(v) => Ok(v),
            None => Err(CmdlineError::MissingArgument(lossy_string(key))),
        }
    }

    /// Same as [`Self::value_of_utf8`], with a missing value an error.
    pub fn require_value_of_utf8(&self, key: &str) -> (r: Result<String, CmdlineError>)
        ensures
            lookup(self@, key.spec_bytes()) is None ==> (r matches Err(
                CmdlineError::MissingArgument(k),
            ) && k@ == key@),
            lookup(self@, key.spec_bytes()) matches Some(v) ==> {
                &&& valid_utf8(v) ==> (r matches Ok(x) && x@ == decode_utf8(v))
                &&& !valid_utf8(v) ==> r matches Err(CmdlineError::InvalidUtf8)
            },
    {
        match self.value_of_utf8(key) {
            Ok(Some(v)) => Ok(v),
            Ok(None) => Err(CmdlineError::MissingArgument(key.to_owned())),
            Err(e) => Err(e),
        }
    }
}

/// `s[from..to]`, borrowed.
fn slice_part(s: &[u8], from: usize, to: usize) -> (r: &[u8])
    requires
        from <= to <= s@.len(),
    ensures
        r@ == s@.subrange(from as int, to as int),
{
    vstd::slice::slice_subrange(s, from, to)
}

} // verus!
