//! GRUB `menuentry` blocks, as written for chainloading unified kernel images.
//!
//! A file is scanned for `menuentry "<title>" { <body> }` blocks; other text
//! between blocks is skipped. The title keeps its backslash escapes. The body
//! runs to the brace that closes the block, nested braces and escaped
//! characters included, and is read line by line as `key value` pairs.
use crate::bls::{
    all_values, entries, entry_pairs, extra_view, last_value, line_of, strings_view,
};
use crate::text::{chars_of, copy_chars};
use vstd::prelude::*;
use vstd::string::*;

verus! {

pub open spec fn word_menuentry() -> Seq<char> {
    seq!['m', 'e', 'n', 'u', 'e', 'n', 't', 'r', 'y']
}

pub open spec fn word_insmod() -> Seq<char> {
    seq!['i', 'n', 's', 'm', 'o', 'd']
}

pub open spec fn word_chainloader() -> Seq<char> {
    seq!['c', 'h', 'a', 'i', 'n', 'l', 'o', 'a', 'd', 'e', 'r']
}

pub open spec fn word_search() -> Seq<char> {
    seq!['s', 'e', 'a', 'r', 'c', 'h']
}

pub open spec fn word_set() -> Seq<char> {
    seq!['s', 'e', 't']
}

/// `pat` stands in `s` at `i`.
pub open spec fn match_at(s: Seq<char>, pat: Seq<char>, i: int) -> bool {
    0 <= i && i + pat.len() <= s.len() && s.subrange(i, i + pat.len()) == pat
}

/// First position at or after `i` where `pat` stands, or -1.
pub open spec fn find_from(s: Seq<char>, pat: Seq<char>, i: int) -> int
    decreases s.len() + 2 - i,
{
    if i < 0 || i >= s.len() || i + pat.len() > s.len() {
        -1
    } else if match_at(s, pat, i) {
        i
    } else {
        find_from(s, pat, i + 1)
    }
}

/// The white space that separates tokens: space, tab, carriage return, newline.
pub open spec fn is_blank(c: char) -> bool {
    c == ' ' || c == '\t' || c == '\r' || c == '\n'
}

/// First position at or after `i` that is not blank.
pub open spec fn skip_blank(s: Seq<char>, i: int) -> int
    decreases s.len() - i,
{
    if 0 <= i < s.len() && is_blank(s[i]) {
        skip_blank(s, i + 1)
    } else {
        i
    }
}

/// Position of the quote that closes a title begun at `i`, a backslash
/// escaping the character after it; -1 if there is none.
pub open spec fn title_end(s: Seq<char>, i: int) -> int
    decreases s.len() + 2 - i,
{
    if i < 0 || i >= s.len() {
        -1
    } else if s[i] == '"' {
        i
    } else if s[i] == '\\' {
        title_end(s, i + 2)
    } else {
        title_end(s, i + 1)
    }
}

/// Position of the `}` that closes a body begun at `i` with `depth` braces
/// open inside it, a backslash escaping the character after it; -1 if there
/// is none.
pub open spec fn body_end(s: Seq<char>, i: int, depth: nat) -> int
    decreases s.len() + 2 - i,
{
    if i < 0 || i >= s.len() {
        -1
    } else if s[i] == '\\' {
        body_end(s, i + 2, depth)
    } else if s[i] == '{' {
        body_end(s, i + 1, depth + 1)
    } else if s[i] == '}' {
        if depth == 0 {
            i
        } else {
            body_end(s, i + 1, (depth - 1) as nat)
        }
    } else {
        body_end(s, i + 1, depth)
    }
}

/// The block at `i` (where `menuentry` stands): its title, its body, and the
/// position after its closing brace.
pub open spec fn block_at(s: Seq<char>, i: int) -> Option<(Seq<char>, Seq<char>, int)> {
    let j = i + 9;
    let k = skip_blank(s, j);
    let te = title_end(s, k + 1);
    let b = skip_blank(s, te + 1);
    let be = body_end(s, b + 1, 0);
    if !(j < s.len() && is_blank(s[j])) {
        None
    } else if !(k < s.len() && s[k] == '"') {
        None
    } else if te < 0 {
        None
    } else if !(b < s.len() && s[b] == '{') {
        None
    } else if be < 0 {
        None
    } else {
        Some((s.subrange(k + 1, te), s.subrange(b + 1, be), be + 1))
    }
}

/// `t` is all white space.
pub open spec fn all_space(t: Seq<char>) -> bool {
    forall|m: int| 0 <= m < t.len() ==> crate::bls::is_space(#[trigger] t[m])
}

/// The blocks from `i` on, where `menuentry` stands at `i` unless only white
/// space is left; `None` when one is malformed.
pub open spec fn blocks_from(s: Seq<char>, i: int) -> Option<Seq<(Seq<char>, Seq<char>)>>
    decreases s.len() - i,
{
    if i < 0 || i > s.len() || all_space(s.skip(i)) {
        Some(seq![])
    } else {
        match block_at(s, i) {
            None => None,
            Some((title, body, next)) => {
                let m = find_from(s, word_menuentry(), skip_blank(s, next));
                if i < m <= s.len() {
                    match blocks_from(s, m) {
                        None => None,
                        Some(rest) => Some(seq![(title, body)] + rest),
                    }
                } else {
                    Some(seq![(title, body)])
                }
            },
        }
    }
}

/// The blocks of a file: none if `menuentry` never occurs.
pub open spec fn blocks(s: Seq<char>) -> Option<Seq<(Seq<char>, Seq<char>)>> {
    let m = find_from(s, word_menuentry(), 0);
    if m < 0 {
        Some(seq![])
    } else {
        blocks_from(s, m)
    }
}

/// The pairs of a body that go to none of the named fields.
pub open spec fn other_pairs(es: Seq<(Seq<char>, Seq<char>)>) -> Seq<(Seq<char>, Seq<char>)>
    decreases es.len(),
{
    if es.len() == 0 {
        seq![]
    } else {
        let k = es.last().0;
        if k == word_insmod() || k == word_chainloader() || k == word_search() || k == word_set() {
            other_pairs(es.drop_last())
        } else {
            other_pairs(es.drop_last()).push(es.last())
        }
    }
}

pub open spec fn value_or_empty(o: Option<Seq<char>>) -> Seq<char> {
    match o {
        Some(v) => v,
        None => seq![],
    }
}

/// The commands of a menu entry.
#[derive(Debug, PartialEq, Eq)]
pub struct MenuentryBody {
    /// Modules to load, in order.
    pub insmod: Vec<String>,
    /// The EFI binary to chainload; empty if none.
    pub chainloader: String,
    /// The `search` arguments; empty if none.
    pub search: String,
    pub version: u8,
    /// Other commands, in order, `set` left out.
    pub extra: Vec<(String, String)>,
}

impl MenuentryBody {
    /// `self` holds what the `key value` pairs `es` say.
    pub open spec fn holds(&self, es: Seq<(Seq<char>, Seq<char>)>) -> bool {
        &&& strings_view(self.insmod@) == all_values(es, word_insmod())
        &&& self.chainloader@ == value_or_empty(last_value(es, word_chainloader()))
        &&& self.search@ == value_or_empty(last_value(es, word_search()))
        &&& self.version == 0
        &&& extra_view(self.extra@) == other_pairs(es)
    }

    /// Sorts the pairs into the fields.
    pub fn from(pairs: Vec<(String, String)>) -> (r: MenuentryBody)
        ensures
            r.holds(extra_view(pairs@)),
    {
        let ghost es = extra_view(pairs@);
        let mut r = MenuentryBody {
            insmod: Vec::new(),
            chainloader: String::new(),
            search: String::new(),
            version: 0,
            extra: Vec::new(),
        };
        let ins = vec!['i', 'n', 's', 'm', 'o', 'd'];
        let chl = vec!['c', 'h', 'a', 'i', 'n', 'l', 'o', 'a', 'd', 'e', 'r'];
        let sea = vec!['s', 'e', 'a', 'r', 'c', 'h'];
        let set = vec!['s', 'e', 't'];
        assert(ins@ =~= word_insmod());
        assert(chl@ =~= word_chainloader());
        assert(sea@ =~= word_search());
        assert(set@ =~= word_set());
        assert(strings_view(r.insmod@) =~= all_values(es.take(0), word_insmod()));
        assert(extra_view(r.extra@) =~= other_pairs(es.take(0)));
        let mut j: usize = 0;
        while j < pairs.len()
            invariant
                j <= pairs@.len(),
                es == extra_view(pairs@),
                ins@ == word_insmod(),
                chl@ == word_chainloader(),
                sea@ == word_search(),
                set@ == word_set(),
                r.holds(es.take(j as int)),
            decreases pairs@.len() - j,
        {
            let ghost before = es.take(j as int);
            let ghost now = es.take(j + 1);
            assert(now.drop_last() =~= before);
            assert(now.last() == (pairs@[j as int].0@, pairs@[j as int].1@));
            let k = chars_of(pairs[j].0.as_str());
            let v = pairs[j].1.clone();
            if crate::text::chars_equal(&k, &ins) {
                r.insmod.push(v);
                assert(strings_view(r.insmod@) =~= all_values(now, word_insmod()));
            } else if crate::text::chars_equal(&k, &chl) {
                r.chainloader = v;
            } else if crate::text::chars_equal(&k, &sea) {
                r.search = v;
            } else if crate::text::chars_equal(&k, &set) {
            } else {
                let ghost old_extra = extra_view(r.extra@);
                r.extra.push((pairs[j].0.clone(), v));
                assert(extra_view(r.extra@) =~= old_extra.push(now.last()));
            }
            j = j + 1;
        }
        assert(es.take(j as int) =~= es);
        r
    }
}

/// A menu entry: a title (escapes kept) and its commands.
#[derive(Debug, PartialEq, Eq)]
pub struct MenuEntry {
    pub title: String,
    pub body: MenuentryBody,
}

/// Why a menu file could not be read.
#[derive(Debug, PartialEq, Eq)]
pub enum GrubError {
    /// A block that starts with `menuentry` is not well formed.
    Malformed,
    /// A block has an empty title.
    EmptyTitle,
}


/// Whether `pat` stands in `cs` at `i`.
fn matches_at(cs: &Vec<char>, pat: &Vec<char>, i: usize) -> (r: bool)
    requires
        i + pat@.len() <= cs@.len(),
    ensures
        r == match_at(cs@, pat@, i as int),
{
    let n = cs.len();
    let mut k: usize = 0;
    while k < pat.len()
        invariant
            n == cs@.len(),
            i + pat@.len() <= cs@.len(),
            k <= pat@.len(),
            forall|m: int| 0 <= m < k ==> cs@[i + m] == pat@[m],
        decreases pat@.len() - k,
    {
        if cs[i + k] != pat[k] {
            assert(cs@.subrange(i as int, i + pat@.len())[k as int] != pat@[k as int]);
            return false;
        }
        k = k + 1;
    }
    assert(cs@.subrange(i as int, i + pat@.len()) =~= pat@);
    true
}

fn find_word(cs: &Vec<char>, pat: &Vec<char>, start: usize) -> (r: Option<usize>)
    ensures
        r is None ==> find_from(cs@, pat@, start as int) == -1,
        r matches Some(m) ==> find_from(cs@, pat@, start as int) == m && start <= m < cs@.len(),
{
    let n = cs.len();
    if pat.len() > n {
        return None;
    }
    let mut i = start;
    while i < n && i <= n - pat.len()
        invariant
            n == cs@.len(),
            pat@.len() <= n,
            start <= i,
            find_from(cs@, pat@, start as int) == find_from(cs@, pat@, i as int),
        decreases n - i,
    {
        if matches_at(cs, pat, i) {
            return Some(i);
        }
        i = i + 1;
    }
    None
}

fn skip_blanks(cs: &Vec<char>, start: usize) -> (r: usize)
    ensures
        r == skip_blank(cs@, start as int),
        start <= r,
        start <= cs@.len() ==> r <= cs@.len(),
{
    let mut i = start;
    while i < cs.len() && (cs[i] == ' ' || cs[i] == '\t' || cs[i] == '\r' || cs[i] == '\n')
        invariant
            start <= i,
            start <= cs@.len() ==> i <= cs@.len(),
            skip_blank(cs@, start as int) == skip_blank(cs@, i as int),
        decreases cs@.len() - i,
    {
        i = i + 1;
    }
    i
}

fn find_title_end(cs: &Vec<char>, start: usize) -> (r: Option<usize>)
    ensures
        r is None ==> title_end(cs@, start as int) == -1,
        r matches Some(t) ==> title_end(cs@, start as int) == t && start <= t < cs@.len(),
{
    let n = cs.len();
    let mut i = start;
    while i < n
        invariant
            n == cs@.len(),
            start <= i,
            title_end(cs@, start as int) == title_end(cs@, i as int),
        decreases n - i,
    {
        if cs[i] == '"' {
            return Some(i);
        }
        if cs[i] == '\\' {
            if i + 1 >= n {
                assert(title_end(cs@, i + 2) == -1);
                return None;
            }
            i = i + 2;
        } else {
            i = i + 1;
        }
    }
    None
}

fn find_body_end(cs: &Vec<char>, start: usize) -> (r: Option<usize>)
    ensures
        r is None ==> body_end(cs@, start as int, 0) == -1,
        r matches Some(t) ==> body_end(cs@, start as int, 0) == t && start <= t < cs@.len(),
{
    let n = cs.len();
    let mut i = start;
    let mut depth: usize = 0;
    while i < n
        invariant
            n == cs@.len(),
            start <= i,
            depth <= i,
            body_end(cs@, start as int, 0) == body_end(cs@, i as int, depth as nat),
        decreases n - i,
    {
        let c = cs[i];
        if c == '\\' {
            if i + 1 >= n {
                assert(body_end(cs@, i + 2, depth as nat) == -1);
                return None;
            }
            i = i + 2;
        } else if c == '{' {
            depth = depth + 1;
            i = i + 1;
        } else if c == '}' {
            if depth == 0 {
                return Some(i);
            }
            depth = depth - 1;
            i = i + 1;
        } else {
            i = i + 1;
        }
    }
    None
}

/// Whether `cs[i..]` is all white space.
fn rest_is_space(cs: &Vec<char>, i: usize) -> (r: bool)
    requires
        i <= cs@.len(),
    ensures
        r == all_space(cs@.skip(i as int)),
{
    let mut j = i;
    while j < cs.len()
        invariant
            i <= j <= cs@.len(),
            forall|m: int| i <= m < j ==> crate::bls::is_space(#[trigger] cs@[m]),
        decreases cs@.len() - j,
    {
        if !crate::bls::is_space_char(cs[j]) {
            assert(!crate::bls::is_space(cs@.skip(i as int)[j - i]));
            return false;
        }
        j = j + 1;
    }
    assert forall|m: int| 0 <= m < cs@.skip(i as int).len() implies crate::bls::is_space(
        #[trigger] cs@.skip(i as int)[m],
    ) by {
        assert(cs@.skip(i as int)[m] == cs@[i + m]);
    }
    true
}

/// The block at `i`: title range, body range, position after it.
fn parse_block(cs: &Vec<char>, i: usize) -> (r: Option<(usize, usize, usize, usize, usize)>)
    requires
        i <= cs@.len(),
    ensures
        r is None ==> block_at(cs@, i as int) is None,
        r matches Some(p) ==> {
            &&& p.0 <= p.1 <= p.2 <= p.3 < p.4 <= cs@.len()
            &&& i < p.4
            &&& block_at(cs@, i as int) == Some(
                (
                    cs@.subrange(p.0 as int, p.1 as int),
                    cs@.subrange(p.2 as int, p.3 as int),
                    p.4 as int,
                ),
            )
        },
{
    let n = cs.len();
    if i > n || n - i <= 9 {
        return None;
    }
    let j = i + 9;
    if !(cs[j] == ' ' || cs[j] == '\t' || cs[j] == '\r' || cs[j] == '\n') {
        return None;
    }
    let k = skip_blanks(cs, j);
    if !(k < n && cs[k] == '"') {
        return None;
    }
    let te = match find_title_end(cs, k + 1) {
        None => {
            return None;
        },
        Some(t) => t,
    };
    let b = skip_blanks(cs, te + 1);
    if !(b < n && cs[b] == '{') {
        return None;
    }
    let be = match find_body_end(cs, b + 1) {
        None => {
            return None;
        },
        Some(t) => t,
    };
    Some((k + 1, te, b + 1, be, be + 1))
}

/// `e` is the block with title and body `tb`.
pub open spec fn entry_model(e: MenuEntry, tb: (Seq<char>, Seq<char>)) -> bool {
    e.title@ == tb.0 && e.body.holds(entries(tb.1))
}

/// The blocks of `s`, none if it is malformed.
pub open spec fn block_list(s: Seq<char>) -> Seq<(Seq<char>, Seq<char>)> {
    match blocks(s) {
        Some(bs) => bs,
        None => seq![],
    }
}

/// Every block has a title.
pub open spec fn titles_nonempty(bs: Seq<(Seq<char>, Seq<char>)>) -> bool {
    forall|j: int| 0 <= j < bs.len() ==> (#[trigger] bs[j]).0.len() > 0
}

/// Reads all `menuentry` blocks of a GRUB configuration file.
pub fn parse_grub_menuentry_file(contents: &str) -> (r: Result<Vec<MenuEntry>, GrubError>)
    ensures
        blocks(contents@) is None ==> r == Err::<Vec<MenuEntry>, GrubError>(GrubError::Malformed),
        blocks(contents@) is Some && !titles_nonempty(block_list(contents@)) ==> r == Err::<
            Vec<MenuEntry>,
            GrubError,
        >(GrubError::EmptyTitle),
        blocks(contents@) is Some && titles_nonempty(block_list(contents@)) ==> (r matches Ok(v)
            && v@.len() == block_list(contents@).len() && forall|j: int|
            0 <= j < v@.len() ==> entry_model(#[trigger] v@[j], block_list(contents@)[j])),
{
    let cs = chars_of(contents);
    let word = vec!['m', 'e', 'n', 'u', 'e', 'n', 't', 'r', 'y'];
    assert(word@ =~= word_menuentry());
    let mut out: Vec<MenuEntry> = Vec::new();
    let ghost mut acc: Seq<(Seq<char>, Seq<char>)> = seq![];
    let mut i = match find_word(&cs, &word, 0) {
        None => {
            return Ok(out);
        },
        Some(m) => m,
    };
    let mut done = false;
    while !done && !rest_is_space(&cs, i)
        invariant
            cs@ == contents@,
            word@ == word_menuentry(),
            i <= cs@.len(),
            out@.len() == acc.len(),
            forall|j: int| 0 <= j < acc.len() ==> entry_model(#[trigger] out@[j], acc[j]),
            !done ==> blocks(cs@) == match blocks_from(cs@, i as int) {
                None => None,
                Some(rest) => Some(acc + rest),
            },
            done ==> blocks(cs@) == Some(acc),
        decreases cs@.len() - i + (if done {
            0int
        } else {
            1int
        }),
    {
        let (t0, t1, b0, b1, next) = match parse_block(&cs, i) {
            None => {
                return Err(GrubError::Malformed);
            },
            Some(p) => p,
        };
        let title = copy_chars(contents, t0, t1);
        let body_text = copy_chars(contents, b0, b1);
        let body = MenuentryBody::from(entry_pairs(body_text.as_str()));
        let ghost tb = (cs@.subrange(t0 as int, t1 as int), cs@.subrange(b0 as int, b1 as int));
        out.push(MenuEntry { title, body });
        let w = skip_blanks(&cs, next);
        let ghost old_acc = acc;
        proof {
            acc = acc.push(tb);
        }
        match find_word(&cs, &word, w) {
            Some(m) => {
                proof {
                    assert forall|rest: Seq<(Seq<char>, Seq<char>)>| old_acc + (seq![tb] + rest) == acc + rest by {
                        assert(old_acc + (seq![tb] + rest) =~= acc + rest);
                    }
                }
                i = m;
            },
            None => {
                assert(old_acc + seq![tb] =~= acc);
                done = true;
            },
        }
    }
    proof {
        if !done {
            assert(blocks_from(cs@, i as int) == Some(Seq::<(Seq<char>, Seq<char>)>::empty()));
            assert(acc + Seq::<(Seq<char>, Seq<char>)>::empty() =~= acc);
        }
    }
    let mut j: usize = 0;
    while j < out.len()
        invariant
            j <= out@.len(),
            out@.len() == acc.len(),
            blocks(contents@) == Some(acc),
            forall|m: int| 0 <= m < acc.len() ==> entry_model(#[trigger] out@[m], acc[m]),
            forall|m: int| 0 <= m < j ==> (#[trigger] acc[m]).0.len() > 0,
        decreases out@.len() - j,
    {
        if out[j].title.as_str().is_empty() {
            assert(entry_model(out@[j as int], acc[j as int]));
            assert(acc[j as int].0.len() == 0);
            return Err(GrubError::EmptyTitle);
        }
        j = j + 1;
    }
    Ok(out)
}

/// The text of a body: each insmod, search, chainloader, then the others.
pub open spec fn render_body(b: &MenuentryBody) -> Seq<char> {
    crate::bls::render_all(word_insmod(), strings_view(b.insmod@)) + line_of(word_search(), b.search@)
        + line_of(word_chainloader(), b.chainloader@) + crate::bls::render_pairs(
        extra_view(b.extra@),
    )
}

/// The text of a block.
pub open spec fn render_entry(e: &MenuEntry) -> Seq<char> {
    word_menuentry() + seq![' ', '"'] + e.title@ + seq!['"', ' ', '{', '\n'] + render_body(&e.body)
        + seq!['}', '\n']
}

impl MenuentryBody {
    /// The commands, one per line.
    pub fn to_string(&self) -> (r: String)
        ensures
            r@ == render_body(self),
    {
        proof {
            reveal_strlit("insmod");
            reveal_strlit("search");
            reveal_strlit("chainloader");
        }
        assert("insmod"@ =~= word_insmod());
        assert("search"@ =~= word_search());
        assert("chainloader"@ =~= word_chainloader());
        let mut out = String::new();
        let ghost iv = strings_view(self.insmod@);
        let mut i: usize = 0;
        while i < self.insmod.len()
            invariant
                i <= self.insmod@.len(),
                iv == strings_view(self.insmod@),
                out@ == crate::bls::render_all(word_insmod(), iv.take(i as int)),
                "insmod"@ == word_insmod(),
            decreases self.insmod@.len() - i,
        {
            assert(iv.take(i + 1).drop_last() =~= iv.take(i as int));
            crate::bls::push_line(&mut out, "insmod", self.insmod[i].as_str());
            i = i + 1;
        }
        assert(iv.take(i as int) =~= iv);
        crate::bls::push_line(&mut out, "search", self.search.as_str());
        crate::bls::push_line(&mut out, "chainloader", self.chainloader.as_str());
        let ghost head = out@;
        let ghost ev = extra_view(self.extra@);
        let mut j: usize = 0;
        while j < self.extra.len()
            invariant
                j <= self.extra@.len(),
                ev == extra_view(self.extra@),
                out@ == head + crate::bls::render_pairs(ev.take(j as int)),
            decreases self.extra@.len() - j,
        {
            assert(ev.take(j + 1).drop_last() =~= ev.take(j as int));
            crate::bls::push_line(&mut out, self.extra[j].0.as_str(), self.extra[j].1.as_str());
            j = j + 1;
        }
        assert(ev.take(j as int) =~= ev);
        out
    }
}

impl MenuEntry {
    /// The entry that chainloads the unified kernel image `uki_id` from the
    /// EFI partition whose UUID `EFI_PART_UUID` holds.
    pub fn new(boot_label: &str, uki_id: &str) -> (r: MenuEntry)
        ensures
            r.title@ == boot_label@ + ": ("@ + uki_id@ + ")"@,
            strings_view(r.body.insmod@) == seq!["fat"@, "chain"@],
            r.body.extra@.len() == 0,
            r.body.chainloader@ == "/EFI/Linux/"@ + uki_id@ + ".efi"@,
            r.body.search@ == "--no-floppy --set=root --fs-uuid \"${EFI_PART_UUID}\""@,
            r.body.version == 0,
            r.body.extra@.len() == 0,
    {
        let title = String::from_str(boot_label).concat(": (").concat(uki_id).concat(")");
        let chainloader = String::from_str("/EFI/Linux/").concat(uki_id).concat(".efi");
        let insmod = vec![String::from_str("fat"), String::from_str("chain")];
        assert(strings_view(insmod@) =~= seq!["fat"@, "chain"@]);
        MenuEntry {
            title,
            body: MenuentryBody {
                insmod,
                chainloader,
                search: String::from_str("--no-floppy --set=root --fs-uuid \"${EFI_PART_UUID}\""),
                version: 0,
                extra: Vec::new(),
            },
        }
    }

    /// The block as it is written to a GRUB configuration file.
    pub fn to_string(&self) -> (r: String)
        ensures
            r@ == render_entry(self),
    {
        proof {
            reveal_strlit("menuentry \"");
            reveal_strlit("\" {\n");
            reveal_strlit("}\n");
        }
        assert("menuentry \""@ =~= word_menuentry() + seq![' ', '"']);
        assert("\" {\n"@ =~= seq!['"', ' ', '{', '\n']);
        assert("}\n"@ =~= seq!['}', '\n']);
        let body = self.body.to_string();
        let r = String::from_str("menuentry \"").concat(self.title.as_str()).concat("\" {\n").concat(
            body.as_str(),
        ).concat("}\n");
        assert(r@ =~= render_entry(self));
        r
    }
}

/// The text of the entry that chainloads the unified kernel image `id`.
pub open spec fn uki_entry_text(label: Seq<char>, id: Seq<char>) -> Seq<char> {
    "menuentry \""@ + label + ": ("@ + id + ")\" {\n"@ + "insmod fat\n"@ + "insmod chain\n"@
        + "search --no-floppy --set=root --fs-uuid \"${EFI_PART_UUID}\"\n"@ + "chainloader /EFI/Linux/"@
        + id + ".efi\n"@ + "}\n"@
}

/// The text of the entry for the unified kernel image `uki_id`.
pub fn uki_entry_string(boot_label: &str, uki_id: &str) -> (r: String)
    ensures
        r@ == uki_entry_text(boot_label@, uki_id@),
{
    let e = MenuEntry::new(boot_label, uki_id);
    let t = e.to_string();
    proof {
        reveal_strlit("menuentry \"");
        reveal_strlit(": (");
        reveal_strlit(")\" {\n");
        reveal_strlit("insmod fat\n");
        reveal_strlit("insmod chain\n");
        reveal_strlit("search --no-floppy --set=root --fs-uuid \"${EFI_PART_UUID}\"\n");
        reveal_strlit("chainloader /EFI/Linux/");
        reveal_strlit(".efi\n");
        reveal_strlit("}\n");
        reveal_strlit("fat");
        reveal_strlit("chain");
        reveal_strlit(")");
        reveal_strlit("/EFI/Linux/");
        reveal_strlit(".efi");
        reveal_strlit("--no-floppy --set=root --fs-uuid \"${EFI_PART_UUID}\"");
        let iv = strings_view(e.body.insmod@);
        assert(iv.drop_last() =~= seq!["fat"@]);
        assert(iv.drop_last().drop_last() =~= Seq::<Seq<char>>::empty());
        assert(extra_view(e.body.extra@) =~= Seq::<(Seq<char>, Seq<char>)>::empty());
        assert(crate::bls::render_all(word_insmod(), iv.drop_last().drop_last()) == Seq::<char>::empty());
        assert(line_of(word_insmod(), "fat"@) =~= "insmod fat\n"@);
        assert(line_of(word_insmod(), "chain"@) =~= "insmod chain\n"@);
        assert(iv.drop_last().last() == "fat"@);
        assert(iv.last() == "chain"@);
        assert(crate::bls::render_all(word_insmod(), iv.drop_last()) =~= "insmod fat\n"@);
        assert(crate::bls::render_all(word_insmod(), iv) =~= "insmod fat\n"@ + "insmod chain\n"@);
        assert(render_body(&e.body) =~= "insmod fat\n"@ + "insmod chain\n"@
            + "search --no-floppy --set=root --fs-uuid \"${EFI_PART_UUID}\"\n"@ + "chainloader /EFI/Linux/"@
            + uki_id@ + ".efi\n"@);
        assert(t@ =~= uki_entry_text(boot_label@, uki_id@));
    }
    t
}
} // verus!
