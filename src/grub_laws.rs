//! Reading back a rendered menu entry.
use crate::bls::{
    all_values, entries, entries_of, entry_of, extra_view, last_value, line_of, render_pairs, strings_view, trim,
};
use crate::bls_laws::{
    joined_lines, keyed, lemma_entries_of_texts, lemma_joined_front, lemma_keyed_values,
    lemma_lines_of_joined, lemma_render_all_keyed, lemma_render_pairs_append,
    lemma_render_pairs_joined, lemma_values_append, no_newline, pair_reads_back, pair_texts,
};
use crate::grub::{
    all_space, block_at, blocks, blocks_from, body_end, find_from, is_blank, match_at,
    other_pairs, render_body, render_entry, skip_blank, title_end, value_or_empty, word_chainloader,
    word_insmod, word_menuentry, word_search, word_set, MenuEntry, MenuentryBody,
};
use vstd::prelude::*;

verus! {

/// The pairs a body's text holds, in the order they are written.
pub open spec fn body_pairs(b: &MenuentryBody) -> Seq<(Seq<char>, Seq<char>)> {
    keyed(word_insmod(), strings_view(b.insmod@)) + seq![(word_search(), b.search@)] + seq![
        (word_chainloader(), b.chainloader@),
    ] + extra_view(b.extra@)
}

pub proof fn lemma_render_body(b: &MenuentryBody)
    ensures
        render_body(b) == render_pairs(body_pairs(b)),
{
    let p1 = keyed(word_insmod(), strings_view(b.insmod@));
    let p2 = seq![(word_search(), b.search@)];
    let p3 = seq![(word_chainloader(), b.chainloader@)];
    let p4 = extra_view(b.extra@);
    lemma_render_all_keyed(word_insmod(), strings_view(b.insmod@));
    assert(p2.drop_last() =~= Seq::<(Seq<char>, Seq<char>)>::empty());
    assert(p3.drop_last() =~= Seq::<(Seq<char>, Seq<char>)>::empty());
    assert(render_pairs(p2.drop_last()) == Seq::<char>::empty());
    assert(render_pairs(p3.drop_last()) == Seq::<char>::empty());
    assert(render_pairs(p2) =~= line_of(word_search(), b.search@));
    assert(render_pairs(p3) =~= line_of(word_chainloader(), b.chainloader@));
    lemma_render_pairs_append(p1, p2);
    lemma_render_pairs_append(p1 + p2, p3);
    lemma_render_pairs_append(p1 + p2 + p3, p4);
    assert(render_body(b) =~= render_pairs(body_pairs(b)));
}

proof fn lemma_entries_of_front_empty(ls: Seq<Seq<char>>)
    ensures
        entries_of(seq![Seq::<char>::empty()] + ls) == entries_of(ls),
    decreases ls.len(),
{
    let e = Seq::<char>::empty();
    assert(trim(e).len() == 0);
    assert(entry_of(e) is None);
    if ls.len() == 0 {
        let x = seq![e] + ls;
        assert(x =~= seq![e]);
        assert(x.drop_last() =~= Seq::<Seq<char>>::empty());
        assert(x.last() == e);
        assert(entries_of(x) == entries_of(x.drop_last()));
        assert(entries_of(x.drop_last()) == Seq::<(Seq<char>, Seq<char>)>::empty());
        assert(entries_of(ls) == Seq::<(Seq<char>, Seq<char>)>::empty());
    } else {
        lemma_entries_of_front_empty(ls.drop_last());
        let x = seq![e] + ls;
        assert(x.drop_last() =~= seq![e] + ls.drop_last());
        assert(x.last() == ls.last());
        assert(x.len() > 0);
        match entry_of(ls.last()) {
            Some(p) => {
                assert(entries_of(x) == entries_of(x.drop_last()).push(p));
                assert(entries_of(ls) == entries_of(ls.drop_last()).push(p));
            },
            None => {
                assert(entries_of(x) == entries_of(x.drop_last()));
                assert(entries_of(ls) == entries_of(ls.drop_last()));
            },
        }
    }
}

/// The pairs read from a newline followed by the rendering of pairs that
/// read back are those pairs.
pub proof fn lemma_entries_after_newline(ps: Seq<(Seq<char>, Seq<char>)>)
    requires
        forall|i: int| 0 <= i < ps.len() ==> pair_reads_back(#[trigger] ps[i]),
    ensures
        entries(seq!['\n'] + render_pairs(ps)) == ps,
{
    let e = Seq::<char>::empty();
    lemma_render_pairs_joined(ps);
    lemma_entries_of_texts(ps);
    let ls = seq![e] + pair_texts(ps);
    lemma_joined_front(ls);
    assert(ls.skip(1) =~= pair_texts(ps));
    assert(ls[0] == e);
    let s = seq!['\n'] + render_pairs(ps);
    assert(s =~= joined_lines(ls));
    assert(s.skip(0) =~= s);
    assert forall|k: int| 0 <= k < ls.len() implies no_newline(#[trigger] ls[k]) by {
        if k > 0 {
            assert(ls[k] == pair_texts(ps)[k - 1]);
        }
    }
    lemma_lines_of_joined(s, 0, ls);
    assert(ls.push(e).drop_last() =~= ls);
    assert(trim(e).len() == 0);
    assert(entry_of(e) is None);
    lemma_entries_of_front_empty(pair_texts(ps));
}

proof fn lemma_other_pairs_append(a: Seq<(Seq<char>, Seq<char>)>, b: Seq<(Seq<char>, Seq<char>)>)
    ensures
        other_pairs(a + b) == other_pairs(a) + other_pairs(b),
    decreases b.len(),
{
    if b.len() == 0 {
        assert(a + b =~= a);
        assert(other_pairs(a) + other_pairs(b) =~= other_pairs(a));
    } else {
        lemma_other_pairs_append(a, b.drop_last());
        assert((a + b).drop_last() =~= a + b.drop_last());
        assert((a + b).last() == b.last());
        assert(other_pairs(a + b) =~= other_pairs(a) + other_pairs(b));
    }
}

/// A key that the body reader sorts into no field of its own.
pub open spec fn is_other_key(k: Seq<char>) -> bool {
    k != word_insmod() && k != word_chainloader() && k != word_search() && k != word_set()
}

proof fn lemma_other_pairs_keep(ps: Seq<(Seq<char>, Seq<char>)>)
    requires
        forall|i: int| 0 <= i < ps.len() ==> is_other_key(#[trigger] ps[i].0),
    ensures
        other_pairs(ps) == ps,
    decreases ps.len(),
{
    if ps.len() > 0 {
        let d = ps.drop_last();
        assert forall|i: int| 0 <= i < d.len() implies is_other_key(#[trigger] d[i].0) by {
            assert(d[i] == ps[i]);
        }
        lemma_other_pairs_keep(d);
        assert(is_other_key(ps[ps.len() - 1].0));
        assert(d.push(ps.last()) =~= ps);
    }
}

proof fn lemma_other_pairs_drop(ps: Seq<(Seq<char>, Seq<char>)>)
    requires
        forall|i: int| 0 <= i < ps.len() ==> !is_other_key(#[trigger] ps[i].0),
    ensures
        other_pairs(ps) == Seq::<(Seq<char>, Seq<char>)>::empty(),
    decreases ps.len(),
{
    if ps.len() > 0 {
        let d = ps.drop_last();
        assert forall|i: int| 0 <= i < d.len() implies !is_other_key(#[trigger] d[i].0) by {
            assert(d[i] == ps[i]);
        }
        lemma_other_pairs_drop(d);
        assert(!is_other_key(ps[ps.len() - 1].0));
    }
}

/// No brace, backslash or double quote.
pub open spec fn plain_text(t: Seq<char>) -> bool {
    forall|m: int| 0 <= m < t.len() ==> #[trigger] t[m] != '{' && t[m] != '}' && t[m] != '\\' && t[m] != '"'
}

/// A body whose text reads back: every pair reads back and is plain text, the
/// search and chainloader values are present, and the extra keys name no field.
pub open spec fn body_reads_back(b: &MenuentryBody) -> bool {
    &&& forall|i: int| 0 <= i < body_pairs(b).len() ==> pair_reads_back(#[trigger] body_pairs(b)[i])
        && plain_text(body_pairs(b)[i].0) && plain_text(body_pairs(b)[i].1)
    &&& forall|i: int| 0 <= i < extra_view(b.extra@).len() ==> is_other_key(#[trigger] extra_view(b.extra@)[i].0)
}

proof fn lemma_skip_blank_at(s: Seq<char>, i: int, j: int)
    requires
        0 <= i <= j <= s.len(),
        forall|m: int| i <= m < j ==> is_blank(#[trigger] s[m]),
        j == s.len() || !is_blank(s[j]),
    ensures
        skip_blank(s, i) == j,
    decreases j - i,
{
    if i < j {
        lemma_skip_blank_at(s, i + 1, j);
    }
}

proof fn lemma_title_end_at(s: Seq<char>, i: int, j: int)
    requires
        0 <= i <= j < s.len(),
        forall|m: int| i <= m < j ==> #[trigger] s[m] != '"' && s[m] != '\\',
        s[j] == '"',
    ensures
        title_end(s, i) == j,
    decreases j - i,
{
    if i < j {
        lemma_title_end_at(s, i + 1, j);
    }
}

proof fn lemma_body_end_at(s: Seq<char>, i: int, j: int)
    requires
        0 <= i <= j < s.len(),
        forall|m: int| i <= m < j ==> #[trigger] s[m] != '{' && s[m] != '}' && s[m] != '\\',
        s[j] == '}',
    ensures
        body_end(s, i, 0) == j,
    decreases j - i,
{
    if i < j {
        lemma_body_end_at(s, i + 1, j);
    }
}

proof fn lemma_render_pairs_plain(ps: Seq<(Seq<char>, Seq<char>)>)
    requires
        forall|i: int| 0 <= i < ps.len() ==> plain_text(#[trigger] ps[i].0) && plain_text(ps[i].1),
    ensures
        plain_text(render_pairs(ps)),
    decreases ps.len(),
{
    if ps.len() > 0 {
        let d = ps.drop_last();
        assert forall|i: int| 0 <= i < d.len() implies plain_text(#[trigger] d[i].0) && plain_text(d[i].1) by {
            assert(d[i] == ps[i]);
        }
        lemma_render_pairs_plain(d);
        let l = ps.last();
        assert(plain_text(ps[ps.len() - 1].0) && plain_text(ps[ps.len() - 1].1));
        let t = render_pairs(ps);
        let a = render_pairs(d);
        assert(t =~= a + (l.0 + seq![' '] + l.1 + seq!['\n']));
        assert forall|m: int| 0 <= m < t.len() implies #[trigger] t[m] != '{' && t[m] != '}' && t[m] != '\\'
            && t[m] != '"' by {
            if m < a.len() {
                assert(t[m] == a[m]);
            } else if m < a.len() + l.0.len() {
                assert(t[m] == l.0[m - a.len()]);
            } else if m > a.len() + l.0.len() && m < a.len() + l.0.len() + 1 + l.1.len() {
                assert(t[m] == l.1[m - a.len() - l.0.len() - 1]);
            }
        }
    }
}

proof fn lemma_no_named_key(p4: Seq<(Seq<char>, Seq<char>)>, k: Seq<char>)
    requires
        !is_other_key(k),
        forall|i: int| 0 <= i < p4.len() ==> is_other_key(#[trigger] p4[i].0),
    ensures
        last_value(p4, k) is None,
        all_values(p4, k) == Seq::<Seq<char>>::empty(),
{
    assert forall|i: int| 0 <= i < p4.len() implies (#[trigger] p4[i]).0 != k by {
        assert(is_other_key(p4[i].0));
    }
    crate::bls_laws::lemma_no_key_values(p4, k);
}

/// The fields of a body that reads back, as its text is read.
pub proof fn lemma_body_fields(b: &MenuentryBody)
    requires
        body_reads_back(b),
    ensures
        other_pairs(body_pairs(b)) == extra_view(b.extra@),
        all_values(body_pairs(b), word_insmod()) == strings_view(b.insmod@),
        value_or_empty(last_value(body_pairs(b), word_chainloader())) == b.chainloader@,
        value_or_empty(last_value(body_pairs(b), word_search())) == b.search@,
{
    let ps = body_pairs(b);
    let p1 = keyed(word_insmod(), strings_view(b.insmod@));
    let p2 = seq![(word_search(), b.search@)];
    let p3 = seq![(word_chainloader(), b.chainloader@)];
    let p4 = extra_view(b.extra@);
    assert(p2 == crate::bls_laws::opt_pair(word_search(), Some(b.search@)));
    assert(p3 == crate::bls_laws::opt_pair(word_chainloader(), Some(b.chainloader@)));
    lemma_other_pairs_drop(p1);
    lemma_other_pairs_drop(p2);
    lemma_other_pairs_drop(p3);
    lemma_other_pairs_keep(p4);
    lemma_other_pairs_append(p1, p2);
    lemma_other_pairs_append(p1 + p2, p3);
    lemma_other_pairs_append(p1 + p2 + p3, p4);
    assert(other_pairs(ps) =~= p4);
    assert(word_insmod() != word_search() && word_insmod() != word_chainloader());
    assert(word_search() != word_chainloader());
    lemma_no_named_key(p4, word_insmod());
    lemma_no_named_key(p4, word_search());
    lemma_no_named_key(p4, word_chainloader());
    let k = word_insmod();
    lemma_keyed_values(word_insmod(), strings_view(b.insmod@), k);
    crate::bls_laws::lemma_opt_pair_values(word_search(), Some(b.search@), k);
    crate::bls_laws::lemma_opt_pair_values(word_chainloader(), Some(b.chainloader@), k);
    lemma_values_append(p1, p2, k);
    lemma_values_append(p1 + p2, p3, k);
    lemma_values_append(p1 + p2 + p3, p4, k);
    assert(all_values(ps, k) =~= strings_view(b.insmod@));
    let k = word_search();
    lemma_keyed_values(word_insmod(), strings_view(b.insmod@), k);
    crate::bls_laws::lemma_opt_pair_values(word_search(), Some(b.search@), k);
    crate::bls_laws::lemma_opt_pair_values(word_chainloader(), Some(b.chainloader@), k);
    lemma_values_append(p1, p2, k);
    lemma_values_append(p1 + p2, p3, k);
    lemma_values_append(p1 + p2 + p3, p4, k);
    let k = word_chainloader();
    lemma_keyed_values(word_insmod(), strings_view(b.insmod@), k);
    crate::bls_laws::lemma_opt_pair_values(word_search(), Some(b.search@), k);
    crate::bls_laws::lemma_opt_pair_values(word_chainloader(), Some(b.chainloader@), k);
    lemma_values_append(p1, p2, k);
    lemma_values_append(p1 + p2, p3, k);
    lemma_values_append(p1 + p2 + p3, p4, k);
}

/// The text of a menu entry with a plain title and a plain body is one block
/// with that title and body.
#[verifier::rlimit(50)]
pub proof fn lemma_block_of_render(e: &MenuEntry)
    requires
        plain_text(e.title@),
        plain_text(render_body(&e.body)),
    ensures
        blocks(render_entry(e)) == Some(seq![(e.title@, seq!['\n'] + render_body(&e.body))]),
{
    let rb = render_body(&e.body);
    let t = e.title@;
    let s = render_entry(e);
    let tl = t.len() as int;
    let bl = rb.len() as int;
    assert(s.len() == 17 + tl + bl);
    assert(s.subrange(0, 9) =~= word_menuentry());
    assert(match_at(s, word_menuentry(), 0));
    assert(find_from(s, word_menuentry(), 0) == 0);
    assert(s[9] == ' ');
    assert(s[10] == '"');
    lemma_skip_blank_at(s, 9, 10);
    assert forall|m: int| 11 <= m < 11 + tl implies #[trigger] s[m] != '"' && s[m] != '\\' by {
        assert(s[m] == t[m - 11]);
    }
    assert(s[11 + tl] == '"');
    lemma_title_end_at(s, 11, 11 + tl);
    assert(s[12 + tl] == ' ');
    assert(s[13 + tl] == '{');
    lemma_skip_blank_at(s, 12 + tl, 13 + tl);
    assert(s[14 + tl] == '\n');
    assert forall|m: int| 14 + tl <= m < 15 + tl + bl implies #[trigger] s[m] != '{' && s[m] != '}' && s[m]
        != '\\' by {
        if m > 14 + tl {
            assert(s[m] == rb[m - 15 - tl]);
        }
    }
    assert(s[15 + tl + bl] == '}');
    lemma_body_end_at(s, 14 + tl, 15 + tl + bl);
    assert(s.subrange(11, 11 + tl) =~= t);
    assert(s.subrange(14 + tl, 15 + tl + bl) =~= seq!['\n'] + rb);
    assert(block_at(s, 0) == Some((t, seq!['\n'] + rb, 16 + tl + bl)));
    assert(s[16 + tl + bl] == '\n');
    lemma_skip_blank_at(s, 16 + tl + bl, 17 + tl + bl);
    assert(!all_space(s.skip(0))) by {
        assert(s.skip(0)[0] == 'm');
    }
    assert(find_from(s, word_menuentry(), 17 + tl + bl) == -1);
    assert(blocks_from(s, 0) == Some(seq![(t, seq!['\n'] + rb)]));
}

/// A rendered menu entry reads back as one block with the same title, whose
/// body holds the same commands (modules, search, chainloader, and the other
/// commands in order), when the title is non-empty plain text and the body
/// reads back.
pub proof fn lemma_menuentry_round_trip(e: &MenuEntry)
    requires
        e.title@.len() > 0,
        plain_text(e.title@),
        body_reads_back(&e.body),
    ensures
        blocks(render_entry(e)) == Some(seq![(e.title@, seq!['\n'] + render_body(&e.body))]),
        entries(seq!['\n'] + render_body(&e.body)) == body_pairs(&e.body),
        other_pairs(body_pairs(&e.body)) == extra_view(e.body.extra@),
        all_values(body_pairs(&e.body), word_insmod()) == strings_view(e.body.insmod@),
        value_or_empty(last_value(body_pairs(&e.body), word_chainloader())) == e.body.chainloader@,
        value_or_empty(last_value(body_pairs(&e.body), word_search())) == e.body.search@,
{
    let b = &e.body;
    let ps = body_pairs(b);
    lemma_render_body(b);
    lemma_entries_after_newline(ps);
    lemma_body_fields(b);
    assert forall|i: int| 0 <= i < ps.len() implies plain_text(#[trigger] ps[i].0) && plain_text(ps[i].1) by {}
    lemma_render_pairs_plain(ps);
    lemma_block_of_render(e);
}

} // verus!
