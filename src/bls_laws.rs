//! Reading back what was rendered: an entry whose values are single trimmed
//! words or phrases is exactly what parsing its text gives.
use crate::bls::{
    all_values, entries, entries_of, entry_of, extra_view, is_known_key, is_space,
    key_initrd, key_linux, key_machine_id, key_options, key_sort_key, key_title, key_version,
    last_value, lead_space, line_of, lines, lines_from, opt_view, render, render_all, render_opt,
    render_pairs, strings_view, trail_space, trim, lemma_known_keys_distinct, BLSConfig,
};
use crate::text::index_from;
use crate::bls::{entry_order, key_order, lex_order, reversed, version_order};
use core::cmp::Ordering;
use vstd::prelude::*;

verus! {

/// Lines, each followed by a newline.
pub open spec fn joined_lines(ls: Seq<Seq<char>>) -> Seq<char>
    decreases ls.len(),
{
    if ls.len() == 0 {
        seq![]
    } else {
        joined_lines(ls.drop_last()) + ls.last() + seq!['\n']
    }
}

pub open spec fn no_newline(l: Seq<char>) -> bool {
    forall|m: int| 0 <= m < l.len() ==> #[trigger] l[m] != '\n'
}

pub proof fn lemma_joined_front(ls: Seq<Seq<char>>)
    requires
        ls.len() > 0,
    ensures
        joined_lines(ls) == ls[0] + seq!['\n'] + joined_lines(ls.skip(1)),
    decreases ls.len(),
{
    if ls.len() == 1 {
        assert(ls.drop_last() =~= Seq::<Seq<char>>::empty());
        assert(ls.skip(1) =~= Seq::<Seq<char>>::empty());
        assert(joined_lines(ls) =~= ls[0] + seq!['\n'] + joined_lines(ls.skip(1)));
    } else {
        let d = ls.drop_last();
        lemma_joined_front(d);
        assert(d.skip(1) =~= ls.skip(1).drop_last());
        assert(ls.skip(1).last() == ls.last());
        assert(joined_lines(ls) =~= ls[0] + seq!['\n'] + joined_lines(ls.skip(1)));
    }
}

pub proof fn lemma_lines_no_break(s: Seq<char>, start: int, i: int, j: int)
    requires
        0 <= i <= j <= s.len(),
        forall|m: int| i <= m < j ==> #[trigger] s[m] != '\n',
    ensures
        lines_from(s, start, i) == lines_from(s, start, j),
    decreases j - i,
{
    if i < j {
        lemma_lines_no_break(s, start, i + 1, j);
    }
}

pub proof fn lemma_lines_of_joined(s: Seq<char>, o: int, ls: Seq<Seq<char>>)
    requires
        0 <= o <= s.len(),
        s.skip(o) == joined_lines(ls),
        forall|k: int| 0 <= k < ls.len() ==> no_newline(#[trigger] ls[k]),
    ensures
        lines_from(s, o, o) == ls.push(seq![]),
    decreases ls.len(),
{
    if ls.len() == 0 {
        assert(s.skip(o).len() == 0);
        assert(s.subrange(o, s.len() as int) =~= Seq::<char>::empty());
        assert(ls.push(seq![]) =~= seq![Seq::<char>::empty()]);
    } else {
        lemma_joined_front(ls);
        let l = ls[0];
        let e = o + l.len();
        let rest = ls.skip(1);
        assert(s.skip(o).len() == s.len() - o);
        assert(joined_lines(ls).len() == l.len() + 1 + joined_lines(rest).len());
        assert(no_newline(ls[0]));
        assert forall|m: int| o <= m < e implies #[trigger] s[m] != '\n' by {
            assert(s[m] == s.skip(o)[m - o]);
            assert(s.skip(o)[m - o] == l[m - o]);
        }
        lemma_lines_no_break(s, o, o, e);
        assert(s[e] == s.skip(o)[l.len() as int]);
        assert(s.skip(o)[l.len() as int] == '\n');
        assert(s.subrange(o, e) =~= l);
        let t = joined_lines(rest);
        assert(s.skip(e + 1).len() == t.len());
        assert forall|m: int| 0 <= m < t.len() implies #[trigger] s.skip(e + 1)[m] == t[m] by {
            assert(s.skip(e + 1)[m] == s[e + 1 + m]);
            assert(s[e + 1 + m] == s.skip(o)[l.len() + 1 + m]);
            assert((l + seq!['\n'] + t)[l.len() + 1 + m] == t[m]);
        }
        assert(s.skip(e + 1) =~= joined_lines(rest));
        assert forall|k: int| 0 <= k < rest.len() implies no_newline(#[trigger] rest[k]) by {
            assert(rest[k] == ls[k + 1]);
        }
        lemma_lines_of_joined(s, e + 1, rest);
        assert(seq![l] + rest.push(seq![]) =~= ls.push(seq![]));
    }
}

/// The text of one pair, without its newline.
pub open spec fn pair_text(p: (Seq<char>, Seq<char>)) -> Seq<char> {
    p.0 + seq![' '] + p.1
}

pub open spec fn pair_texts(ps: Seq<(Seq<char>, Seq<char>)>) -> Seq<Seq<char>> {
    ps.map_values(|p: (Seq<char>, Seq<char>)| pair_text(p))
}

pub proof fn lemma_render_pairs_joined(ps: Seq<(Seq<char>, Seq<char>)>)
    ensures
        render_pairs(ps) == joined_lines(pair_texts(ps)),
    decreases ps.len(),
{
    if ps.len() > 0 {
        lemma_render_pairs_joined(ps.drop_last());
        assert(pair_texts(ps).drop_last() =~= pair_texts(ps.drop_last()));
        assert(render_pairs(ps) =~= joined_lines(pair_texts(ps)));
    }
}

pub proof fn lemma_render_pairs_append(a: Seq<(Seq<char>, Seq<char>)>, b: Seq<(Seq<char>, Seq<char>)>)
    ensures
        render_pairs(a + b) == render_pairs(a) + render_pairs(b),
    decreases b.len(),
{
    if b.len() == 0 {
        assert(a + b =~= a);
        assert(render_pairs(a) + render_pairs(b) =~= render_pairs(a));
    } else {
        lemma_render_pairs_append(a, b.drop_last());
        assert((a + b).drop_last() =~= a + b.drop_last());
        assert((a + b).last() == b.last());
        assert(render_pairs(a + b) =~= render_pairs(a) + render_pairs(b));
    }
}

/// The pairs `(k, v)` for each value `v`.
pub open spec fn keyed(k: Seq<char>, vs: Seq<Seq<char>>) -> Seq<(Seq<char>, Seq<char>)> {
    vs.map_values(|v: Seq<char>| (k, v))
}

pub open spec fn opt_pair(k: Seq<char>, o: Option<Seq<char>>) -> Seq<(Seq<char>, Seq<char>)> {
    match o {
        Some(v) => seq![(k, v)],
        None => seq![],
    }
}

pub proof fn lemma_render_all_keyed(k: Seq<char>, vs: Seq<Seq<char>>)
    ensures
        render_all(k, vs) == render_pairs(keyed(k, vs)),
    decreases vs.len(),
{
    if vs.len() > 0 {
        lemma_render_all_keyed(k, vs.drop_last());
        assert(keyed(k, vs).drop_last() =~= keyed(k, vs.drop_last()));
    }
}

pub proof fn lemma_render_opt_pair(k: Seq<char>, o: Option<Seq<char>>)
    ensures
        render_opt(k, o) == render_pairs(opt_pair(k, o)),
{
    match o {
        Some(v) => {
            let ps = seq![(k, v)];
            assert(ps.drop_last() =~= Seq::<(Seq<char>, Seq<char>)>::empty());
            assert(render_pairs(ps.drop_last()) == Seq::<char>::empty());
            assert(ps.last() == (k, v));
            assert(render_pairs(ps) =~= line_of(k, v));
        },
        None => {},
    }
}

/// The pairs that an entry's text holds, in the order they are written.
pub open spec fn config_pairs(c: &BLSConfig) -> Seq<(Seq<char>, Seq<char>)> {
    opt_pair(key_title(), opt_view(c.title)) + seq![(key_version(), c.version@)] + seq![
        (key_linux(), c.linux@),
    ] + keyed(key_initrd(), strings_view(c.initrd@)) + opt_pair(key_options(), opt_view(c.options))
        + opt_pair(key_machine_id(), opt_view(c.machine_id)) + opt_pair(
        key_sort_key(),
        opt_view(c.sort_key),
    ) + extra_view(c.extra@)
}

pub proof fn lemma_render_config(c: &BLSConfig)
    ensures
        render(c) == render_pairs(config_pairs(c)),
{
    let p1 = opt_pair(key_title(), opt_view(c.title));
    let p2 = seq![(key_version(), c.version@)];
    let p3 = seq![(key_linux(), c.linux@)];
    let p4 = keyed(key_initrd(), strings_view(c.initrd@));
    let p5 = opt_pair(key_options(), opt_view(c.options));
    let p6 = opt_pair(key_machine_id(), opt_view(c.machine_id));
    let p7 = opt_pair(key_sort_key(), opt_view(c.sort_key));
    let p8 = extra_view(c.extra@);
    lemma_render_opt_pair(key_title(), opt_view(c.title));
    lemma_render_opt_pair(key_options(), opt_view(c.options));
    lemma_render_opt_pair(key_machine_id(), opt_view(c.machine_id));
    lemma_render_opt_pair(key_sort_key(), opt_view(c.sort_key));
    lemma_render_all_keyed(key_initrd(), strings_view(c.initrd@));
    assert(p2.drop_last() =~= Seq::<(Seq<char>, Seq<char>)>::empty());
    assert(p3.drop_last() =~= Seq::<(Seq<char>, Seq<char>)>::empty());
    assert(render_pairs(p2.drop_last()) == Seq::<char>::empty());
    assert(render_pairs(p3.drop_last()) == Seq::<char>::empty());
    assert(render_pairs(p2) =~= line_of(key_version(), c.version@));
    assert(render_pairs(p3) =~= line_of(key_linux(), c.linux@));
    lemma_render_pairs_append(p1, p2);
    lemma_render_pairs_append(p1 + p2, p3);
    lemma_render_pairs_append(p1 + p2 + p3, p4);
    lemma_render_pairs_append(p1 + p2 + p3 + p4, p5);
    lemma_render_pairs_append(p1 + p2 + p3 + p4 + p5, p6);
    lemma_render_pairs_append(p1 + p2 + p3 + p4 + p5 + p6, p7);
    lemma_render_pairs_append(p1 + p2 + p3 + p4 + p5 + p6 + p7, p8);
    assert(render(c) =~= render_pairs(config_pairs(c)));
}


/// A key that reads back: not empty, no white space, not a comment.
pub open spec fn key_reads_back(k: Seq<char>) -> bool {
    k.len() > 0 && k[0] != '#' && forall|m: int| 0 <= m < k.len() ==> !is_space(#[trigger] k[m])
}

/// A value that reads back: not empty, on one line, no white space at its ends.
pub open spec fn value_reads_back(v: Seq<char>) -> bool {
    v.len() > 0 && !is_space(v[0]) && !is_space(v.last()) && no_newline(v)
}

pub open spec fn pair_reads_back(p: (Seq<char>, Seq<char>)) -> bool {
    key_reads_back(p.0) && value_reads_back(p.1)
}

pub proof fn lemma_trim_unchanged(t: Seq<char>)
    requires
        t.len() > 0,
        !is_space(t[0]),
        !is_space(t.last()),
    ensures
        trim(t) == t,
{
    assert(lead_space(t) == 0);
    assert(t.skip(0) =~= t);
    assert(trail_space(t) == 0);
    assert(t.take(t.len() as int) =~= t);
}

pub proof fn lemma_index_at(t: Seq<char>, x: char, i: int, j: int)
    requires
        0 <= i <= j < t.len(),
        t[j] == x,
        forall|m: int| i <= m < j ==> #[trigger] t[m] != x,
    ensures
        index_from(t, x, i) == j,
    decreases j - i,
{
    if i < j {
        lemma_index_at(t, x, i + 1, j);
    }
}

pub proof fn lemma_entry_of_pair(p: (Seq<char>, Seq<char>))
    requires
        pair_reads_back(p),
    ensures
        entry_of(pair_text(p)) == Some(p),
        no_newline(pair_text(p)),
{
    let (k, v) = p;
    let t = pair_text(p);
    assert(t[0] == k[0]);
    assert(t.last() == v.last());
    lemma_trim_unchanged(t);
    assert forall|m: int| 0 <= m < k.len() implies #[trigger] t[m] != ' ' by {
        assert(t[m] == k[m]);
        assert(!is_space(k[m]));
    }
    lemma_index_at(t, ' ', 0, k.len() as int);
    assert(t.take(k.len() as int) =~= k);
    assert(t.skip(k.len() as int + 1) =~= v);
    lemma_trim_unchanged(v);
    assert forall|m: int| 0 <= m < t.len() implies #[trigger] t[m] != '\n' by {
        if m < k.len() {
            assert(t[m] == k[m]);
            assert(!is_space(k[m]));
        } else if m > k.len() {
            assert(t[m] == v[m - k.len() - 1]);
        }
    }
}

pub proof fn lemma_entries_of_texts(ps: Seq<(Seq<char>, Seq<char>)>)
    requires
        forall|i: int| 0 <= i < ps.len() ==> pair_reads_back(#[trigger] ps[i]),
    ensures
        entries_of(pair_texts(ps)) == ps,
        forall|i: int| 0 <= i < ps.len() ==> no_newline(#[trigger] pair_texts(ps)[i]),
    decreases ps.len(),
{
    if ps.len() > 0 {
        let d = ps.drop_last();
        assert forall|i: int| 0 <= i < d.len() implies pair_reads_back(#[trigger] d[i]) by {
            assert(d[i] == ps[i]);
        }
        lemma_entries_of_texts(d);
        assert(pair_texts(ps).drop_last() =~= pair_texts(d));
        assert(pair_reads_back(ps.last()));
        lemma_entry_of_pair(ps.last());
        assert(ps =~= d.push(ps.last()));
        assert forall|i: int| 0 <= i < ps.len() implies no_newline(#[trigger] pair_texts(ps)[i]) by {
            assert(pair_reads_back(ps[i]));
            lemma_entry_of_pair(ps[i]);
        }
    }
}

/// The pairs read from the rendering of pairs that read back are those pairs.
pub proof fn lemma_entries_of_rendered(ps: Seq<(Seq<char>, Seq<char>)>)
    requires
        forall|i: int| 0 <= i < ps.len() ==> pair_reads_back(#[trigger] ps[i]),
    ensures
        entries(render_pairs(ps)) == ps,
{
    lemma_render_pairs_joined(ps);
    lemma_entries_of_texts(ps);
    let s = render_pairs(ps);
    assert(s.skip(0) =~= s);
    lemma_lines_of_joined(s, 0, pair_texts(ps));
    let ls = pair_texts(ps).push(seq![]);
    assert(ls.drop_last() =~= pair_texts(ps));
    assert(trim(Seq::<char>::empty()).len() == 0);
    assert(entry_of(ls.last()) is None);
}


/// No pair of `ps` has key `k`.
pub open spec fn no_key(ps: Seq<(Seq<char>, Seq<char>)>, k: Seq<char>) -> bool {
    forall|i: int| 0 <= i < ps.len() ==> (#[trigger] ps[i]).0 != k
}

pub proof fn lemma_no_key_values(ps: Seq<(Seq<char>, Seq<char>)>, k: Seq<char>)
    requires
        no_key(ps, k),
    ensures
        last_value(ps, k) is None,
        all_values(ps, k) == Seq::<Seq<char>>::empty(),
    decreases ps.len(),
{
    if ps.len() > 0 {
        let d = ps.drop_last();
        assert forall|i: int| 0 <= i < d.len() implies (#[trigger] d[i]).0 != k by {
            assert(d[i] == ps[i]);
        }
        lemma_no_key_values(d, k);
        assert(ps.last() == ps[ps.len() - 1]);
    }
}

pub proof fn lemma_values_append(a: Seq<(Seq<char>, Seq<char>)>, b: Seq<(Seq<char>, Seq<char>)>, k: Seq<char>)
    ensures
        last_value(a + b, k) == (if last_value(b, k) is Some {
            last_value(b, k)
        } else {
            last_value(a, k)
        }),
        all_values(a + b, k) == all_values(a, k) + all_values(b, k),
    decreases b.len(),
{
    if b.len() == 0 {
        assert(a + b =~= a);
        assert(all_values(a, k) + all_values(b, k) =~= all_values(a, k));
    } else {
        lemma_values_append(a, b.drop_last(), k);
        assert((a + b).drop_last() =~= a + b.drop_last());
        assert((a + b).last() == b.last());
        if b.last().0 == k {
            assert(all_values(a + b, k) =~= all_values(a, k) + all_values(b, k));
        }
    }
}

pub proof fn lemma_keyed_values(k2: Seq<char>, vs: Seq<Seq<char>>, k: Seq<char>)
    ensures
        all_values(keyed(k2, vs), k) == (if k == k2 {
            vs
        } else {
            Seq::<Seq<char>>::empty()
        }),
        last_value(keyed(k2, vs), k) == (if k == k2 && vs.len() > 0 {
            Some(vs.last())
        } else {
            None::<Seq<char>>
        }),
    decreases vs.len(),
{
    if vs.len() > 0 {
        lemma_keyed_values(k2, vs.drop_last(), k);
        assert(keyed(k2, vs).drop_last() =~= keyed(k2, vs.drop_last()));
        if k == k2 {
            assert(vs.drop_last().push(vs.last()) =~= vs);
        }
    }
}

pub proof fn lemma_opt_pair_values(k2: Seq<char>, o: Option<Seq<char>>, k: Seq<char>)
    ensures
        last_value(opt_pair(k2, o), k) == (if k == k2 {
            o
        } else {
            None::<Seq<char>>
        }),
        all_values(opt_pair(k2, o), k) == (if k == k2 && o is Some {
            seq![o->Some_0]
        } else {
            Seq::<Seq<char>>::empty()
        }),
{
    let ps = opt_pair(k2, o);
    match o {
        Some(v) => {
            let e = Seq::<(Seq<char>, Seq<char>)>::empty();
            assert(ps == seq![(k2, v)]);
            assert(ps.drop_last() =~= e);
            assert(last_value(e, k) is None);
            assert(all_values(e, k) =~= Seq::<Seq<char>>::empty());
            assert(ps.last() == (k2, v));
            assert(ps.len() == 1);
            if k == k2 {
                assert(all_values(ps, k) =~= Seq::<Seq<char>>::empty().push(v));
                assert(all_values(ps, k) =~= seq![v]);
            }
        },
        None => {},
    }
}

/// The extra pairs of `c`: keys that read back, none of them known, none twice.
pub open spec fn extras_read_back(ev: Seq<(Seq<char>, Seq<char>)>) -> bool {
    &&& forall|i: int| 0 <= i < ev.len() ==> pair_reads_back(#[trigger] ev[i]) && !is_known_key(ev[i].0)
    &&& forall|i: int, j: int| 0 <= i < j < ev.len() ==> ev[i].0 != ev[j].0
}

pub proof fn lemma_unique_last_value(ev: Seq<(Seq<char>, Seq<char>)>, i: int)
    requires
        0 <= i < ev.len(),
        forall|a: int, b: int| 0 <= a < b < ev.len() ==> ev[a].0 != ev[b].0,
    ensures
        last_value(ev, ev[i].0) == Some(ev[i].1),
    decreases ev.len(),
{
    if i < ev.len() - 1 {
        let d = ev.drop_last();
        assert(ev.last().0 != ev[i].0);
        assert(d[i] == ev[i]);
        lemma_unique_last_value(d, i);
    }
}

pub proof fn lemma_last_value_some(ev: Seq<(Seq<char>, Seq<char>)>, k: Seq<char>)
    requires
        last_value(ev, k) is Some,
    ensures
        exists|i: int| 0 <= i < ev.len() && #[trigger] ev[i].0 == k,
    decreases ev.len(),
{
    if ev.last().0 != k {
        lemma_last_value_some(ev.drop_last(), k);
        let i = choose|i: int| 0 <= i < ev.drop_last().len() && #[trigger] ev.drop_last()[i].0 == k;
        assert(ev[i] == ev.drop_last()[i]);
    } else {
        assert(ev[ev.len() - 1].0 == k);
    }
}

/// An entry whose text reads back: every value reads back, and so do the
/// extras, with keys that are neither named fields nor repeated.
pub open spec fn config_reads_back(c: &BLSConfig) -> bool {
    &&& forall|i: int| 0 <= i < config_pairs(c).len() ==> pair_reads_back(#[trigger] config_pairs(c)[i])
    &&& extras_read_back(extra_view(c.extra@))
}

pub proof fn lemma_known_pair_keys(c: &BLSConfig, k: Seq<char>)
    requires
        is_known_key(k),
        extras_read_back(extra_view(c.extra@)),
    ensures
        last_value(config_pairs(c), k) == (if k == key_title() {
            opt_view(c.title)
        } else if k == key_version() {
            Some(c.version@)
        } else if k == key_linux() {
            Some(c.linux@)
        } else if k == key_initrd() {
            last_value(keyed(key_initrd(), strings_view(c.initrd@)), k)
        } else if k == key_options() {
            opt_view(c.options)
        } else if k == key_machine_id() {
            opt_view(c.machine_id)
        } else {
            opt_view(c.sort_key)
        }),
        k == key_initrd() ==> all_values(config_pairs(c), k) == strings_view(c.initrd@),
{
    lemma_known_keys_distinct();
    let p1 = opt_pair(key_title(), opt_view(c.title));
    let p2 = seq![(key_version(), c.version@)];
    let p3 = seq![(key_linux(), c.linux@)];
    let p4 = keyed(key_initrd(), strings_view(c.initrd@));
    let p5 = opt_pair(key_options(), opt_view(c.options));
    let p6 = opt_pair(key_machine_id(), opt_view(c.machine_id));
    let p7 = opt_pair(key_sort_key(), opt_view(c.sort_key));
    let p8 = extra_view(c.extra@);
    assert(p2 == opt_pair(key_version(), Some(c.version@)));
    assert(p3 == opt_pair(key_linux(), Some(c.linux@)));
    lemma_opt_pair_values(key_title(), opt_view(c.title), k);
    lemma_opt_pair_values(key_version(), Some(c.version@), k);
    lemma_opt_pair_values(key_linux(), Some(c.linux@), k);
    lemma_keyed_values(key_initrd(), strings_view(c.initrd@), k);
    lemma_opt_pair_values(key_options(), opt_view(c.options), k);
    lemma_opt_pair_values(key_machine_id(), opt_view(c.machine_id), k);
    lemma_opt_pair_values(key_sort_key(), opt_view(c.sort_key), k);
    assert forall|i: int| 0 <= i < p8.len() implies (#[trigger] p8[i]).0 != k by {
        assert(!is_known_key(p8[i].0));
    }
    lemma_no_key_values(p8, k);
    lemma_values_append(p1, p2, k);
    lemma_values_append(p1 + p2, p3, k);
    lemma_values_append(p1 + p2 + p3, p4, k);
    lemma_values_append(p1 + p2 + p3 + p4, p5, k);
    lemma_values_append(p1 + p2 + p3 + p4 + p5, p6, k);
    lemma_values_append(p1 + p2 + p3 + p4 + p5 + p6, p7, k);
    lemma_values_append(p1 + p2 + p3 + p4 + p5 + p6 + p7, p8, k);
    if k == key_initrd() {
        assert(all_values(config_pairs(c), k) =~= strings_view(c.initrd@));
    }
}

/// Rendering an entry and reading the text back gives the entry again, when
/// its text reads back (values are single lines with no white space at their
/// ends; extra keys are words that are not named fields, each used once).
/// What [`crate::bls::parse_bls_config`] promises of its result, this entry
/// meets for the text [`crate::bls::BLSConfig::to_string`] makes of it.
pub proof fn lemma_bls_round_trip(c: &BLSConfig)
    requires
        config_reads_back(c),
    ensures
        entries(render(c)) == config_pairs(c),
        c.holds(entries(render(c))),
{
    lemma_render_config(c);
    lemma_entries_of_rendered(config_pairs(c));
    let cp = config_pairs(c);
    lemma_known_keys_distinct();
    lemma_known_pair_keys(c, key_title());
    lemma_known_pair_keys(c, key_version());
    lemma_known_pair_keys(c, key_linux());
    lemma_known_pair_keys(c, key_initrd());
    lemma_known_pair_keys(c, key_options());
    lemma_known_pair_keys(c, key_machine_id());
    lemma_known_pair_keys(c, key_sort_key());
    let p8 = extra_view(c.extra@);
    let pre = opt_pair(key_title(), opt_view(c.title)) + seq![(key_version(), c.version@)] + seq![
        (key_linux(), c.linux@),
    ] + keyed(key_initrd(), strings_view(c.initrd@)) + opt_pair(key_options(), opt_view(c.options))
        + opt_pair(key_machine_id(), opt_view(c.machine_id)) + opt_pair(
        key_sort_key(),
        opt_view(c.sort_key),
    );
    assert(cp =~= pre + p8);
    assert forall|i: int| 0 <= i < pre.len() implies is_known_key(#[trigger] pre[i].0) by {
        let k = pre[i].0;
        assert(k == key_title() || k == key_version() || k == key_linux() || k == key_initrd() || k
            == key_options() || k == key_machine_id() || k == key_sort_key());
    }
    assert forall|i: int| 0 <= i < p8.len() implies !is_known_key(#[trigger] p8[i].0) && last_value(
        cp,
        p8[i].0,
    ) == Some(p8[i].1) by {
        assert forall|j: int| 0 <= j < pre.len() implies (#[trigger] pre[j]).0 != p8[i].0 by {
            assert(is_known_key(pre[j].0));
        }
        lemma_no_key_values(pre, p8[i].0);
        lemma_values_append(pre, p8, p8[i].0);
        lemma_unique_last_value(p8, i);
    }
    assert forall|k: Seq<char>| !is_known_key(k) && #[trigger] last_value(cp, k) is Some implies exists|i: int|
        0 <= i < p8.len() && #[trigger] p8[i].0 == k by {
        assert forall|j: int| 0 <= j < pre.len() implies (#[trigger] pre[j]).0 != k by {
            assert(is_known_key(pre[j].0));
        }
        lemma_no_key_values(pre, k);
        lemma_values_append(pre, p8, k);
        lemma_last_value_some(p8, k);
    }
}

/// `o` says "not after".
pub open spec fn not_after(o: Ordering) -> bool {
    o != Ordering::Greater
}

pub proof fn lemma_lex_antisym(a: Seq<char>, b: Seq<char>)
    ensures
        lex_order(b, a) == reversed(lex_order(a, b)),
    decreases a.len(),
{
    if a.len() > 0 && b.len() > 0 && a[0] == b[0] {
        lemma_lex_antisym(a.skip(1), b.skip(1));
    }
}

pub proof fn lemma_lex_equal(a: Seq<char>, b: Seq<char>)
    ensures
        lex_order(a, b) == Ordering::Equal <==> a == b,
    decreases a.len(),
{
    if a.len() > 0 && b.len() > 0 && a[0] == b[0] {
        lemma_lex_equal(a.skip(1), b.skip(1));
        if a.skip(1) == b.skip(1) {
            assert(a =~= seq![a[0]] + a.skip(1));
            assert(b =~= seq![b[0]] + b.skip(1));
        }
        if a == b {
            assert(a.skip(1) =~= b.skip(1));
        }
    } else if a.len() == 0 && b.len() == 0 {
        assert(a =~= b);
    }
}

pub proof fn lemma_lex_trans(a: Seq<char>, b: Seq<char>, c: Seq<char>)
    requires
        not_after(lex_order(a, b)),
        not_after(lex_order(b, c)),
    ensures
        not_after(lex_order(a, c)),
    decreases a.len(),
{
    if a.len() > 0 && b.len() > 0 && c.len() > 0 && a[0] == b[0] && b[0] == c[0] {
        lemma_lex_trans(a.skip(1), b.skip(1), c.skip(1));
    }
}

/// The order on optional keys is a total order: antisymmetric, equal only on
/// equal keys, and transitive.
pub proof fn lemma_key_order(a: Option<Seq<char>>, b: Option<Seq<char>>, c: Option<Seq<char>>)
    ensures
        key_order(b, a) == reversed(key_order(a, b)),
        key_order(a, b) == Ordering::Equal <==> a == b,
        not_after(key_order(a, b)) && not_after(key_order(b, c)) ==> not_after(key_order(a, c)),
{
    match (a, b) {
        (Some(x), Some(y)) => {
            lemma_lex_antisym(x, y);
            lemma_lex_equal(x, y);
        },
        _ => {},
    }
    match (a, b, c) {
        (Some(x), Some(y), Some(z)) => {
            if not_after(key_order(a, b)) && not_after(key_order(b, c)) {
                lemma_lex_trans(x, y, z);
            }
        },
        _ => {},
    }
}

proof fn lemma_key_strict(a: Option<Seq<char>>, b: Option<Seq<char>>, c: Option<Seq<char>>)
    requires
        not_after(key_order(a, b)),
        not_after(key_order(b, c)),
        key_order(a, b) == Ordering::Less || key_order(b, c) == Ordering::Less,
    ensures
        key_order(a, c) == Ordering::Less,
{
    lemma_key_order(a, b, c);
    lemma_key_order(a, c, b);
    lemma_key_order(b, a, c);
    lemma_key_order(c, b, a);
    lemma_key_order(b, c, a);
    lemma_key_order(c, a, b);
    if key_order(a, c) == Ordering::Equal {
        assert(a == c);
    }
}

/// The version order is a total order on these three versions.
pub open spec fn versions_ordered(x: Seq<char>, y: Seq<char>, z: Seq<char>) -> bool {
    &&& forall|p: Seq<char>, q: Seq<char>|
        (p == x || p == y || p == z) && (q == x || q == y || q == z) ==> #[trigger] version_order(q, p)
            == reversed(version_order(p, q))
    &&& forall|p: Seq<char>, q: Seq<char>, t: Seq<char>|
        (p == x || p == y || p == z) && (q == x || q == y || q == z) && (t == x || t == y || t == z)
            && not_after(#[trigger] version_order(p, q)) && not_after(#[trigger] version_order(q, t))
            ==> not_after(version_order(p, t))
}

/// The boot menu order is antisymmetric and transitive on three entries whose
/// versions the UAPI comparison orders totally; so sorting entries by it puts
/// one of highest priority (least sort key, then machine id, then newest
/// version) first.
pub proof fn lemma_entry_order_total(a: &BLSConfig, b: &BLSConfig, c: &BLSConfig)
    requires
        versions_ordered(a.version@, b.version@, c.version@),
    ensures
        entry_order(b, a) == reversed(entry_order(a, b)),
        not_after(entry_order(a, b)) && not_after(entry_order(b, c)) ==> not_after(entry_order(a, c)),
{
    let (sa, sb, sc) = (opt_view(a.sort_key), opt_view(b.sort_key), opt_view(c.sort_key));
    let (ma, mb, mc) = (opt_view(a.machine_id), opt_view(b.machine_id), opt_view(c.machine_id));
    lemma_key_order(sa, sb, sc);
    lemma_key_order(sb, sc, sa);
    lemma_key_order(ma, mb, mc);
    lemma_key_order(mb, mc, ma);
    assert(version_order(b.version@, a.version@) == reversed(version_order(a.version@, b.version@)));
    if not_after(entry_order(a, b)) && not_after(entry_order(b, c)) {
        let o_ab = key_order(sa, sb);
        let o_bc = key_order(sb, sc);
        if o_ab == Ordering::Less || o_bc == Ordering::Less {
            lemma_key_strict(sa, sb, sc);
        } else {
            assert(sa == sb && sb == sc);
            lemma_key_order(sa, sc, sb);
            let p_ab = key_order(ma, mb);
            let p_bc = key_order(mb, mc);
            if p_ab == Ordering::Less || p_bc == Ordering::Less {
                lemma_key_strict(ma, mb, mc);
            } else {
                assert(ma == mb && mb == mc);
                lemma_key_order(ma, mc, mb);
                let (va, vb, vc) = (a.version@, b.version@, c.version@);
                assert(version_order(vb, va) == reversed(version_order(va, vb)));
                assert(version_order(vc, vb) == reversed(version_order(vb, vc)));
                assert(version_order(vc, va) == reversed(version_order(va, vc)));
                assert(not_after(version_order(vc, vb)) && not_after(version_order(vb, va)));
                assert(not_after(version_order(vc, va)));
            }
        }
    }
}
} // verus!
