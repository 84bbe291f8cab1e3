//! Keeping localhost traffic out of HTTP proxies.
use vstd::prelude::*;
use crate::text::{
    chars_of, eq_ignore_ascii_case, eq_ignore_ascii_case_exec, free_of, is_trimmed,
    is_ws, lemma_free_subrange, lemma_split_append, lemma_split_free,
    lemma_split_pieces_free, lemma_trim_end_fixed, lemma_trim_shape, lemma_trim_start_fixed, split,
    split_exec, string_of, trim, trimmed, views, join, join_exec,
};

verus! {

/// The trimmed, non-empty pieces of `p`, in order.
pub open spec fn nonempty_trimmed(p: Seq<Seq<char>>) -> Seq<Seq<char>>
    decreases p.len(),
{
    if p.len() == 0 {
        Seq::empty()
    } else {
        let r = nonempty_trimmed(p.drop_last());
        let t = trim(p.last());
        if t.len() == 0 {
            r
        } else {
            r.push(t)
        }
    }
}

/// The entries of a comma-separated `NO_PROXY` list.
pub open spec fn no_proxy_entries(s: Seq<char>) -> Seq<Seq<char>> {
    nonempty_trimmed(split(s, ','))
}

/// Some entry of `es` equals `h` up to ASCII case.
pub open spec fn has_entry(es: Seq<Seq<char>>, h: Seq<char>) -> bool {
    exists|i: int| 0 <= i < es.len() && eq_ignore_ascii_case(#[trigger] es[i], h)
}

/// `es` with `h` appended unless some entry already names it.
pub open spec fn with_host(es: Seq<Seq<char>>, h: Seq<char>) -> Seq<Seq<char>> {
    if has_entry(es, h) {
        es
    } else {
        es.push(h)
    }
}

pub open spec fn host_v4() -> Seq<char> {
    seq!['1', '2', '7', '.', '0', '.', '0', '.', '1']
}

pub open spec fn host_name() -> Seq<char> {
    seq!['l', 'o', 'c', 'a', 'l', 'h', 'o', 's', 't']
}

pub open spec fn host_v6() -> Seq<char> {
    seq![':', ':', '1']
}

/// The entries of the list that `no_proxy_with_loopback` returns.
pub open spec fn loopback_entries(existing: Seq<char>) -> Seq<Seq<char>> {
    with_host(with_host(with_host(no_proxy_entries(existing), host_v4()), host_name()), host_v6())
}

/// The list that `no_proxy_with_loopback` returns.
pub open spec fn no_proxy_spec(existing: Seq<char>) -> Seq<char> {
    join(loopback_entries(existing), seq![','])
}

fn host_chars(k: usize) -> (h: Vec<char>)
    requires
        k < 3,
    ensures
        k == 0 ==> h@ == host_v4(),
        k == 1 ==> h@ == host_name(),
        k == 2 ==> h@ == host_v6(),
{
    let h = if k == 0 {
        chars_of("127.0.0.1")
    } else if k == 1 {
        chars_of("localhost")
    } else {
        chars_of("::1")
    };
    proof {
        reveal_strlit("127.0.0.1");
        reveal_strlit("localhost");
        reveal_strlit("::1");
    }
    h
}

fn has_entry_exec(es: &Vec<Vec<char>>, h: &[char]) -> (b: bool)
    ensures
        b == has_entry(views(es@), h@),
{
    let mut i: usize = 0;
    while i < es.len()
        invariant
            i <= es@.len(),
            forall|j: int| 0 <= j < i ==> !eq_ignore_ascii_case(#[trigger] views(es@)[j], h@),
        decreases es@.len() - i,
    {
        if eq_ignore_ascii_case_exec(es[i].as_slice(), h) {
            assert(views(es@)[i as int] == es@[i as int]@);
            return true;
        }
        assert(views(es@)[i as int] == es@[i as int]@);
        i += 1;
    }
    false
}

/// Return a comma-separated `NO_PROXY` / `no_proxy` list that always
/// bypasses loopback: the trimmed non-empty entries of `existing`, followed by
/// each of `127.0.0.1`, `localhost` and `::1` that no entry already names
/// (ignoring ASCII case).
pub fn no_proxy_with_loopback(existing: &str) -> (r: String)
    ensures
        r@ == no_proxy_spec(existing@),
{
    let chars = chars_of(existing);
    let pieces = split_exec(chars.as_slice(), ',');
    let mut entries: Vec<Vec<char>> = Vec::new();
    let mut i: usize = 0;
    while i < pieces.len()
        invariant
            i <= pieces@.len(),
            views(entries@) == nonempty_trimmed(views(pieces@).subrange(0, i as int)),
        decreases pieces@.len() - i,
    {
        let ghost pre = views(pieces@).subrange(0, i as int);
        let ghost post = views(pieces@).subrange(0, i + 1);
        assert(post.drop_last() == pre);
        let t = trimmed(pieces[i].as_slice());
        if t.len() > 0 {
            let ghost old_entries = entries@;
            entries.push(t);
            assert(views(entries@) =~= views(old_entries).push(t@));
        }
        i += 1;
    }
    assert(views(pieces@).subrange(0, pieces@.len() as int) == views(pieces@));
    let mut k: usize = 0;
    while k < 3
        invariant
            k <= 3,
            k == 0 ==> views(entries@) == no_proxy_entries(chars@),
            k == 1 ==> views(entries@) == with_host(no_proxy_entries(chars@), host_v4()),
            k == 2 ==> views(entries@) == with_host(
                with_host(no_proxy_entries(chars@), host_v4()),
                host_name(),
            ),
            k == 3 ==> views(entries@) == loopback_entries(chars@),
        decreases 3 - k,
    {
        let h = host_chars(k);
        if !has_entry_exec(&entries, h.as_slice()) {
            let ghost old_entries = entries@;
            entries.push(h);
            assert(views(entries@) =~= views(old_entries).push(h@));
        }
        k += 1;
    }
    let joined = join_exec(&entries, ',');
    string_of(joined.as_slice())
}

// ---------------------------------------------------------------------------
// Laws
// ---------------------------------------------------------------------------

/// A well-formed list entry: non-empty, trimmed and free of commas.
pub open spec fn good_entry(e: Seq<char>) -> bool {
    e.len() > 0 && is_trimmed(e) && free_of(e, ',')
}

pub open spec fn good_entries(es: Seq<Seq<char>>) -> bool {
    forall|i: int| 0 <= i < es.len() ==> good_entry(#[trigger] es[i])
}

proof fn lemma_split_join(es: Seq<Seq<char>>)
    requires
        es.len() >= 1,
        good_entries(es),
    ensures
        split(join(es, seq![',']), ',') == es,
    decreases es.len(),
{
    if es.len() == 1 {
        assert(good_entry(es[0]));
        lemma_split_free(es[0], ',');
        assert(es == seq![es[0]]);
    } else {
        let d = es.drop_last();
        assert(good_entries(d)) by {
            assert forall|i: int| 0 <= i < d.len() implies good_entry(#[trigger] d[i]) by {
                assert(d[i] == es[i]);
            }
        }
        lemma_split_join(d);
        assert(good_entry(es[es.len() - 1]));
        lemma_split_append(join(d, seq![',']), ',', es.last());
        assert(d.push(es.last()) == es);
    }
}

proof fn lemma_nonempty_trimmed_fixed(es: Seq<Seq<char>>)
    requires
        good_entries(es),
    ensures
        nonempty_trimmed(es) == es,
    decreases es.len(),
{
    if es.len() > 0 {
        let d = es.drop_last();
        assert(good_entries(d)) by {
            assert forall|i: int| 0 <= i < d.len() implies good_entry(#[trigger] d[i]) by {
                assert(d[i] == es[i]);
            }
        }
        lemma_nonempty_trimmed_fixed(d);
        assert(good_entry(es[es.len() - 1]));
        assert(d.push(es.last()) == es);
    }
}

/// Reading a joined list of well-formed entries back gives those entries.
proof fn lemma_entries_of_join(es: Seq<Seq<char>>)
    requires
        good_entries(es),
    ensures
        no_proxy_entries(join(es, seq![','])) == es,
{
    if es.len() == 0 {
        let e = Seq::<char>::empty();
        assert(split(e, ',') == seq![e]);
        assert(seq![e].drop_last() == Seq::<Seq<char>>::empty());
        lemma_trim_end_fixed(e);
        lemma_trim_start_fixed(e);
        assert(trim(e).len() == 0);
        assert(seq![e].last() == e);
        assert(nonempty_trimmed(seq![e]) == nonempty_trimmed(Seq::<Seq<char>>::empty()));
        assert(es == Seq::<Seq<char>>::empty());
        assert(join(es, seq![',']) == e);
    } else {
        lemma_split_join(es);
        lemma_nonempty_trimmed_fixed(es);
    }
}

proof fn lemma_nonempty_trimmed_good(p: Seq<Seq<char>>)
    requires
        forall|i: int| 0 <= i < p.len() ==> free_of(#[trigger] p[i], ','),
    ensures
        good_entries(nonempty_trimmed(p)),
    decreases p.len(),
{
    if p.len() > 0 {
        let d = p.drop_last();
        assert forall|i: int| 0 <= i < d.len() implies free_of(#[trigger] d[i], ',') by {
            assert(d[i] == p[i]);
        }
        lemma_nonempty_trimmed_good(d);
        let t = trim(p.last());
        lemma_trim_shape(p.last());
        assert(free_of(p[p.len() - 1], ','));
        let (a, b) = choose|a: int, b: int|
            0 <= a <= b <= p.last().len() && #[trigger] p.last().subrange(a, b) == t;
        lemma_free_subrange(p.last(), ',', a, b);
        let r = nonempty_trimmed(d);
        if t.len() > 0 {
            assert forall|i: int| 0 <= i < r.push(t).len() implies good_entry(
                #[trigger] r.push(t)[i],
            ) by {
                if i < r.len() {
                    assert(r.push(t)[i] == r[i]);
                }
            }
        }
    }
}

proof fn lemma_host_good(h: Seq<char>)
    requires
        h == host_v4() || h == host_name() || h == host_v6(),
    ensures
        good_entry(h),
{
    assert(!is_ws(h.last()));
    assert(!is_ws(h[0]));
    lemma_trim_end_fixed(h);
    lemma_trim_start_fixed(h);
}

proof fn lemma_with_host(es: Seq<Seq<char>>, h: Seq<char>)
    requires
        good_entries(es),
        good_entry(h),
    ensures
        good_entries(with_host(es, h)),
        has_entry(with_host(es, h), h),
        es.len() <= with_host(es, h).len(),
        with_host(es, h).subrange(0, es.len() as int) == es,
        forall|g: Seq<char>| has_entry(es, g) ==> has_entry(with_host(es, h), g),
        has_entry(es, h) ==> with_host(es, h) == es,
{
    let r = with_host(es, h);
    if !has_entry(es, h) {
        assert forall|i: int| 0 <= i < r.len() implies good_entry(#[trigger] r[i]) by {
            if i < es.len() {
                assert(r[i] == es[i]);
            }
        }
        assert(eq_ignore_ascii_case(r[es.len() as int], h));
        assert forall|g: Seq<char>| has_entry(es, g) implies has_entry(r, g) by {
            let i = choose|i: int| 0 <= i < es.len() && eq_ignore_ascii_case(#[trigger] es[i], g);
            assert(r[i] == es[i]);
        }
    }
    assert(r.subrange(0, es.len() as int) == es);
}

proof fn lemma_loopback_entries(existing: Seq<char>)
    ensures
        good_entries(loopback_entries(existing)),
        has_entry(loopback_entries(existing), host_v4()),
        has_entry(loopback_entries(existing), host_name()),
        has_entry(loopback_entries(existing), host_v6()),
        loopback_entries(existing).subrange(0, no_proxy_entries(existing).len() as int)
            == no_proxy_entries(existing),
{
    lemma_split_pieces_free(existing, ',');
    lemma_nonempty_trimmed_good(split(existing, ','));
    lemma_host_good(host_v4());
    lemma_host_good(host_name());
    lemma_host_good(host_v6());
    let e0 = no_proxy_entries(existing);
    let e1 = with_host(e0, host_v4());
    let e2 = with_host(e1, host_name());
    lemma_with_host(e0, host_v4());
    lemma_with_host(e1, host_name());
    lemma_with_host(e2, host_v6());
    assert(e2.subrange(0, e0.len() as int) == e1.subrange(0, e0.len() as int));
    assert(with_host(e2, host_v6()).subrange(0, e0.len() as int) == e2.subrange(
        0,
        e0.len() as int,
    ));
}

/// The list that `no_proxy_with_loopback` returns names each loopback host
/// (`127.0.0.1`, `localhost`, `::1`), keeps the existing entries first and
/// in order, and is left unchanged when passed through it again.
pub proof fn law_no_proxy_bypasses_loopback(existing: Seq<char>)
    ensures
        has_entry(no_proxy_entries(no_proxy_spec(existing)), host_v4()),
        has_entry(no_proxy_entries(no_proxy_spec(existing)), host_name()),
        has_entry(no_proxy_entries(no_proxy_spec(existing)), host_v6()),
        no_proxy_entries(no_proxy_spec(existing)).subrange(
            0,
            no_proxy_entries(existing).len() as int,
        ) == no_proxy_entries(existing),
        no_proxy_spec(no_proxy_spec(existing)) == no_proxy_spec(existing),
{
    let es = loopback_entries(existing);
    lemma_loopback_entries(existing);
    lemma_entries_of_join(es);
    let e1 = with_host(es, host_v4());
    let e2 = with_host(e1, host_name());
    lemma_host_good(host_v4());
    lemma_host_good(host_name());
    lemma_with_host(es, host_v4());
    lemma_with_host(e1, host_name());
    lemma_with_host(e2, host_v6());
}

} // verus!
