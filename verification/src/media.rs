//! The web pages name a folder or a media file by numbered query pairs
//! `index=component`; the server puts the components back in order.
use vstd::prelude::*;
use crate::path::{
    components, join_of, lemma_components_well_formed, lemma_path_of_components, path_of,
};
use crate::text::{chars_of, push_all, string_from_chars};

verus! {

/// The pairs are in the order of their numbers.
pub open spec fn params_sorted(s: Seq<(usize, String)>) -> bool {
    forall|i: int, j: int| 0 <= i < j < s.len() ==> (#[trigger] s[i]).0 <= (#[trigger] s[j]).0
}

/// The pair is numbered `k`.
pub open spec fn has_number(k: usize) -> spec_fn((usize, String)) -> bool {
    |p: (usize, String)| p.0 == k
}

/// The pairs of `s` numbered `k`, in order.
pub open spec fn numbered(s: Seq<(usize, String)>, k: usize) -> Seq<(usize, String)> {
    s.filter(has_number(k))
}

/// The pairs `p` in the order of their numbers, those with the same number in
/// the order given.
pub open spec fn in_number_order(p: Seq<(usize, String)>) -> Seq<(usize, String)> {
    choose|s: Seq<(usize, String)>|
        params_sorted(s) && forall|k: usize| #[trigger] numbered(s, k) == numbered(p, k)
}

/// The texts of the pairs, in order.
pub open spec fn texts(s: Seq<(usize, String)>) -> Seq<Seq<char>> {
    s.map_values(|p: (usize, String)| p.1@)
}

proof fn lemma_insert_sorted(out: Seq<(usize, String)>, j: int, y: (usize, String))
    requires
        0 <= j <= out.len(),
        params_sorted(out),
        j > 0 ==> out[j - 1].0 <= y.0,
        forall|k: int| j <= k < out.len() ==> (#[trigger] out[k]).0 > y.0,
    ensures
        params_sorted(out.insert(j, y)),
{
    let n = out.insert(j, y);
    out.insert_ensures(j, y);
    assert forall|p: int, q: int| 0 <= p < q < n.len() implies (#[trigger] n[p]).0 <= (#[trigger] n[q]).0 by {
        if q < j {
            assert(n[p] == out[p] && n[q] == out[q]);
        } else if q == j {
            assert(n[p] == out[p]);
            if p < j - 1 {
                assert(out[p].0 <= out[j - 1].0);
            }
        } else if p == j {
            assert(n[q] == out[q - 1]);
        } else if p < j {
            assert(n[p] == out[p] && n[q] == out[q - 1]);
        } else {
            assert(n[p] == out[p - 1] && n[q] == out[q - 1]);
        }
    }
}

proof fn lemma_insert_numbered(out: Seq<(usize, String)>, j: int, y: (usize, String), k: usize)
    requires
        0 <= j <= out.len(),
        forall|m: int| j <= m < out.len() ==> (#[trigger] out[m]).0 > y.0,
    ensures
        numbered(out.insert(j, y), k) == if y.0 == k {
            numbered(out, k).push(y)
        } else {
            numbered(out, k)
        },
{
    broadcast use Seq::filter_distributes_over_add, Seq::lemma_filter_push;
    let f = has_number(k);
    let a = out.take(j);
    let b = out.skip(j);
    assert(out =~= a + b);
    assert(out.insert(j, y) =~= a.push(y) + b);
    if y.0 == k {
        assert forall|m: int| 0 <= m < b.len() implies !f(#[trigger] b[m]) by {
            assert(b[m] == out[j + m]);
        }
        assert(b.all(|p: (usize, String)| !f(p)));
        b.lemma_all_neg_filter_empty(f);
        assert(b.filter(f) =~= Seq::<(usize, String)>::empty());
        assert(numbered(out, k) =~= a.filter(f));
        assert(numbered(out.insert(j, y), k) =~= a.filter(f).push(y));
    } else {
        assert(numbered(out.insert(j, y), k) =~= a.filter(f) + b.filter(f));
    }
}

proof fn lemma_numbered_push(s: Seq<(usize, String)>, y: (usize, String), k: usize)
    ensures
        numbered(s.push(y), k) == if y.0 == k {
            numbered(s, k).push(y)
        } else {
            numbered(s, k)
        },
{
    broadcast use Seq::lemma_filter_push;
}

proof fn lemma_numbered_above_empty(s: Seq<(usize, String)>, k: usize)
    requires
        forall|i: int| 0 <= i < s.len() ==> (#[trigger] s[i]).0 < k,
    ensures
        numbered(s, k).len() == 0,
    decreases s.len(),
{
    if s.len() > 0 {
        lemma_numbered_above_empty(s.drop_last(), k);
        assert(s =~= s.drop_last().push(s.last()));
        lemma_numbered_push(s.drop_last(), s.last(), k);
    }
}

/// Pairs in number order are determined by which pairs carry each number: two
/// sequences in number order with the same pairs, number by number, are equal.
pub proof fn lemma_number_order_unique(a: Seq<(usize, String)>, b: Seq<(usize, String)>)
    requires
        params_sorted(a),
        params_sorted(b),
        forall|k: usize| numbered(a, k) == numbered(b, k),
    ensures
        a == b,
    decreases a.len() + b.len(),
{
    if a.len() == 0 && b.len() == 0 {
        assert(a =~= b);
    } else if a.len() == 0 {
        let kb = b.last().0;
        assert(b =~= b.drop_last().push(b.last()));
        lemma_numbered_push(b.drop_last(), b.last(), kb);
        lemma_numbered_above_empty(a, kb);
        assert(numbered(a, kb) == numbered(b, kb));
    } else if b.len() == 0 {
        let ka = a.last().0;
        assert(a =~= a.drop_last().push(a.last()));
        lemma_numbered_push(a.drop_last(), a.last(), ka);
        lemma_numbered_above_empty(b, ka);
        assert(numbered(a, ka) == numbered(b, ka));
    } else {
        let ka = a.last().0;
        let kb = b.last().0;
        assert(a =~= a.drop_last().push(a.last()));
        assert(b =~= b.drop_last().push(b.last()));
        if ka < kb {
            lemma_numbered_push(b.drop_last(), b.last(), kb);
            assert forall|i: int| 0 <= i < a.len() implies (#[trigger] a[i]).0 < kb by {
                if i < a.len() - 1 {
                    assert(a[i].0 <= a[a.len() - 1].0);
                }
            }
            lemma_numbered_above_empty(a, kb);
            assert(numbered(a, kb) == numbered(b, kb));
        } else if kb < ka {
            lemma_numbered_push(a.drop_last(), a.last(), ka);
            assert forall|i: int| 0 <= i < b.len() implies (#[trigger] b[i]).0 < ka by {
                if i < b.len() - 1 {
                    assert(b[i].0 <= b[b.len() - 1].0);
                }
            }
            lemma_numbered_above_empty(b, ka);
            assert(numbered(a, ka) == numbered(b, ka));
        } else {
            let a0 = a.drop_last();
            let b0 = b.drop_last();
            lemma_numbered_push(a0, a.last(), ka);
            lemma_numbered_push(b0, b.last(), ka);
            assert(numbered(a, ka) == numbered(b, ka));
            assert(numbered(a, ka).last() == a.last());
            assert(numbered(b, ka).last() == b.last());
            assert(numbered(a0, ka) =~= numbered(a, ka).drop_last());
            assert(numbered(b0, ka) =~= numbered(b, ka).drop_last());
            assert forall|k: usize| numbered(a0, k) == numbered(b0, k) by {
                lemma_numbered_push(a0, a.last(), k);
                lemma_numbered_push(b0, b.last(), k);
                assert(numbered(a, k) == numbered(b, k));
            }
            assert(params_sorted(a0)) by {
                assert forall|i: int, j: int| 0 <= i < j < a0.len() implies (#[trigger] a0[i]).0 <= (#[trigger] a0[j]).0 by {
                    assert(a0[i] == a[i] && a0[j] == a[j]);
                }
            }
            assert(params_sorted(b0)) by {
                assert forall|i: int, j: int| 0 <= i < j < b0.len() implies (#[trigger] b0[i]).0 <= (#[trigger] b0[j]).0 by {
                    assert(b0[i] == b[i] && b0[j] == b[j]);
                }
            }
            lemma_number_order_unique(a0, b0);
        }
    }
}

/// The pairs in the order of their numbers; pairs with the same number keep their
/// order (a stable sort by number).
pub fn sort_params(params: Vec<(usize, String)>) -> (r: Vec<(usize, String)>)
    ensures
        params_sorted(r@),
        forall|k: usize| numbered(r@, k) == numbered(params@, k),
{
    let ghost all = params@;
    let mut params = params;
    let mut out: Vec<(usize, String)> = Vec::new();
    let n = params.len();
    let mut i: usize = 0;
    while i < n
        invariant
            n == all.len(),
            i <= n,
            params@ == all.skip(i as int),
            params_sorted(out@),
            forall|k: usize| numbered(out@, k) == numbered(all.take(i as int), k),
        decreases n - i,
    {
        let y = params.remove(0);
        proof {
            assert(all.skip(i as int).remove(0) =~= all.skip(i + 1));
        }
        let mut j: usize = out.len();
        while j > 0 && out[j - 1].0 > y.0
            invariant
                j <= out@.len(),
                forall|m: int| j <= m < out@.len() ==> (#[trigger] out@[m]).0 > y.0,
            decreases j,
        {
            j = j - 1;
        }
        let ghost before = out@;
        proof {
            lemma_insert_sorted(before, j as int, y);
            assert forall|k: usize| #[trigger] numbered(before.insert(j as int, y), k) == (if y.0 == k {
                numbered(before, k).push(y)
            } else {
                numbered(before, k)
            }) by {
                lemma_insert_numbered(before, j as int, y, k);
            }
        }
        out.insert(j, y);
        i = i + 1;
        proof {
            broadcast use Seq::lemma_filter_push;
            let t = all.take(i as int);
            assert(t =~= all.take(i - 1).push(y));
            assert forall|k: usize| numbered(out@, k) == numbered(t, k) by {
                assert(numbered(out@, k) == numbered(before.insert(j as int, y), k));
            }
        }
    }
    assert(all.take(n as int) =~= all);
    out
}

/// The folder that the pairs name: their texts, in the order of their numbers,
/// pushed onto an empty path.
pub fn folder_of_params(params: Vec<(usize, String)>) -> (r: String)
    ensures
        r@ == path_of(texts(in_number_order(params@))),
{
    let ghost given = params@;
    let sorted = sort_params(params);
    proof {
        lemma_in_number_order_is(given, sorted@);
    }
    let mut out: Vec<char> = Vec::new();
    let mut i: usize = 0;
    assert(texts(sorted@).take(0) =~= Seq::<Seq<char>>::empty());
    while i < sorted.len()
        invariant
            i <= sorted@.len(),
            out@ == path_of(texts(sorted@).take(i as int)),
        decreases sorted@.len() - i,
    {
        let c = chars_of(sorted[i].1.as_str());
        let next = join_of(out.as_slice(), c.as_slice());
        out = next;
        i = i + 1;
        proof {
            let t = texts(sorted@).take(i as int);
            assert(t.drop_last() =~= texts(sorted@).take(i - 1));
            assert(t.last() == sorted@[i - 1].1@);
        }
    }
    assert(texts(sorted@).take(i as int) =~= texts(sorted@));
    string_from_chars(out.as_slice())
}

/// The address of the media file under `/download` that the texts `cs` name, in
/// order: `/download`, then `/` and each text.
pub open spec fn media_url_of(cs: Seq<Seq<char>>) -> Seq<char>
    decreases cs.len(),
{
    if cs.len() == 0 {
        seq!['/', 'd', 'o', 'w', 'n', 'l', 'o', 'a', 'd']
    } else {
        media_url_of(cs.drop_last()) + seq!['/'] + cs.last()
    }
}

/// The address of the media file that the pairs name, taken in the order of their
/// numbers.
pub fn media_url(params: Vec<(usize, String)>) -> (r: String)
    ensures
        r@ == media_url_of(texts(in_number_order(params@))),
{
    let ghost given = params@;
    let sorted = sort_params(params);
    proof {
        lemma_in_number_order_is(given, sorted@);
    }
    let mut out: Vec<char> = vec!['/', 'd', 'o', 'w', 'n', 'l', 'o', 'a', 'd'];
    let mut i: usize = 0;
    assert(out@ =~= media_url_of(texts(sorted@).take(0)));
    while i < sorted.len()
        invariant
            i <= sorted@.len(),
            out@ == media_url_of(texts(sorted@).take(i as int)),
        decreases sorted@.len() - i,
    {
        let ghost before = out@;
        out.push('/');
        let c = chars_of(sorted[i].1.as_str());
        push_all(&mut out, c.as_slice());
        i = i + 1;
        proof {
            let t = texts(sorted@).take(i as int);
            assert(t.drop_last() =~= texts(sorted@).take(i - 1));
            assert(t.last() == sorted@[i - 1].1@);
            assert(out@ =~= before + seq!['/'] + t.last());
        }
    }
    assert(texts(sorted@).take(i as int) =~= texts(sorted@));
    string_from_chars(out.as_slice())
}

/// Any arrangement of the pairs `p` in number order that keeps the order of pairs
/// with the same number is their number order.
pub proof fn lemma_in_number_order_is(p: Seq<(usize, String)>, s: Seq<(usize, String)>)
    requires
        params_sorted(s),
        forall|k: usize| numbered(s, k) == numbered(p, k),
    ensures
        in_number_order(p) == s,
{
    let c = in_number_order(p);
    assert(params_sorted(c) && forall|k: usize| #[trigger] numbered(c, k) == numbered(p, k));
    lemma_number_order_unique(c, s);
}

/// The order in which the pairs arrive does not matter: pairs that are the same,
/// number by number, name the same folder and the same media file.
pub proof fn lemma_arrival_order_irrelevant(
    p: Seq<(usize, String)>,
    q: Seq<(usize, String)>,
    s: Seq<(usize, String)>,
)
    requires
        forall|k: usize| numbered(p, k) == numbered(q, k),
        params_sorted(s),
        forall|k: usize| numbered(s, k) == numbered(p, k),
    ensures
        path_of(texts(in_number_order(p))) == path_of(texts(in_number_order(q))),
        media_url_of(texts(in_number_order(p))) == media_url_of(texts(in_number_order(q))),
{
    lemma_in_number_order_is(p, s);
    lemma_in_number_order_is(q, s);
}

/// The pairs of a location query, numbered 0, 1, 2, ... in order as
/// `path_as_query` writes them, name the folder their texts make, and the media
/// file under `/download` at that place.
pub proof fn lemma_query_pairs_name_their_path(s: Seq<(usize, String)>)
    requires
        forall|i: int| 0 <= i < s.len() ==> (#[trigger] s[i]).0 == i,
    ensures
        path_of(texts(in_number_order(s))) == path_of(texts(s)),
        media_url_of(texts(in_number_order(s))) == media_url_of(texts(s)),
{
    assert(params_sorted(s));
    lemma_in_number_order_is(s, s);
}

/// The location query of a folder leads back to it: the pairs numbered 0, 1, 2,
/// ... that carry the components of `p` (as `path_as_query` writes them), in
/// whatever order they arrive, name a folder with the components of `p`.
pub proof fn lemma_query_leads_back(p: Seq<char>, s: Seq<(usize, String)>, q: Seq<(usize, String)>)
    requires
        forall|i: int| 0 <= i < s.len() ==> (#[trigger] s[i]).0 == i,
        texts(s) == components(p),
        forall|k: usize| numbered(q, k) == numbered(s, k),
    ensures
        components(path_of(texts(in_number_order(q)))) == components(p),
{
    assert(params_sorted(s));
    lemma_in_number_order_is(q, s);
    lemma_components_well_formed(p);
    lemma_path_of_components(components(p));
}

} // verus!
