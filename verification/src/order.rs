//! The order in which listings show entries.
use vstd::prelude::*;
use crate::path::file_name_of;
use crate::text::chars_of;
use crate::unit::{has_name, kind_rank, name_of, Unit, UnitKind};

verus! {

/// `a` comes no later than `b` in the lexicographic order of their characters (the
/// order of `String`).
pub open spec fn lex_le(a: Seq<char>, b: Seq<char>) -> bool
    decreases a.len(),
{
    if a.len() == 0 {
        true
    } else if b.len() == 0 {
        false
    } else if a[0] != b[0] {
        (a[0] as int) < (b[0] as int)
    } else {
        lex_le(a.drop_first(), b.drop_first())
    }
}

/// Any two character sequences are ordered one way or the other.
pub proof fn lemma_lex_total(a: Seq<char>, b: Seq<char>)
    ensures
        lex_le(a, b) || lex_le(b, a),
    decreases a.len(),
{
    if a.len() > 0 && b.len() > 0 {
        if a[0] == b[0] {
            lemma_lex_total(a.drop_first(), b.drop_first());
        } else {
            assert((a[0] as int) != (b[0] as int));
        }
    }
}

/// The lexicographic order is transitive.
pub proof fn lemma_lex_trans(a: Seq<char>, b: Seq<char>, c: Seq<char>)
    requires
        lex_le(a, b),
        lex_le(b, c),
    ensures
        lex_le(a, c),
    decreases a.len(),
{
    if a.len() > 0 && b.len() > 0 && c.len() > 0 && a[0] == b[0] && b[0] == c[0] {
        lemma_lex_trans(a.drop_first(), b.drop_first(), c.drop_first());
    }
}

/// `a` comes no later than `b` in the order of `String`: either `a` is a prefix of
/// `b` (so the empty text comes first, and a name before every longer name it
/// begins), or at the first place where they differ `a` has the smaller character.
pub proof fn lemma_lex_is_string_order(a: Seq<char>, b: Seq<char>)
    ensures
        lex_le(a, b) <==> ((a.len() <= b.len() && b.take(a.len() as int) == a) || exists|i: int|
            0 <= i < a.len() && i < b.len() && a.take(i) == b.take(i) && (a[i] as int) < (#[trigger] b[i] as int)),
    decreases a.len(),
{
    if a.len() == 0 {
        assert(b.take(0) =~= a);
    } else if b.len() == 0 {
    } else if a[0] != b[0] {
        assert(!(a.len() <= b.len() && b.take(a.len() as int) == a)) by {
            if a.len() <= b.len() && b.take(a.len() as int) == a {
                assert(b.take(a.len() as int)[0] == b[0]);
            }
        }
        if (a[0] as int) < (b[0] as int) {
            assert(a.take(0) =~= b.take(0));
        }
        assert forall|i: int| 0 <= i < a.len() && i < b.len() && a.take(i) == b.take(i) implies i == 0 by {
            if i > 0 {
                assert(a.take(i)[0] == b.take(i)[0]);
            }
        }
    } else {
        let a1 = a.drop_first();
        let b1 = b.drop_first();
        lemma_lex_is_string_order(a1, b1);
        assert((a.len() <= b.len() && b.take(a.len() as int) == a) <==> (a1.len() <= b1.len() && b1.take(
            a1.len() as int,
        ) == a1)) by {
            if a.len() <= b.len() && b.take(a.len() as int) == a {
                assert(b1.take(a1.len() as int) =~= b.take(a.len() as int).drop_first());
            }
            if a1.len() <= b1.len() && b1.take(a1.len() as int) == a1 {
                assert forall|k: int| 0 <= k < a.len() implies b.take(a.len() as int)[k] == a[k] by {
                    if k > 0 {
                        assert(b1.take(a1.len() as int)[k - 1] == a1[k - 1]);
                    }
                }
                assert(b.take(a.len() as int) =~= a);
            }
        }
        if exists|i: int|
            0 <= i < a.len() && i < b.len() && a.take(i) == b.take(i) && (a[i] as int) < (#[trigger] b[i] as int) {
            let i = choose|i: int|
                0 <= i < a.len() && i < b.len() && a.take(i) == b.take(i) && (a[i] as int) < (#[trigger] b[i] as int);
            assert(i > 0);
            assert(a1.take(i - 1) =~= a.take(i).drop_first());
            assert(b1.take(i - 1) =~= b.take(i).drop_first());
            assert(a1[i - 1] == a[i] && b1[i - 1] == b[i]);
        }
        if exists|j: int|
            0 <= j < a1.len() && j < b1.len() && a1.take(j) == b1.take(j) && (a1[j] as int) < (#[trigger] b1[j] as int) {
            let j = choose|j: int|
                0 <= j < a1.len() && j < b1.len() && a1.take(j) == b1.take(j) && (a1[j] as int) < (#[trigger] b1[j] as int);
            let ta = a.take(j + 1);
            let tb = b.take(j + 1);
            assert forall|k: int| 0 <= k < j + 1 implies #[trigger] ta[k] == tb[k] by {
                if k > 0 {
                    assert(a1.take(j)[k - 1] == b1.take(j)[k - 1]);
                }
            }
            assert(a.take(j + 1) =~= b.take(j + 1));
            assert(a[j + 1] == a1[j] && b[j + 1] == b1[j]);
        }
    }
}

/// Sequences ordered both ways are equal.
pub proof fn lemma_lex_antisym(a: Seq<char>, b: Seq<char>)
    requires
        lex_le(a, b),
        lex_le(b, a),
    ensures
        a == b,
    decreases a.len(),
{
    if a.len() > 0 && b.len() > 0 {
        lemma_lex_antisym(a.drop_first(), b.drop_first());
        assert(a =~= seq![a[0]] + a.drop_first());
        assert(b =~= seq![b[0]] + b.drop_first());
    } else {
        assert(a =~= b);
    }
}

/// Whether `a` comes no later than `b` lexicographically.
pub fn lex_le_exec(a: &[char], b: &[char]) -> (r: bool)
    ensures
        r == lex_le(a@, b@),
{
    let mut i: usize = 0;
    assert(a@.skip(0) =~= a@);
    assert(b@.skip(0) =~= b@);
    loop
        invariant
            i <= a@.len(),
            i <= b@.len(),
            lex_le(a@, b@) == lex_le(a@.skip(i as int), b@.skip(i as int)),
        decreases a@.len() - i,
    {
        if i == a.len() {
            return true;
        }
        if i == b.len() {
            return false;
        }
        let x = a[i];
        let y = b[i];
        assert(a@.skip(i as int)[0] == x);
        assert(b@.skip(i as int)[0] == y);
        if x != y {
            return x < y;
        }
        assert(a@.skip(i as int).drop_first() =~= a@.skip(i + 1));
        assert(b@.skip(i as int).drop_first() =~= b@.skip(i + 1));
        i = i + 1;
    }
}

/// `a` is listed no later than `b`: by kind first, then by name.
pub open spec fn unit_le(a: Unit, b: Unit) -> bool {
    kind_rank(a.kind) < kind_rank(b.kind) || (kind_rank(a.kind) == kind_rank(b.kind)
        && lex_le(name_of(a), name_of(b)))
}

/// `a` and `b` have the same place in a listing: same kind and same name.
pub open spec fn same_place(a: Unit, b: Unit) -> bool {
    a.kind == b.kind && name_of(a) == name_of(b)
}

/// The entries are in listing order.
pub open spec fn listed_in_order(s: Seq<Unit>) -> bool {
    forall|i: int, j: int| 0 <= i < j < s.len() ==> unit_le(#[trigger] s[i], #[trigger] s[j])
}

/// Every entry has a name.
pub open spec fn all_named(s: Seq<Unit>) -> bool {
    forall|i: int| 0 <= i < s.len() ==> has_name(#[trigger] s[i])
}

proof fn lemma_unit_total(a: Unit, b: Unit)
    ensures
        unit_le(a, b) || unit_le(b, a),
{
    lemma_lex_total(name_of(a), name_of(b));
}

proof fn lemma_unit_trans(a: Unit, b: Unit, c: Unit)
    requires
        unit_le(a, b),
        unit_le(b, c),
    ensures
        unit_le(a, c),
{
    if kind_rank(a.kind) == kind_rank(b.kind) && kind_rank(b.kind) == kind_rank(c.kind) {
        lemma_lex_trans(name_of(a), name_of(b), name_of(c));
    }
}

proof fn lemma_not_le_not_same(a: Unit, b: Unit)
    requires
        !unit_le(a, b),
    ensures
        !same_place(a, b),
{
    if same_place(a, b) {
        lemma_lex_total(name_of(a), name_of(b));
    }
}

proof fn lemma_same_place_le(a: Unit, b: Unit)
    requires
        same_place(a, b),
    ensures
        unit_le(a, b),
{
    lemma_lex_total(name_of(a), name_of(b));
}

fn rank_exec(k: UnitKind) -> (r: u8)
    ensures
        r as int == kind_rank(k),
{
    match k {
        UnitKind::Dirctory => 0,
        UnitKind::Video => 1,
        UnitKind::Audio => 2,
        UnitKind::File => 3,
    }
}

/// Whether `a` is listed no later than `b`.
pub fn unit_le_exec(a: &Unit, b: &Unit) -> (r: bool)
    requires
        has_name(*a),
        has_name(*b),
    ensures
        r == unit_le(*a, *b),
{
    let ra = rank_exec(a.kind);
    let rb = rank_exec(b.kind);
    if ra != rb {
        return ra < rb;
    }
    let pa = chars_of(a.path.as_str());
    let pb = chars_of(b.path.as_str());
    let na = file_name_of(pa.as_slice()).unwrap();
    let nb = file_name_of(pb.as_slice()).unwrap();
    lex_le_exec(na.as_slice(), nb.as_slice())
}

proof fn lemma_lex_refl(a: Seq<char>)
    ensures
        lex_le(a, a),
    decreases a.len(),
{
    if a.len() > 0 {
        lemma_lex_refl(a.drop_first());
    }
}

/// The entries of `s` that have the same place as `x`, in order.
pub open spec fn place_class(s: Seq<Unit>, x: Unit) -> Seq<Unit> {
    s.filter(|u: Unit| same_place(u, x))
}

proof fn lemma_insert_in_order(out: Seq<Unit>, j: int, y: Unit)
    requires
        0 <= j <= out.len(),
        listed_in_order(out),
        j > 0 ==> unit_le(out[j - 1], y),
        forall|k: int| j <= k < out.len() ==> !unit_le(#[trigger] out[k], y),
    ensures
        listed_in_order(out.insert(j, y)),
{
    let n = out.insert(j, y);
    out.insert_ensures(j, y);
    assert forall|p: int, q: int| 0 <= p < q < n.len() implies unit_le(#[trigger] n[p], #[trigger] n[q]) by {
        if q < j {
            assert(n[p] == out[p] && n[q] == out[q]);
        } else if q == j {
            assert(n[q] == y && n[p] == out[p]);
            if p < j - 1 {
                lemma_unit_trans(out[p], out[j - 1], y);
            }
        } else if p == j {
            assert(n[q] == out[q - 1]);
            lemma_unit_total(out[q - 1], y);
        } else if p < j {
            assert(n[p] == out[p] && n[q] == out[q - 1]);
        } else {
            assert(n[p] == out[p - 1] && n[q] == out[q - 1]);
        }
    }
}

proof fn lemma_insert_class(out: Seq<Unit>, j: int, y: Unit, x: Unit)
    requires
        0 <= j <= out.len(),
        forall|k: int| j <= k < out.len() ==> !unit_le(#[trigger] out[k], y),
    ensures
        place_class(out.insert(j, y), x) == if same_place(y, x) {
            place_class(out, x).push(y)
        } else {
            place_class(out, x)
        },
{
    broadcast use Seq::filter_distributes_over_add, Seq::lemma_filter_push;
    let f = |u: Unit| same_place(u, x);
    let a = out.take(j);
    let b = out.skip(j);
    assert(out =~= a + b);
    assert(out.insert(j, y) =~= a.push(y) + b);
    if same_place(y, x) {
        assert forall|k: int| 0 <= k < b.len() implies !f(#[trigger] b[k]) by {
            assert(b[k] == out[j + k]);
            lemma_not_le_not_same(out[j + k], y);
        }
        assert(b.all(|u: Unit| !f(u)));
        b.lemma_all_neg_filter_empty(f);
        assert(b.filter(f) =~= Seq::<Unit>::empty());
        assert(place_class(out, x) =~= a.filter(f));
        assert(place_class(out.insert(j, y), x) =~= a.filter(f).push(y));
    } else {
        assert(place_class(out.insert(j, y), x) =~= a.filter(f) + b.filter(f));
    }
}

proof fn lemma_insert_multiset(s: Seq<Unit>, j: int, y: Unit)
    requires
        0 <= j <= s.len(),
    ensures
        s.insert(j, y).to_multiset() =~= s.to_multiset().insert(y),
{
    broadcast use vstd::seq_lib::group_to_multiset_ensures, vstd::multiset::group_multiset_axioms;
    let n = s.insert(j, y);
    s.insert_ensures(j, y);
    assert(n.remove(j) =~= s);
    assert(n.contains(y)) by {
        assert(n[j] == y);
    }
}

proof fn lemma_class_push(s: Seq<Unit>, y: Unit, x: Unit)
    ensures
        place_class(s.push(y), x) == if same_place(y, x) {
            place_class(s, x).push(y)
        } else {
            place_class(s, x)
        },
{
    broadcast use Seq::lemma_filter_push;
}

proof fn lemma_class_empty(s: Seq<Unit>, x: Unit)
    requires
        forall|i: int| 0 <= i < s.len() ==> !same_place(#[trigger] s[i], x),
    ensures
        place_class(s, x).len() == 0,
    decreases s.len(),
{
    if s.len() > 0 {
        lemma_class_empty(s.drop_last(), x);
        assert(s =~= s.drop_last().push(s.last()));
        lemma_class_push(s.drop_last(), s.last(), x);
    }
}

proof fn lemma_unit_antisym(a: Unit, b: Unit)
    requires
        has_name(a),
        has_name(b),
        unit_le(a, b),
        unit_le(b, a),
    ensures
        same_place(a, b),
{
    if kind_rank(a.kind) == kind_rank(b.kind) {
        lemma_lex_antisym(name_of(a), name_of(b));
    }
}

/// Where `l` is the last of the named entries `s` in listing order, and `y`
/// comes strictly after it, no entry of `s` has the place of `y`.
proof fn lemma_none_after_last(s: Seq<Unit>, y: Unit)
    requires
        s.len() > 0,
        all_named(s),
        has_name(y),
        listed_in_order(s),
        unit_le(s.last(), y),
        !same_place(s.last(), y),
    ensures
        place_class(s, y).len() == 0,
{
    assert forall|i: int| 0 <= i < s.len() implies !same_place(#[trigger] s[i], y) by {
        if same_place(s[i], y) {
            if i < s.len() - 1 {
                assert(unit_le(s[i], s[s.len() - 1]));
            } else {
                lemma_same_place_le(s[i], s.last());
            }
            lemma_same_place_le(y, s[i]);
            lemma_unit_trans(y, s[i], s.last());
            lemma_unit_antisym(s.last(), y);
        }
    }
    lemma_class_empty(s, y);
}

/// A listing in listing order is determined by its entries, place by place: two
/// listings of named entries, both in order, that hold the same entries in the
/// same order at every place are equal.
pub proof fn lemma_listing_order_unique(a: Seq<Unit>, b: Seq<Unit>)
    requires
        all_named(a),
        all_named(b),
        listed_in_order(a),
        listed_in_order(b),
        forall|x: Unit| place_class(a, x) == place_class(b, x),
    ensures
        a == b,
    decreases a.len() + b.len(),
{
    if a.len() == 0 && b.len() == 0 {
        assert(a =~= b);
    } else if a.len() == 0 {
        let lb = b.last();
        assert(b =~= b.drop_last().push(lb));
        lemma_class_push(b.drop_last(), lb, lb);
        assert(place_class(a, lb) =~= Seq::<Unit>::empty());
        assert(place_class(a, lb) == place_class(b, lb));
    } else if b.len() == 0 {
        let la = a.last();
        assert(a =~= a.drop_last().push(la));
        lemma_class_push(a.drop_last(), la, la);
        assert(place_class(b, la) =~= Seq::<Unit>::empty());
        assert(place_class(a, la) == place_class(b, la));
    } else {
        let la = a.last();
        let lb = b.last();
        let a0 = a.drop_last();
        let b0 = b.drop_last();
        assert(a =~= a0.push(la));
        assert(b =~= b0.push(lb));
        assert(has_name(la) && has_name(lb));
        if !same_place(la, lb) {
            lemma_unit_total(la, lb);
            if unit_le(la, lb) {
                lemma_none_after_last(a, lb);
                lemma_class_push(b0, lb, lb);
                assert(place_class(a, lb) == place_class(b, lb));
            } else {
                lemma_none_after_last(b, la);
                lemma_class_push(a0, la, la);
                assert(place_class(a, la) == place_class(b, la));
            }
        } else {
            lemma_class_push(a0, la, la);
            lemma_class_push(b0, lb, la);
            assert(place_class(a, la) == place_class(b, la));
            assert(place_class(a, la).last() == la);
            assert(place_class(b, la).last() == lb);
            assert forall|x: Unit| place_class(a0, x) == place_class(b0, x) by {
                lemma_class_push(a0, la, x);
                lemma_class_push(b0, lb, x);
                assert(place_class(a, x) == place_class(b, x));
                if same_place(la, x) {
                    assert(place_class(a0, x) =~= place_class(a, x).drop_last());
                    assert(place_class(b0, x) =~= place_class(b, x).drop_last());
                }
            }
            assert(all_named(a0) && all_named(b0)) by {
                assert forall|i: int| 0 <= i < a0.len() implies has_name(#[trigger] a0[i]) by {
                    assert(a0[i] == a[i]);
                }
                assert forall|i: int| 0 <= i < b0.len() implies has_name(#[trigger] b0[i]) by {
                    assert(b0[i] == b[i]);
                }
            }
            assert(listed_in_order(a0)) by {
                assert forall|i: int, j: int| 0 <= i < j < a0.len() implies unit_le(#[trigger] a0[i], #[trigger] a0[j]) by {
                    assert(a0[i] == a[i] && a0[j] == a[j]);
                }
            }
            assert(listed_in_order(b0)) by {
                assert forall|i: int, j: int| 0 <= i < j < b0.len() implies unit_le(#[trigger] b0[i], #[trigger] b0[j]) by {
                    assert(b0[i] == b[i] && b0[j] == b[j]);
                }
            }
            lemma_listing_order_unique(a0, b0);
        }
    }
}

/// The named entries `xs` in listing order, entries with the same place in the
/// order given (what a stable sort by kind, then name, gives).
pub open spec fn in_listing_order(xs: Seq<Unit>) -> Seq<Unit> {
    choose|s: Seq<Unit>|
        all_named(s) && listed_in_order(s) && forall|x: Unit| #[trigger] place_class(s, x) == place_class(xs, x)
}

/// Any arrangement of the entries `xs` in listing order that keeps the order of
/// entries with the same place is their listing order.
pub proof fn lemma_in_listing_order_is(xs: Seq<Unit>, s: Seq<Unit>)
    requires
        all_named(s),
        listed_in_order(s),
        forall|x: Unit| place_class(s, x) == place_class(xs, x),
    ensures
        in_listing_order(xs) == s,
{
    let c = in_listing_order(xs);
    assert(all_named(c) && listed_in_order(c) && forall|x: Unit| #[trigger] place_class(c, x) == place_class(xs, x));
    lemma_listing_order_unique(c, s);
}

/// A listing already in listing order stays as it is when arranged again.
pub proof fn lemma_resort_keeps_ordered(xs: Seq<Unit>)
    requires
        all_named(xs),
        listed_in_order(xs),
    ensures
        in_listing_order(xs) == xs,
{
    lemma_in_listing_order_is(xs, xs);
}

/// The entries in listing order: folders, videos, audio, then other files, each kind
/// ordered by name; entries with the same kind and name keep their order (a stable
/// sort by the key `(kind, name)`).
pub fn resort(xs: Vec<Unit>) -> (r: Vec<Unit>)
    requires
        all_named(xs@),
    ensures
        r@ == in_listing_order(xs@),
        listed_in_order(r@),
        r@.to_multiset() == xs@.to_multiset(),
        forall|x: Unit| place_class(r@, x) == place_class(xs@, x),
{
    let mut out: Vec<Unit> = Vec::new();
    let mut i: usize = 0;
    assert(xs@.take(0) =~= Seq::<Unit>::empty());
    while i < xs.len()
        invariant
            i <= xs@.len(),
            all_named(xs@),
            all_named(out@),
            listed_in_order(out@),
            out@.to_multiset() == xs@.take(i as int).to_multiset(),
            forall|x: Unit| place_class(out@, x) == place_class(xs@.take(i as int), x),
        decreases xs@.len() - i,
    {
        let y = xs[i].duplicate();
        let mut j: usize = out.len();
        while j > 0 && !unit_le_exec(&out[j - 1], &y)
            invariant
                j <= out@.len(),
                all_named(out@),
                has_name(y),
                forall|k: int| j <= k < out@.len() ==> !unit_le(#[trigger] out@[k], y),
            decreases j,
        {
            j = j - 1;
        }
        let ghost before = out@;
        proof {
            lemma_insert_in_order(before, j as int, y);
            lemma_insert_multiset(before, j as int, y);
            assert forall|x: Unit| #[trigger] place_class(before.insert(j as int, y), x) == (if same_place(y, x) {
                place_class(before, x).push(y)
            } else {
                place_class(before, x)
            }) by {
                lemma_insert_class(before, j as int, y, x);
            }
        }
        out.insert(j, y);
        i = i + 1;
        proof {
            broadcast use Seq::lemma_filter_push, vstd::seq_lib::group_to_multiset_ensures;
            let t = xs@.take(i as int);
            assert(t =~= xs@.take(i - 1).push(y));
            assert forall|x: Unit| place_class(out@, x) == place_class(t, x) by {
                assert(place_class(out@, x) == place_class(before.insert(j as int, y), x));
            }
            before.insert_ensures(j as int, y);
            assert forall|k: int| 0 <= k < out@.len() implies has_name(#[trigger] out@[k]) by {
                if k < j {
                    assert(out@[k] == before[k]);
                } else if k > j {
                    assert(out@[k] == before[k - 1]);
                }
            }
        }
    }
    assert(xs@.take(i as int) =~= xs@);
    proof {
        lemma_in_listing_order_is(xs@, out@);
    }
    out
}

} // verus!
