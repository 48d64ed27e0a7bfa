//! The client side of the file server: where it is, and how a listing it sends
//! back is arranged.
use vstd::prelude::*;
use crate::order::{
    all_named, in_listing_order, lemma_in_listing_order_is, listed_in_order, place_class, resort, same_place,
};
use crate::text::{chars_of, decimal, push_all, push_decimal, string_from_chars};
use crate::unit::{has_name, lemma_retyped_idempotent, retype, retyped, Unit};

verus! {

/// The way to a file server: its origin (`scheme://host:port`).
#[derive(Clone, Debug)]
pub struct Delivery {
    pub origin: String,
}

impl Delivery {
    /// The file server at `origin`.
    pub fn new(origin: String) -> (r: Delivery)
        ensures
            r.origin@ == origin@,
    {
        Delivery { origin }
    }

    /// The address of `path` on the server: the origin followed by `path`.
    pub fn url_path(self, path: &str) -> (r: String)
        ensures
            r@ == self.origin@ + path@,
    {
        let mut cs = chars_of(self.origin.as_str());
        let p = chars_of(path);
        push_all(&mut cs, p.as_slice());
        string_from_chars(cs.as_slice())
    }
}

/// The origin of the file server at the address written `ip` and the port `port`:
/// `http://`, the address, a colon and the port in decimal.
pub fn origin_url(ip: &str, port: u16) -> (r: String)
    ensures
        r@ == seq!['h', 't', 't', 'p', ':', '/', '/'] + ip@ + seq![':'] + decimal(port as nat),
{
    let mut cs: Vec<char> = vec!['h', 't', 't', 'p', ':', '/', '/'];
    let a = chars_of(ip);
    push_all(&mut cs, a.as_slice());
    cs.push(':');
    push_decimal(&mut cs, port as u64);
    assert(cs@ =~= seq!['h', 't', 't', 'p', ':', '/', '/'] + ip@ + seq![':'] + decimal(port as nat));
    string_from_chars(cs.as_slice())
}

/// The listing `xs` arranged for showing: typed, then in listing order.
pub open spec fn arranged(xs: Seq<Unit>) -> Seq<Unit> {
    in_listing_order(xs.map_values(|u: Unit| retyped(u)))
}

/// A listing as the server sent it, arranged for showing: each file typed by its
/// extension, then all in listing order (folders, videos, audio, other files, each
/// kind by name, ties in the order received).
pub fn arrange_listing(xs: Vec<Unit>) -> (r: Vec<Unit>)
    requires
        all_named(xs@),
    ensures
        r@ == arranged(xs@),
        listed_in_order(r@),
        all_named(r@),
        forall|i: int| 0 <= i < r@.len() ==> retyped(#[trigger] r@[i]) == r@[i],
        r@.to_multiset() == xs@.map_values(|u: Unit| retyped(u)).to_multiset(),
        forall|x: Unit| place_class(r@, x) == place_class(xs@.map_values(|u: Unit| retyped(u)), x),
{
    let typed = retype(xs);
    assert forall|i: int| 0 <= i < typed@.len() implies crate::unit::has_name(#[trigger] typed@[i]) by {
        assert(typed@[i] == retyped(xs@[i]));
        assert(crate::unit::has_name(xs@[i]));
    }
    let r = resort(typed);
    proof {
        broadcast use Seq::lemma_filter_contains_rev;
        assert forall|i: int| 0 <= i < r@.len() implies has_name(#[trigger] r@[i]) && retyped(r@[i]) == r@[i] by {
            let u = r@[i];
            r@.lemma_filter_contains(|v: Unit| same_place(v, u), i);
            assert(place_class(r@, u) == place_class(typed@, u));
            assert(typed@.contains(u));
            let j = choose|j: int| 0 <= j < typed@.len() && typed@[j] == u;
            assert(typed@[j] == retyped(xs@[j]));
            lemma_retyped_idempotent(xs@[j]);
        }
    }
    r
}

/// An arranged listing (named entries, each typed, in listing order) stays as it
/// is when arranged again.
pub proof fn lemma_arranged_is_stable(z: Seq<Unit>)
    requires
        all_named(z),
        listed_in_order(z),
        forall|i: int| 0 <= i < z.len() ==> retyped(#[trigger] z[i]) == z[i],
    ensures
        arranged(z) == z,
{
    let zz = z.map_values(|u: Unit| retyped(u));
    assert(zz =~= z);
    lemma_in_listing_order_is(zz, z);
}

} // verus!
