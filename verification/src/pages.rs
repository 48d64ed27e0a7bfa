//! The file list of the web interface: the folder its location query names, and
//! what keys and double clicks on it do.
use vstd::prelude::*;
use crate::path::{body, components, join_of, lemma_components_well_formed, lemma_path_of_components, names_as_query, parent, parent_of, path_of, query_of_components, trailing_names};
use crate::select::{without, Selected, SelectedState};
use crate::text::{chars_eq, chars_of, decimal, lemma_decimal_injective, push_decimal, string_from_chars};
use crate::unit::{Unit, UnitKind};

verus! {

/// The value of the first pair of `params` whose key is `key`.
pub open spec fn query_lookup(params: Seq<(String, String)>, key: Seq<char>) -> Option<Seq<char>>
    decreases params.len(),
{
    if params.len() == 0 {
        None
    } else if params[0].0@ == key {
        Some(params[0].1@)
    } else {
        query_lookup(params.drop_first(), key)
    }
}

/// The values of the keys `i`, `i + 1`, ... of `params` (written in decimal), up to
/// the first key that is missing. (Each key needs a pair of its own, so there are
/// never more values than pairs; the count stops there.)
pub open spec fn query_values(params: Seq<(String, String)>, i: nat) -> Seq<Seq<char>>
    decreases params.len() + 1 - i,
{
    if i > params.len() {
        Seq::empty()
    } else {
        match query_lookup(params, decimal(i)) {
            None => Seq::empty(),
            Some(v) => seq![v] + query_values(params, i + 1),
        }
    }
}

proof fn lemma_lookup_at(params: Seq<(String, String)>, key: Seq<char>, i: int)
    requires
        0 <= i < params.len(),
        params[i].0@ == key,
        forall|j: int| 0 <= j < i ==> (#[trigger] params[j]).0@ != key,
    ensures
        query_lookup(params, key) == Some(params[i].1@),
    decreases i,
{
    if i > 0 {
        let rest = params.drop_first();
        assert(params[0].0@ != key);
        assert forall|j: int| 0 <= j < i - 1 implies (#[trigger] rest[j]).0@ != key by {
            assert(rest[j] == params[j + 1]);
        }
        assert(rest[i - 1] == params[i]);
        lemma_lookup_at(rest, key, i - 1);
    }
}

proof fn lemma_lookup_missing(params: Seq<(String, String)>, key: Seq<char>)
    requires
        forall|j: int| 0 <= j < params.len() ==> (#[trigger] params[j]).0@ != key,
    ensures
        query_lookup(params, key) is None,
    decreases params.len(),
{
    if params.len() > 0 {
        let rest = params.drop_first();
        assert(params[0].0@ != key);
        assert forall|j: int| 0 <= j < rest.len() implies (#[trigger] rest[j]).0@ != key by {
            assert(rest[j] == params[j + 1]);
        }
        lemma_lookup_missing(rest, key);
    }
}

proof fn lemma_numbered_values(params: Seq<(String, String)>, cs: Seq<Seq<char>>, i: nat)
    requires
        params.len() == cs.len(),
        i <= cs.len(),
        forall|k: int| 0 <= k < params.len() ==> (#[trigger] params[k]).0@ == decimal(k as nat)
            && params[k].1@ == cs[k],
    ensures
        query_values(params, i) == cs.skip(i as int),
    decreases cs.len() - i,
{
    if i == cs.len() {
        assert forall|j: int| 0 <= j < params.len() implies (#[trigger] params[j]).0@ != decimal(i) by {
            if params[j].0@ == decimal(i) {
                lemma_decimal_injective(j as nat, i);
            }
        }
        lemma_lookup_missing(params, decimal(i));
        assert(cs.skip(i as int) =~= Seq::<Seq<char>>::empty());
    } else {
        assert forall|j: int| 0 <= j < i implies (#[trigger] params[j]).0@ != decimal(i) by {
            if params[j].0@ == decimal(i) {
                lemma_decimal_injective(j as nat, i);
            }
        }
        lemma_lookup_at(params, decimal(i), i as int);
        lemma_numbered_values(params, cs, i + 1);
        assert(seq![cs[i as int]] + cs.skip((i + 1) as int) =~= cs.skip(i as int));
    }
}

/// The file list reads back the location query of a folder: given the pairs that
/// `path_as_query` writes for `p`, in its order (the `i`-th with the key `i` in
/// decimal and the `i`-th component of `p`), the values of the keys 0, 1, 2, ... up
/// to the first missing key, pushed onto an empty path, name a folder with the
/// components of `p`.
pub proof fn lemma_file_list_query_leads_back(p: Seq<char>, params: Seq<(String, String)>)
    requires
        params.len() == components(p).len(),
        forall|i: int| 0 <= i < params.len() ==> (#[trigger] params[i]).0@ == decimal(i as nat)
            && params[i].1@ == components(p)[i],
    ensures
        query_values(params, 0) == components(p),
        components(path_of(query_values(params, 0))) == components(p),
{
    lemma_numbered_values(params, components(p), 0);
    assert(components(p).skip(0) =~= components(p));
    lemma_components_well_formed(p);
    lemma_path_of_components(components(p));
}

/// The value of the first pair of `params` whose key is `key`, if any.
fn lookup_of(params: &Vec<(String, String)>, key: &[char]) -> (r: Option<Vec<char>>)
    ensures
        match r {
            Some(v) => query_lookup(params@, key@) == Some(v@),
            None => query_lookup(params@, key@) is None,
        },
{
    let mut i: usize = 0;
    assert(params@.skip(0) =~= params@);
    while i < params.len()
        invariant
            i <= params@.len(),
            query_lookup(params@, key@) == query_lookup(params@.skip(i as int), key@),
        decreases params@.len() - i,
    {
        let k = chars_of(params[i].0.as_str());
        assert(params@.skip(i as int)[0] == params@[i as int]);
        if chars_eq(k.as_slice(), key) {
            return Some(chars_of(params[i].1.as_str()));
        }
        assert(params@.skip(i as int).drop_first() =~= params@.skip(i + 1));
        i = i + 1;
    }
    None
}

/// The folder that the location query `params` names: the values of the keys
/// `0`, `1`, `2`, ... up to the first missing key, pushed in order onto an empty
/// path.
pub fn folder_of_query(params: Vec<(String, String)>) -> (r: String)
    ensures
        r@ == path_of(query_values(params@, 0)),
{
    let mut out: Vec<char> = Vec::new();
    let mut i: usize = 0;
    let ghost done: Seq<Seq<char>> = Seq::empty();
    while i <= params.len()
        invariant
            i <= params@.len() + 1,
            out@ == path_of(done),
            done + query_values(params@, i as nat) == query_values(params@, 0),
        decreases params@.len() + 1 - i,
    {
        let mut key: Vec<char> = Vec::new();
        push_decimal(&mut key, i as u64);
        assert(key@ =~= decimal(i as nat));
        match lookup_of(&params, key.as_slice()) {
            Some(v) => {
                let next = join_of(out.as_slice(), v.as_slice());
                out = next;
                proof {
                    let d2 = done.push(v@);
                    assert(d2.drop_last() =~= done);
                    assert(d2 + query_values(params@, (i + 1) as nat) =~= done + query_values(params@, i as nat));
                    done = d2;
                }
                if i == params.len() {
                    assert(done =~= query_values(params@, 0));
                    return string_from_chars(out.as_slice());
                }
            },
            None => {
                assert(done =~= query_values(params@, 0));
                return string_from_chars(out.as_slice());
            },
        }
        i = i + 1;
    }
    assert(done =~= query_values(params@, 0));
    string_from_chars(out.as_slice())
}

/// The characters of `Backspace`.
pub open spec fn backspace_key() -> Seq<char> {
    seq!['B', 'a', 'c', 'k', 's', 'p', 'a', 'c', 'e']
}

/// The characters of `Enter`.
pub open spec fn enter_key() -> Seq<char> {
    seq!['E', 'n', 't', 'e', 'r']
}

/// What the key `key` does in the file list, where `current` is the folder shown
/// and `selected` the selection: the location to go to, and whether the selection
/// is cleared. Backspace goes to the parent of the current folder (nothing at the
/// top); Enter opens the first selected entry when it is a folder, clearing the
/// selection when more than one entry is selected; other keys do nothing.
pub fn file_box_key(key: &str, current: &str, selected: &Vec<Unit>) -> (r: Option<(String, bool)>)
    ensures
        key@ == backspace_key() ==> match parent(current@) {
            Some(q) => r matches Some((loc, clear)) && loc@ == query_of_components(
                trailing_names(body(q)),
            ) && !clear,
            None => r is None,
        },
        key@ == enter_key() ==> if selected@.len() > 0 && selected@[0].kind == UnitKind::Dirctory {
            r matches Some((loc, clear)) && loc@ == query_of_components(
                trailing_names(body(selected@[0].path@)),
            ) && clear == (selected@.len() > 1)
        } else {
            r is None
        },
        key@ != backspace_key() && key@ != enter_key() ==> r is None,
{
    let k = chars_of(key);
    let bs = vec!['B', 'a', 'c', 'k', 's', 'p', 'a', 'c', 'e'];
    let en = vec!['E', 'n', 't', 'e', 'r'];
    assert(bs@ =~= backspace_key());
    assert(en@ =~= enter_key());
    if chars_eq(k.as_slice(), bs.as_slice()) {
        let c = chars_of(current);
        match parent_of(c.as_slice()) {
            Some(q) => {
                let qs = string_from_chars(q.as_slice());
                Some((names_as_query(qs.as_str()), false))
            },
            None => None,
        }
    } else if chars_eq(k.as_slice(), en.as_slice()) {
        if selected.len() > 0 && selected[0].kind == UnitKind::Dirctory {
            Some((names_as_query(selected[0].path.as_str()), selected.len() > 1))
        } else {
            None
        }
    } else {
        None
    }
}

/// What double-clicking an entry of the file list does: go to a folder, play a
/// video or audio file, or fetch a file.
pub enum OpenAction {
    Navigate(String),
    Play(Unit),
    Fetch(Unit),
}

/// Double-clicking `unit` in the file list: a folder is gone to (its location
/// query), the selection being cleared when it is for nothing in particular; a
/// video or audio file is played; any other file is fetched and leaves the
/// selection.
pub fn double_click(unit: &Unit, select: &mut Selected) -> (r: OpenAction)
    ensures
        unit.kind == UnitKind::Dirctory ==> (r matches OpenAction::Navigate(loc) && loc@
            == query_of_components(trailing_names(body(unit.path@)))) && if old(select).state
            == SelectedState::Idle {
            final(select).units@ == Seq::<Unit>::empty() && !final(select).on
                && final(select).state == SelectedState::Idle
        } else {
            *final(select) == *old(select)
        },
        (unit.kind == UnitKind::Video || unit.kind == UnitKind::Audio) ==> (r matches OpenAction::Play(u)
            && u == *unit) && *final(select) == *old(select),
        unit.kind == UnitKind::File ==> (r matches OpenAction::Fetch(u) && u == *unit)
            && final(select).units@ == without(old(select).units@, *unit) && final(select).on
            == old(select).on && final(select).state == (if without(old(select).units@, *unit).len()
            == 0 {
            SelectedState::Idle
        } else {
            old(select).state
        }),
{
    match unit.kind {
        UnitKind::Dirctory => {
            if select.state == SelectedState::Idle {
                select.clear();
            }
            OpenAction::Navigate(names_as_query(unit.path.as_str()))
        },
        UnitKind::Video | UnitKind::Audio => OpenAction::Play(unit.duplicate()),
        UnitKind::File => {
            select.remove_unit(unit);
            OpenAction::Fetch(unit.duplicate())
        },
    }
}

} // verus!
