//! Listed files and folders: their kinds, names and order.
use vstd::prelude::*;
use crate::extensions::{
    audio_x, is_audio_extension, is_audio_extension_exec, is_video_extension, is_video_extension_exec,
    lemma_audio_extensions_are_the_table, lemma_video_extensions_are_the_table, video_x,
};
use crate::path::{components, components_of, extension, extension_of, file_name, file_name_of};
use crate::text::{chars_of, string_from_chars};

verus! {

/// What a listed entry is.
#[derive(Clone, Copy, Debug, PartialEq, Eq, Structural, Hash)]
pub enum UnitKind {
    Dirctory,
    Video,
    Audio,
    File,
}

/// A listed entry: its path (relative to the served folder) and its kind.
#[derive(Clone, Debug)]
pub struct Unit {
    pub path: String,
    pub kind: UnitKind,
}

/// The position of a kind in a listing: folders, then videos, then audio, then other files.
pub open spec fn kind_rank(k: UnitKind) -> int {
    match k {
        UnitKind::Dirctory => 0,
        UnitKind::Video => 1,
        UnitKind::Audio => 2,
        UnitKind::File => 3,
    }
}

/// The entry has a name: its path ends in a normal component.
pub open spec fn has_name(u: Unit) -> bool {
    file_name(u.path@) is Some
}

/// The name of the entry: the last component of its path.
pub open spec fn name_of(u: Unit) -> Seq<char> {
    file_name(u.path@).unwrap()
}

/// Two entries are the same when their kinds are and their paths have the same
/// components (as `PathBuf` compares).
pub open spec fn same_unit(a: Unit, b: Unit) -> bool {
    a.kind == b.kind && components(a.path@) == components(b.path@)
}

/// The kind a listing gives a file from its extension: a video or audio extension
/// makes it a video or audio file; folders and other files keep their kind.
pub open spec fn retyped_kind(u: Unit) -> UnitKind {
    if u.kind == UnitKind::File {
        match extension(u.path@) {
            Some(e) => if is_video_extension(e) {
                UnitKind::Video
            } else if is_audio_extension(e) {
                UnitKind::Audio
            } else {
                UnitKind::File
            },
            None => UnitKind::File,
        }
    } else {
        u.kind
    }
}

/// The entry with its kind recomputed.
pub open spec fn retyped(u: Unit) -> Unit {
    Unit { path: u.path, kind: retyped_kind(u) }
}

impl Unit {
    /// The name of the entry.
    pub fn name(&self) -> (r: String)
        requires
            has_name(*self),
        ensures
            r@ == name_of(*self),
    {
        let p = chars_of(self.path.as_str());
        let n = file_name_of(p.as_slice()).unwrap();
        string_from_chars(n.as_slice())
    }

    /// Whether the entry has a name (its path ends in a normal component).
    pub fn is_named(&self) -> (r: bool)
        ensures
            r == has_name(*self),
    {
        let p = chars_of(self.path.as_str());
        file_name_of(p.as_slice()).is_some()
    }

    /// A copy of the entry.
    pub fn duplicate(&self) -> (r: Unit)
        ensures
            r == *self,
    {
        Unit { path: self.path.clone(), kind: self.kind }
    }
}

/// Whether two entries are the same entry.
pub fn same_unit_exec(a: &Unit, b: &Unit) -> (r: bool)
    ensures
        r == same_unit(*a, *b),
{
    if a.kind != b.kind {
        return false;
    }
    let pa = chars_of(a.path.as_str());
    let pb = chars_of(b.path.as_str());
    let ca = components_of(pa.as_slice());
    let cb = components_of(pb.as_slice());
    if ca.len() != cb.len() {
        assert(components(a.path@).len() != components(b.path@).len());
        return false;
    }
    let mut i: usize = 0;
    while i < ca.len()
        invariant
            ca@.len() == cb@.len(),
            i <= ca@.len(),
            crate::path::seq_views(ca@) == components(a.path@),
            crate::path::seq_views(cb@) == components(b.path@),
            forall|j: int| 0 <= j < i ==> ca@[j]@ == cb@[j]@,
        decreases ca@.len() - i,
    {
        if !crate::text::chars_eq(ca[i].as_slice(), cb[i].as_slice()) {
            assert(components(a.path@)[i as int] != components(b.path@)[i as int]);
            return false;
        }
        i = i + 1;
    }
    assert(components(a.path@) =~= components(b.path@));
    true
}

/// The kind the listing gives `u`.
pub fn retyped_kind_exec(u: &Unit) -> (k: UnitKind)
    ensures
        k == retyped_kind(*u),
{
    if u.kind != UnitKind::File {
        return u.kind;
    }
    let p = chars_of(u.path.as_str());
    match extension_of(p.as_slice()) {
        Some(e) => {
            if is_video_extension_exec(e.as_slice()) {
                UnitKind::Video
            } else if is_audio_extension_exec(e.as_slice()) {
                UnitKind::Audio
            } else {
                UnitKind::File
            }
        },
        None => UnitKind::File,
    }
}

/// The entries with the kinds a listing gives them (files become videos or audio
/// by their extension), in the same order.
pub fn retype(xs: Vec<Unit>) -> (r: Vec<Unit>)
    ensures
        r@ == xs@.map_values(|u: Unit| retyped(u)),
{
    let mut r: Vec<Unit> = Vec::new();
    let mut i: usize = 0;
    while i < xs.len()
        invariant
            i <= xs@.len(),
            r@ == xs@.take(i as int).map_values(|u: Unit| retyped(u)),
        decreases xs@.len() - i,
    {
        let k = retyped_kind_exec(&xs[i]);
        let u = Unit { path: xs[i].path.clone(), kind: k };
        r.push(u);
        i = i + 1;
        assert(xs@.take(i as int) =~= xs@.take(i - 1).push(xs@[i - 1]));
        assert(r@ =~= xs@.take(i as int).map_values(|u: Unit| retyped(u)));
    }
    assert(xs@.take(i as int) =~= xs@);
    r
}

/// Recomputes, in place, the kind of each entry as a listing gives it.
pub fn retype_in_place(xs: &mut Vec<Unit>)
    ensures
        final(xs)@ == old(xs)@.map_values(|u: Unit| retyped(u)),
{
    let mut i: usize = 0;
    while i < xs.len()
        invariant
            i <= xs@.len(),
            xs@.len() == old(xs)@.len(),
            forall|j: int| 0 <= j < i ==> xs@[j] == retyped(old(xs)@[j]),
            forall|j: int| i <= j < xs@.len() ==> xs@[j] == old(xs)@[j],
        decreases xs@.len() - i,
    {
        let k = retyped_kind_exec(&xs[i]);
        xs[i].kind = k;
        i = i + 1;
    }
    assert(xs@ =~= old(xs)@.map_values(|u: Unit| retyped(u)));
}

/// Retyping is idempotent: an entry typed by a listing keeps its kind when typed
/// again (the client retypes what the server already typed).
pub proof fn lemma_retyped_idempotent(u: Unit)
    ensures
        retyped(retyped(u)) == retyped(u),
{
}

/// A listed file takes its kind from its extension as the listing's tables say:
/// a video when the video table holds the extension, else audio when the audio
/// table holds it, else it stays a plain file; an entry of another kind keeps it.
pub proof fn lemma_retyped_by_tables(u: Unit)
    ensures
        retyped_kind(u) == if u.kind != UnitKind::File {
            u.kind
        } else {
            match extension(u.path@) {
                Some(e) => if video_x().contains(e) {
                    UnitKind::Video
                } else if audio_x().contains(e) {
                    UnitKind::Audio
                } else {
                    UnitKind::File
                },
                None => UnitKind::File,
            }
        },
{
    if let Some(e) = extension(u.path@) {
        lemma_video_extensions_are_the_table(e);
        lemma_audio_extensions_are_the_table(e);
    }
}

/// A listing shows folders first, then videos, then audio, then other files.
pub proof fn lemma_kind_order()
    ensures
        kind_rank(UnitKind::Dirctory) < kind_rank(UnitKind::Video),
        kind_rank(UnitKind::Video) < kind_rank(UnitKind::Audio),
        kind_rank(UnitKind::Audio) < kind_rank(UnitKind::File),
{
}

} // verus!
