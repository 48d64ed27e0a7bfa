//! The entries a user has selected, and what the selection is for.
use vstd::prelude::*;
use crate::unit::{same_unit, same_unit_exec, Unit, UnitKind};

verus! {

/// What a selection is waiting for.
#[derive(Clone, Copy, Debug, PartialEq, Eq, Structural)]
pub enum SelectedState {
    Copy,
    Cut,
    Idle,
}

/// The selected entries, whether selection mode is on, and what the selection is for.
#[derive(Debug)]
pub struct Selected {
    pub on: bool,
    pub units: Vec<Unit>,
    pub state: SelectedState,
}

/// `u` is among `units` (by the entry equality of paths and kinds).
pub open spec fn selects(units: Seq<Unit>, u: Unit) -> bool {
    exists|i: int| 0 <= i < units.len() && same_unit(#[trigger] units[i], u)
}

/// `units` without any entry equal to `u`, in order.
pub open spec fn without(units: Seq<Unit>, u: Unit) -> Seq<Unit> {
    units.filter(|x: Unit| !same_unit(x, u))
}

/// No entry is selected twice.
pub open spec fn distinct_units(units: Seq<Unit>) -> bool {
    forall|i: int, j: int|
        0 <= i < j < units.len() ==> !same_unit(#[trigger] units[i], #[trigger] units[j])
}

/// The selection after toggling `u`: removed when selected, added at the end otherwise.
pub open spec fn toggled(units: Seq<Unit>, u: Unit) -> Seq<Unit> {
    if selects(units, u) {
        without(units, u)
    } else {
        units.push(u)
    }
}

/// The selection after toggling `u` alone: emptied when `u` is selected, only `u` otherwise.
pub open spec fn toggled_alone(units: Seq<Unit>, u: Unit) -> Seq<Unit> {
    if selects(units, u) {
        Seq::empty()
    } else {
        seq![u]
    }
}

/// Some selected entry is a folder.
pub open spec fn has_dirs_spec(units: Seq<Unit>) -> bool {
    exists|i: int| 0 <= i < units.len() && (#[trigger] units[i]).kind == UnitKind::Dirctory
}

impl Default for Selected {
    fn default() -> (r: Selected)
        ensures
            !r.on,
            r.units@ == Seq::<Unit>::empty(),
            r.state == SelectedState::Idle,
    {
        Selected { on: false, units: Vec::new(), state: SelectedState::Idle }
    }
}

impl Selected {
    /// Empties the selection, forgets what it was for and leaves selection mode.
    pub fn clear(&mut self)
        ensures
            final(self).units@ == Seq::<Unit>::empty(),
            final(self).state == SelectedState::Idle,
            !final(self).on,
    {
        self.units.clear();
        self.none();
        self.on = false;
    }

    /// The paths of the selected entries, in order.
    pub fn as_paths(&self) -> (r: Vec<String>)
        ensures
            r@.len() == self.units@.len(),
            forall|i: int| 0 <= i < r@.len() ==> #[trigger] r@[i]@ == self.units@[i].path@,
    {
        let mut r: Vec<String> = Vec::new();
        let mut i: usize = 0;
        while i < self.units.len()
            invariant
                i <= self.units@.len(),
                r@.len() == i,
                forall|k: int| 0 <= k < i ==> #[trigger] r@[k]@ == self.units@[k].path@,
            decreases self.units@.len() - i,
        {
            r.push(self.units[i].path.clone());
            i = i + 1;
        }
        r
    }

    /// Whether a folder is selected.
    pub fn has_dirs(&self) -> (r: bool)
        ensures
            r == has_dirs_spec(self.units@),
    {
        let mut i: usize = 0;
        while i < self.units.len()
            invariant
                i <= self.units@.len(),
                forall|k: int| 0 <= k < i ==> (#[trigger] self.units@[k]).kind != UnitKind::Dirctory,
            decreases self.units@.len() - i,
        {
            if self.units[i].kind == UnitKind::Dirctory {
                return true;
            }
            i = i + 1;
        }
        false
    }

    /// Whether nothing is selected.
    pub fn is_clear(&self) -> (r: bool)
        ensures
            r == (self.units@.len() == 0),
    {
        self.units.len() == 0
    }

    /// Marks the selection as to be copied.
    pub fn copy(&mut self)
        ensures
            final(self).state == SelectedState::Copy,
            final(self).units@ == old(self).units@,
            final(self).on == old(self).on,
    {
        self.state = SelectedState::Copy;
    }

    /// Marks the selection as to be moved.
    pub fn cut(&mut self)
        ensures
            final(self).state == SelectedState::Cut,
            final(self).units@ == old(self).units@,
            final(self).on == old(self).on,
    {
        self.state = SelectedState::Cut;
    }

    /// Forgets what the selection was for.
    pub fn none(&mut self)
        ensures
            final(self).state == SelectedState::Idle,
            final(self).units@ == old(self).units@,
            final(self).on == old(self).on,
    {
        self.state = SelectedState::Idle;
    }

    /// Whether `unit` is selected.
    pub fn is_selected(&self, unit: &Unit) -> (r: bool)
        ensures
            r == selects(self.units@, *unit),
    {
        let mut i: usize = 0;
        while i < self.units.len()
            invariant
                i <= self.units@.len(),
                forall|k: int| 0 <= k < i ==> !same_unit(#[trigger] self.units@[k], *unit),
            decreases self.units@.len() - i,
        {
            if same_unit_exec(&self.units[i], unit) {
                return true;
            }
            i = i + 1;
        }
        false
    }

    /// Unselects `unit`; when nothing stays selected, forgets what the selection was for.
    pub fn remove_unit(&mut self, unit: &Unit)
        ensures
            final(self).units@ == without(old(self).units@, *unit),
            final(self).state == if without(old(self).units@, *unit).len() == 0 {
                SelectedState::Idle
            } else {
                old(self).state
            },
            final(self).on == old(self).on,
    {
        broadcast use Seq::lemma_filter_push;
        let mut kept: Vec<Unit> = Vec::new();
        let mut i: usize = 0;
        assert(self.units@.take(0) =~= Seq::<Unit>::empty());
        while i < self.units.len()
            invariant
                i <= self.units@.len(),
                self.units@ == old(self).units@,
                kept@ == without(self.units@.take(i as int), *unit),
            decreases self.units@.len() - i,
        {
            assert(self.units@.take(i + 1) =~= self.units@.take(i as int).push(self.units@[i as int]));
            proof {
                self.units@.take(i as int).lemma_filter_push(self.units@[i as int], |x: Unit| !same_unit(x, *unit));
            }
            let ghost prev = kept@;
            if !same_unit_exec(&self.units[i], unit) {
                let d = self.units[i].duplicate();
                kept.push(d);
                assert(kept@ == prev.push(self.units@[i as int]));
            }
            i = i + 1;
        }
        assert(self.units@.take(i as int) =~= self.units@);
        self.units = kept;
        if self.units.len() == 0 {
            self.none();
        }
    }

    /// Selects `unit` when it is not selected, unselects it otherwise.
    pub fn toggle_unit_selection(&mut self, unit: &Unit)
        ensures
            final(self).units@ == toggled(old(self).units@, *unit),
            final(self).state == if selects(old(self).units@, *unit) && without(
                old(self).units@,
                *unit,
            ).len() == 0 {
                SelectedState::Idle
            } else {
                old(self).state
            },
            final(self).on == old(self).on,
    {
        if self.is_selected(unit) {
            self.remove_unit(unit);
        } else {
            self.units.push(unit.duplicate());
        }
    }

    /// Selects `unit` alone, or empties the selection when `unit` is selected.
    pub fn toggle_unit_alone_selection(&mut self, unit: &Unit)
        ensures
            final(self).units@ == toggled_alone(old(self).units@, *unit),
            final(self).state == old(self).state,
            final(self).on == old(self).on,
    {
        if self.is_selected(unit) {
            self.units.clear();
        } else {
            self.units = vec![unit.duplicate()];
        }
    }
}

proof fn lemma_without_absent(units: Seq<Unit>, u: Unit)
    requires
        !selects(units, u),
    ensures
        without(units, u) == units,
    decreases units.len(),
{
    reveal(Seq::filter);
    if units.len() > 0 {
        let rest = units.drop_last();
        assert(!selects(rest, u)) by {
            if selects(rest, u) {
                let i = choose|i: int| 0 <= i < rest.len() && same_unit(#[trigger] rest[i], u);
                assert(units[i] == rest[i]);
            }
        }
        lemma_without_absent(rest, u);
        assert(!same_unit(units[units.len() - 1], u));
        assert(units =~= rest.push(units.last()));
    }
}

proof fn lemma_without_not_selects(units: Seq<Unit>, u: Unit)
    ensures
        !selects(without(units, u), u),
{
    let w = without(units, u);
    if selects(w, u) {
        let i = choose|i: int| 0 <= i < w.len() && same_unit(#[trigger] w[i], u);
        units.lemma_filter_pred(|x: Unit| !same_unit(x, u), i);
    }
}

proof fn lemma_without_distinct(units: Seq<Unit>, u: Unit)
    requires
        distinct_units(units),
    ensures
        distinct_units(without(units, u)),
    decreases units.len(),
{
    reveal(Seq::filter);
    if units.len() > 0 {
        let rest = units.drop_last();
        let x = units.last();
        let f = |y: Unit| !same_unit(y, u);
        assert(distinct_units(rest)) by {
            assert forall|i: int, j: int| 0 <= i < j < rest.len() implies !same_unit(
                #[trigger] rest[i],
                #[trigger] rest[j],
            ) by {
                assert(rest[i] == units[i] && rest[j] == units[j]);
            }
        }
        lemma_without_distinct(rest, u);
        let wr = rest.filter(f);
        if f(x) {
            assert forall|i: int| 0 <= i < wr.len() implies !same_unit(#[trigger] wr[i], x) by {
                assert(wr.contains(wr[i]));
                rest.lemma_filter_contains_rev(f, wr[i]);
                let k = choose|k: int| 0 <= k < rest.len() && rest[k] == wr[i];
                assert(units[k] == rest[k]);
            }
            let w = wr.push(x);
            assert forall|i: int, j: int| 0 <= i < j < w.len() implies !same_unit(
                #[trigger] w[i],
                #[trigger] w[j],
            ) by {
                if j == w.len() - 1 {
                    assert(w[i] == wr[i]);
                } else {
                    assert(w[i] == wr[i] && w[j] == wr[j]);
                }
            }
        }
    }
}

/// Toggling an entry that is not selected and toggling it again gives back the same
/// selection.
pub proof fn lemma_toggle_twice_restores(units: Seq<Unit>, u: Unit)
    requires
        !selects(units, u),
    ensures
        toggled(toggled(units, u), u) == units,
{
    broadcast use Seq::lemma_filter_push;
    let t = units.push(u);
    assert(same_unit(t[units.len() as int], u));
    assert(selects(t, u));
    units.lemma_filter_push(u, |x: Unit| !same_unit(x, u));
    lemma_without_absent(units, u);
}

/// Toggling an entry flips whether it is selected.
pub proof fn lemma_toggle_flips(units: Seq<Unit>, u: Unit)
    ensures
        selects(toggled(units, u), u) == !selects(units, u),
{
    if selects(units, u) {
        lemma_without_not_selects(units, u);
    } else {
        let t = units.push(u);
        assert(same_unit(t[units.len() as int], u));
    }
}

/// Toggling, alone or not, and unselecting never select an entry twice.
pub proof fn lemma_selection_stays_distinct(units: Seq<Unit>, u: Unit)
    requires
        distinct_units(units),
    ensures
        distinct_units(toggled(units, u)),
        distinct_units(toggled_alone(units, u)),
        distinct_units(without(units, u)),
{
    lemma_without_distinct(units, u);
    if !selects(units, u) {
        let t = units.push(u);
        assert forall|i: int, j: int| 0 <= i < j < t.len() implies !same_unit(
            #[trigger] t[i],
            #[trigger] t[j],
        ) by {
            if j == units.len() {
                assert(t[i] == units[i]);
                assert(!same_unit(units[i], u));
            } else {
                assert(t[i] == units[i] && t[j] == units[j]);
            }
        }
    }
}

} // verus!
