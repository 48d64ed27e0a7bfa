//! Browsing the served folder from a client: where the user is, what is listed
//! there, what is selected, and which listing to ask the server for next.
use vstd::prelude::*;
use crate::path::{parent, parent_of};
use crate::select::{selects, toggled, toggled_alone, without, Selected, SelectedState};
use crate::text::{chars_of, string_from_chars};
use crate::unit::{Unit, UnitKind};

verus! {

/// What the browser shows: the entries listed at the current path, the current
/// path, and the selection.
pub struct Browser {
    pub units: Vec<Unit>,
    pub current_path: String,
    pub select: Selected,
}

/// What a listing asked for is followed by once it arrives: entering the listed
/// path, or going back up to it.
#[derive(Clone, Debug)]
pub enum AfterListing {
    Enter(String),
    GoneBack,
}

/// What the client is to do after a message: ask the server to list `path` (and
/// then hand the listing back as `then` says; a failed listing changes nothing),
/// or nothing.
pub enum BrowseAction {
    List { path: String, then: AfterListing },
    Nothing,
}

/// `r` asks for the listing of `p`, to be entered once it arrives.
pub open spec fn lists_to_enter(r: BrowseAction, p: Seq<char>) -> bool {
    match r {
        BrowseAction::List { path, then } => path@ == p && match then {
            AfterListing::Enter(q) => q@ == p,
            AfterListing::GoneBack => false,
        },
        BrowseAction::Nothing => false,
    }
}

/// `r` asks for the listing of `p`, to go back up to it once it arrives.
pub open spec fn lists_to_go_back(r: BrowseAction, p: Seq<char>) -> bool {
    match r {
        BrowseAction::List { path, then } => path@ == p && then is GoneBack,
        BrowseAction::Nothing => false,
    }
}

/// What the user or the server did in the browser.
pub enum ClientMessage {
    ChangeCurrentPath(String),
    CurrentPathChanged { current_path: String, units: Vec<Unit> },
    GoBack,
    GoneBack(Vec<Unit>),
    ToggleSelectMode,
    UnitDoubleClick(Unit),
    UnitClick(Unit),
}

/// The selection after a click on `u`: in selection mode `u` is toggled in or
/// out; otherwise it becomes the only selected entry, or nothing is selected when
/// it already was.
pub open spec fn clicked(units: Seq<Unit>, on: bool, u: Unit) -> Seq<Unit> {
    if on {
        toggled(units, u)
    } else {
        toggled_alone(units, u)
    }
}

impl ClientMessage {
    /// Handles the message in `state`:
    /// - changing the path asks for its listing, entered once it arrives;
    /// - a listing that arrived for a path makes it the current path and shows it;
    /// - going back asks for the listing of the current path's parent (nothing at
    ///   the top);
    /// - the parent's listing arriving moves up to the parent and shows it;
    /// - toggling selection mode leaves it (clearing the selection) or enters it;
    /// - double-clicking a folder asks for its listing, entered once it arrives;
    ///   other entries cannot be opened;
    /// - clicking an entry changes the selection (see `clicked`).
    pub fn handle(self, state: &mut Browser) -> (r: BrowseAction)
        ensures
            match self {
                ClientMessage::ChangeCurrentPath(p) => lists_to_enter(r, p@)
                    && final(state).units@ == old(state).units@
                    && final(state).current_path@ == old(state).current_path@
                    && final(state).select == old(state).select,
                ClientMessage::CurrentPathChanged { current_path, units } => r is Nothing
                    && final(state).units@ == units@
                    && final(state).current_path@ == current_path@
                    && final(state).select == old(state).select,
                ClientMessage::GoBack => (match parent(old(state).current_path@) {
                    Some(q) => lists_to_go_back(r, q),
                    None => r is Nothing,
                }) && final(state).units@ == old(state).units@
                    && final(state).current_path@ == old(state).current_path@
                    && final(state).select == old(state).select,
                ClientMessage::GoneBack(units) => r is Nothing
                    && final(state).units@ == units@
                    && final(state).current_path@ == (match parent(old(state).current_path@) {
                        Some(q) => q,
                        None => old(state).current_path@,
                    })
                    && final(state).select == old(state).select,
                ClientMessage::ToggleSelectMode => r is Nothing
                    && final(state).units@ == old(state).units@
                    && final(state).current_path@ == old(state).current_path@
                    && (if old(state).select.on {
                        !final(state).select.on && final(state).select.units@ == Seq::<Unit>::empty()
                            && final(state).select.state == SelectedState::Idle
                    } else {
                        final(state).select.on && final(state).select.units@
                            == old(state).select.units@
                            && final(state).select.state == old(state).select.state
                    }),
                ClientMessage::UnitDoubleClick(u) => (if u.kind == UnitKind::Dirctory {
                    lists_to_enter(r, u.path@)
                } else {
                    r is Nothing
                }) && final(state).units@ == old(state).units@
                    && final(state).current_path@ == old(state).current_path@
                    && final(state).select == old(state).select,
                ClientMessage::UnitClick(u) => r is Nothing
                    && final(state).units@ == old(state).units@
                    && final(state).current_path@ == old(state).current_path@
                    && final(state).select.on == old(state).select.on
                    && final(state).select.state == (if old(state).select.on && selects(
                        old(state).select.units@,
                        u,
                    ) && without(old(state).select.units@, u).len() == 0 {
                        SelectedState::Idle
                    } else {
                        old(state).select.state
                    })
                    && final(state).select.units@ == clicked(
                        old(state).select.units@,
                        old(state).select.on,
                        u,
                    ),
            },
    {
        match self {
            ClientMessage::ChangeCurrentPath(p) => {
                let q = p.clone();
                BrowseAction::List { path: p, then: AfterListing::Enter(q) }
            },
            ClientMessage::CurrentPathChanged { current_path, units } => {
                state.units = units;
                state.current_path = current_path;
                BrowseAction::Nothing
            },
            ClientMessage::GoBack => {
                let cs = chars_of(state.current_path.as_str());
                match parent_of(cs.as_slice()) {
                    Some(q) => BrowseAction::List {
                        path: string_from_chars(q.as_slice()),
                        then: AfterListing::GoneBack,
                    },
                    None => BrowseAction::Nothing,
                }
            },
            ClientMessage::GoneBack(units) => {
                let cs = chars_of(state.current_path.as_str());
                match parent_of(cs.as_slice()) {
                    Some(q) => {
                        state.current_path = string_from_chars(q.as_slice());
                    },
                    None => {},
                }
                state.units = units;
                BrowseAction::Nothing
            },
            ClientMessage::ToggleSelectMode => {
                if state.select.on {
                    state.select.clear();
                } else {
                    state.select.on = true;
                }
                BrowseAction::Nothing
            },
            ClientMessage::UnitDoubleClick(u) => {
                if u.kind == UnitKind::Dirctory {
                    let q = u.path.clone();
                    BrowseAction::List { path: u.path, then: AfterListing::Enter(q) }
                } else {
                    BrowseAction::Nothing
                }
            },
            ClientMessage::UnitClick(u) => {
                if state.select.on {
                    state.select.toggle_unit_selection(&u);
                } else {
                    state.select.toggle_unit_alone_selection(&u);
                }
                BrowseAction::Nothing
            },
        }
    }
}

/// What the user or the server did in the browser of the desktop application.
pub enum BrowserMessage<E> {
    RefreshUnits(Result<Vec<Unit>, E>),
    UnitClick(Unit),
    UnitDoubleClick(Unit),
    ToggleSelectMode,
    GoToPath(String),
}

/// What the desktop client is to do after a message: ask the server to list
/// `path`, its answer coming back to refresh the entries, or nothing.
pub enum RefreshAction {
    List(String),
    Nothing,
}

impl<E> BrowserMessage<E> {
    /// Handles the message in `state`, where the current path is the one whose
    /// entries are shown or asked for:
    /// - entries that arrived are shown (a failed listing changes nothing);
    /// - clicking an entry changes the selection (see `clicked`);
    /// - double-clicking a folder makes it the current path and asks for its
    ///   listing; other entries cannot be opened;
    /// - toggling selection mode leaves it (clearing the selection) or enters it;
    /// - going to a path makes it the current path and asks for its listing.
    pub fn handle(self, state: &mut Browser) -> (r: RefreshAction)
        ensures
            match self {
                BrowserMessage::RefreshUnits(res) => r is Nothing && final(state).units@ == (match res {
                    Ok(units) => units@,
                    Err(_) => old(state).units@,
                }) && final(state).current_path@ == old(state).current_path@
                    && final(state).select == old(state).select,
                BrowserMessage::UnitClick(u) => r is Nothing
                    && final(state).units@ == old(state).units@
                    && final(state).current_path@ == old(state).current_path@
                    && final(state).select.on == old(state).select.on
                    && final(state).select.state == (if old(state).select.on && selects(
                        old(state).select.units@,
                        u,
                    ) && without(old(state).select.units@, u).len() == 0 {
                        SelectedState::Idle
                    } else {
                        old(state).select.state
                    })
                    && final(state).select.units@ == clicked(
                        old(state).select.units@,
                        old(state).select.on,
                        u,
                    ),
                BrowserMessage::UnitDoubleClick(u) => (if u.kind == UnitKind::Dirctory {
                    (r matches RefreshAction::List(p) && p@ == u.path@)
                        && final(state).current_path@ == u.path@
                } else {
                    r is Nothing && final(state).current_path@ == old(state).current_path@
                }) && final(state).units@ == old(state).units@
                    && final(state).select == old(state).select,
                BrowserMessage::ToggleSelectMode => r is Nothing
                    && final(state).units@ == old(state).units@
                    && final(state).current_path@ == old(state).current_path@
                    && (if old(state).select.on {
                        !final(state).select.on && final(state).select.units@ == Seq::<Unit>::empty()
                            && final(state).select.state == SelectedState::Idle
                    } else {
                        final(state).select.on && final(state).select.units@
                            == old(state).select.units@
                            && final(state).select.state == old(state).select.state
                    }),
                BrowserMessage::GoToPath(p) => (r matches RefreshAction::List(q) && q@ == p@)
                    && final(state).current_path@ == p@
                    && final(state).units@ == old(state).units@
                    && final(state).select == old(state).select,
            },
    {
        match self {
            BrowserMessage::RefreshUnits(res) => {
                match res {
                    Ok(units) => {
                        state.units = units;
                    },
                    Err(_) => {},
                }
                RefreshAction::Nothing
            },
            BrowserMessage::UnitClick(u) => {
                if state.select.on {
                    state.select.toggle_unit_selection(&u);
                } else {
                    state.select.toggle_unit_alone_selection(&u);
                }
                RefreshAction::Nothing
            },
            BrowserMessage::UnitDoubleClick(u) => {
                if u.kind == UnitKind::Dirctory {
                    state.current_path = u.path.clone();
                    RefreshAction::List(u.path)
                } else {
                    RefreshAction::Nothing
                }
            },
            BrowserMessage::ToggleSelectMode => {
                if state.select.on {
                    state.select.clear();
                } else {
                    state.select.on = true;
                }
                RefreshAction::Nothing
            },
            BrowserMessage::GoToPath(p) => {
                state.current_path = p.clone();
                RefreshAction::List(p)
            },
        }
    }
}

} // verus!
