use webls::browse::{AfterListing, BrowseAction, Browser, BrowserMessage, ClientMessage, RefreshAction};
use webls::select::{Selected, SelectedState};
use webls::unit::{Unit, UnitKind};

fn unit(path: &str, kind: UnitKind) -> Unit {
    Unit { path: path.to_string(), kind }
}

fn paths(s: &Selected) -> Vec<String> {
    s.units.iter().map(|u| u.path.clone()).collect()
}

#[test]
fn toggling_twice_restores_the_selection() {
    let mut s = Selected::default();
    s.on = true;
    s.toggle_unit_selection(&unit("a", UnitKind::File));
    s.toggle_unit_selection(&unit("b", UnitKind::Dirctory));
    assert_eq!(paths(&s), vec!["a", "b"]);
    s.toggle_unit_selection(&unit("c", UnitKind::File));
    s.toggle_unit_selection(&unit("c", UnitKind::File));
    assert_eq!(paths(&s), vec!["a", "b"]);
}

#[test]
fn same_entry_by_components() {
    let mut s = Selected::default();
    s.toggle_unit_selection(&unit("x/y", UnitKind::File));
    assert!(s.is_selected(&unit("x//y/", UnitKind::File)));
    assert!(!s.is_selected(&unit("x/y", UnitKind::Dirctory)));
    s.toggle_unit_selection(&unit("./x/y", UnitKind::File));
    assert_eq!(paths(&s), vec!["x/y", "./x/y"]);
}

#[test]
fn removing_last_forgets_the_purpose() {
    let mut s = Selected::default();
    s.toggle_unit_selection(&unit("a", UnitKind::File));
    s.cut();
    assert_eq!(s.state, SelectedState::Cut);
    s.remove_unit(&unit("a", UnitKind::File));
    assert!(s.is_clear());
    assert_eq!(s.state, SelectedState::Idle);
}

#[test]
fn alone_selection_and_dirs() {
    let mut s = Selected::default();
    s.toggle_unit_alone_selection(&unit("a", UnitKind::File));
    s.toggle_unit_alone_selection(&unit("d", UnitKind::Dirctory));
    assert_eq!(paths(&s), vec!["d"]);
    assert!(s.has_dirs());
    assert_eq!(s.as_paths(), vec!["d".to_string()]);
    s.toggle_unit_alone_selection(&unit("d", UnitKind::Dirctory));
    assert!(s.is_clear());
    assert!(!s.has_dirs());
    s.copy();
    assert_eq!(s.state, SelectedState::Copy);
    s.on = true;
    s.clear();
    assert!(!s.on && s.is_clear() && s.state == SelectedState::Idle);
}

fn browser(path: &str) -> Browser {
    Browser { units: Vec::new(), current_path: path.to_string(), select: Selected::default() }
}

#[test]
fn going_back_asks_for_the_parent() {
    let mut b = browser("music/rock");
    match ClientMessage::GoBack.handle(&mut b) {
        BrowseAction::List { path, then: AfterListing::GoneBack } => assert_eq!(path, "music"),
        _ => panic!("expected a listing"),
    }
    let r = ClientMessage::GoneBack(vec![unit("music/rock", UnitKind::Dirctory)]).handle(&mut b);
    assert!(matches!(r, BrowseAction::Nothing));
    assert_eq!(b.current_path, "music");
    assert_eq!(b.units.len(), 1);
    let mut top = browser("");
    assert!(matches!(ClientMessage::GoBack.handle(&mut top), BrowseAction::Nothing));
}

#[test]
fn entering_folders_and_changing_paths() {
    let mut b = browser("");
    match ClientMessage::UnitDoubleClick(unit("films", UnitKind::Dirctory)).handle(&mut b) {
        BrowseAction::List { path, then: AfterListing::Enter(p) } => {
            assert_eq!(path, "films");
            assert_eq!(p, "films");
        }
        _ => panic!("expected a listing"),
    }
    assert!(matches!(
        ClientMessage::UnitDoubleClick(unit("films/a.mkv", UnitKind::Video)).handle(&mut b),
        BrowseAction::Nothing
    ));
    let r = ClientMessage::CurrentPathChanged {
        current_path: "films".to_string(),
        units: vec![unit("films/a.mkv", UnitKind::Video)],
    }
    .handle(&mut b);
    assert!(matches!(r, BrowseAction::Nothing));
    assert_eq!(b.current_path, "films");
    match ClientMessage::ChangeCurrentPath("docs".to_string()).handle(&mut b) {
        BrowseAction::List { path, then: AfterListing::Enter(p) } => {
            assert_eq!(path, "docs");
            assert_eq!(p, "docs");
        }
        _ => panic!("expected a listing"),
    }
    assert_eq!(b.current_path, "films");
}

#[test]
fn clicking_in_and_out_of_selection_mode() {
    let mut b = browser("");
    ClientMessage::UnitClick(unit("a", UnitKind::File)).handle(&mut b);
    ClientMessage::UnitClick(unit("b", UnitKind::File)).handle(&mut b);
    assert_eq!(paths(&b.select), vec!["b"]);
    ClientMessage::ToggleSelectMode.handle(&mut b);
    assert!(b.select.on);
    ClientMessage::UnitClick(unit("a", UnitKind::File)).handle(&mut b);
    assert_eq!(paths(&b.select), vec!["b", "a"]);
    ClientMessage::ToggleSelectMode.handle(&mut b);
    assert!(!b.select.on && b.select.is_clear());
}

#[test]
fn desktop_browser_messages() {
    let mut b = browser("");
    match BrowserMessage::<String>::GoToPath("x".to_string()).handle(&mut b) {
        RefreshAction::List(p) => assert_eq!(p, "x"),
        RefreshAction::Nothing => panic!("expected a listing"),
    }
    assert_eq!(b.current_path, "x");
    BrowserMessage::<String>::RefreshUnits(Ok(vec![unit("x/y", UnitKind::File)])).handle(&mut b);
    assert_eq!(b.units.len(), 1);
    BrowserMessage::RefreshUnits(Err("down".to_string())).handle(&mut b);
    assert_eq!(b.units.len(), 1);
    match BrowserMessage::<String>::UnitDoubleClick(unit("x/z", UnitKind::Dirctory)).handle(&mut b) {
        RefreshAction::List(p) => assert_eq!(p, "x/z"),
        RefreshAction::Nothing => panic!("expected a listing"),
    }
    assert_eq!(b.current_path, "x/z");
}
