use std::path::{Path, PathBuf};
use webls::delivery::arrange_listing;
use webls::path::{join_of, parent_of};
use webls::prerequisites::port_of_input;
use webls::queue::{Downloads, Turn};
use webls::select::Selected;
use webls::server::entry_kind_of;
use webls::unit::{retype, Unit, UnitKind};

fn chars(s: &str) -> Vec<char> {
    s.chars().collect()
}

fn text(v: &[char]) -> String {
    v.iter().collect()
}

fn unit(path: &str, kind: UnitKind) -> Unit {
    Unit { path: path.to_string(), kind }
}

#[test]
fn arranging_twice_is_arranging_once() {
    let xs = vec![
        unit("b.txt", UnitKind::File),
        unit("a.ogg", UnitKind::File),
        unit("z", UnitKind::Dirctory),
        unit("a", UnitKind::Dirctory),
    ];
    let once = arrange_listing(xs);
    let again = arrange_listing(once.iter().map(|u| u.duplicate()).collect());
    let p = |v: &[Unit]| v.iter().map(|u| (u.path.clone(), u.kind)).collect::<Vec<_>>();
    assert_eq!(p(&once), p(&again));
}

#[test]
fn retyping_twice_is_retyping_once() {
    let xs = vec![unit("a.mkv", UnitKind::File), unit("b.flac", UnitKind::File), unit("c", UnitKind::File)];
    let once = retype(xs);
    let kinds: Vec<UnitKind> = once.iter().map(|u| u.kind).collect();
    let twice = retype(once);
    assert_eq!(kinds, twice.iter().map(|u| u.kind).collect::<Vec<_>>());
}

#[test]
fn server_and_client_type_alike() {
    for p in ["a.mkv", "b.mp3", "c.txt", "d", "e.ogg"] {
        let client = retype(vec![unit(p, UnitKind::File)])[0].kind;
        assert_eq!(entry_kind_of(p, false), client, "{p}");
    }
    assert_eq!(entry_kind_of("folder.mkv", true), UnitKind::Dirctory);
}

#[test]
fn toggling_flips_membership() {
    let mut s = Selected::default();
    s.on = true;
    let u = unit("x", UnitKind::File);
    assert!(!s.is_selected(&u));
    s.toggle_unit_selection(&u);
    assert!(s.is_selected(&u));
    s.toggle_unit_selection(&u);
    assert!(!s.is_selected(&u));
}

#[test]
fn every_file_sits_in_exactly_one_list() {
    let mut d: Downloads<u8, String> = Downloads::new();
    d.waitlist_extend((0..4).map(|i| format!("f{i}")).collect());
    d.start_turn(Turn::Waiting(0), 0);
    d.start_turn(Turn::Waiting(1), 1);
    d.pause_list(1);
    d.progress_cancel_list(0);
    let mut seen: Vec<usize> = Vec::new();
    seen.extend(d.progressing.iter().map(|x| x.0));
    seen.extend(d.waiting.iter());
    seen.extend(d.resumable.iter());
    seen.extend(d.finished.iter());
    seen.extend(d.paused.iter());
    seen.extend(d.failed.iter().map(|x| x.0));
    seen.extend(d.canceled.iter());
    seen.sort();
    assert_eq!(seen, vec![0, 1, 2, 3]);
}

#[test]
fn ports_written_read_back() {
    for p in [0u16, 1, 80, 8080, 65535] {
        assert_eq!(port_of_input(&p.to_string()), p);
    }
}

#[test]
fn going_back_after_entering_returns() {
    for (base, name) in [("music", "rock"), ("/srv/", "a"), ("", "x"), (".", "y"), ("a//b/", "..")] {
        let entered = join_of(&chars(base), &chars(name));
        let back = text(&parent_of(&entered).unwrap());
        assert_eq!(PathBuf::from(back), PathBuf::from(base), "{base:?} {name:?}");
        assert_eq!(Path::new(&text(&entered)).parent().unwrap(), Path::new(base));
    }
}
