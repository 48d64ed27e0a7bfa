use webls::delivery::{arrange_listing, Delivery};
use webls::order::resort;
use webls::unit::{retype, retype_in_place, Unit, UnitKind};

fn unit(path: &str, kind: UnitKind) -> Unit {
    Unit { path: path.to_string(), kind }
}

fn kinds(xs: &[Unit]) -> Vec<UnitKind> {
    xs.iter().map(|u| u.kind).collect()
}

fn paths(xs: &[Unit]) -> Vec<String> {
    xs.iter().map(|u| u.path.clone()).collect()
}

#[test]
fn retype_uses_extensions() {
    let xs = vec![
        unit("a/movie.mkv", UnitKind::File),
        unit("a/song.flac", UnitKind::File),
        unit("a/notes.txt", UnitKind::File),
        unit("a/clip.ogg", UnitKind::File),
        unit("a/folder.mp4", UnitKind::Dirctory),
        unit("a/.mp4", UnitKind::File),
        unit("a/noext", UnitKind::File),
    ];
    let r = retype(xs);
    assert_eq!(
        kinds(&r),
        vec![
            UnitKind::Video,
            UnitKind::Audio,
            UnitKind::File,
            UnitKind::Video,
            UnitKind::Dirctory,
            UnitKind::File,
            UnitKind::File
        ]
    );
}

#[test]
fn retype_in_place_matches_retype() {
    let mut xs = vec![unit("x.wav", UnitKind::File), unit("y.MP4", UnitKind::File)];
    retype_in_place(&mut xs);
    assert_eq!(kinds(&xs), vec![UnitKind::Audio, UnitKind::File]);
}

#[test]
fn resort_orders_by_kind_then_name() {
    let xs = vec![
        unit("d/zeta.txt", UnitKind::File),
        unit("d/b", UnitKind::Dirctory),
        unit("d/a.mkv", UnitKind::Video),
        unit("d/a", UnitKind::Dirctory),
        unit("d/x.mp3", UnitKind::Audio),
        unit("d/alpha.txt", UnitKind::File),
    ];
    let r = resort(xs);
    assert_eq!(
        paths(&r),
        vec!["d/a", "d/b", "d/a.mkv", "d/x.mp3", "d/alpha.txt", "d/zeta.txt"]
    );
}

#[test]
fn resort_is_stable_for_same_names() {
    let xs = vec![
        unit("one/same", UnitKind::File),
        unit("two/same", UnitKind::File),
        unit("three/same", UnitKind::File),
    ];
    let r = resort(xs);
    assert_eq!(paths(&r), vec!["one/same", "two/same", "three/same"]);
}

#[test]
fn arrange_listing_types_then_sorts() {
    let xs = vec![
        unit("b.txt", UnitKind::File),
        unit("a.mp3", UnitKind::File),
        unit("z", UnitKind::Dirctory),
        unit("c.webm", UnitKind::File),
    ];
    let r = arrange_listing(xs);
    assert_eq!(paths(&r), vec!["z", "c.webm", "a.mp3", "b.txt"]);
    assert_eq!(
        kinds(&r),
        vec![UnitKind::Dirctory, UnitKind::Video, UnitKind::Audio, UnitKind::File]
    );
}

#[test]
fn delivery_url_path_appends() {
    let d = Delivery::new("http://10.0.0.2:8080".to_string());
    assert_eq!(d.clone().url_path("/ls"), "http://10.0.0.2:8080/ls");
    assert_eq!(d.url_path(""), "http://10.0.0.2:8080");
}

#[test]
fn unit_name_is_last_component() {
    assert_eq!(unit("a/b/c.txt", UnitKind::File).name(), "c.txt");
    assert_eq!(unit("folder/", UnitKind::Dirctory).name(), "folder");
}
