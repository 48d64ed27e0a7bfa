use webls::pages::{double_click, file_box_key, folder_of_query, OpenAction};
use webls::path::names_as_query;
use webls::queue::{DownloadProgress, Downloads, PathCollector, Turn};
use webls::screens::ServerContext;
use webls::select::{Selected, SelectedState};
use webls::transfer::{hash_path, prepare_file, window_closed, Downloads as ClientDownloads, DownloadingState, Windows};
use webls::unit::{Unit, UnitKind};

fn unit(path: &str, kind: UnitKind) -> Unit {
    Unit { path: path.to_string(), kind }
}

#[test]
fn start_turn_appends_the_pair_and_leaves_the_rest() {
    let mut d: Downloads<u32, String> = Downloads::new();
    d.waitlist_extend(vec!["a".to_string(), "b".to_string(), "c".to_string()]);
    d.start_turn(Turn::Waiting(0), 7);
    d.pause_list(0);
    d.start_turn(Turn::Waiting(1), 8);
    assert_eq!(d.progressing, vec![(1, 8)]);
    assert_eq!(d.paused, vec![0]);
    assert_eq!(d.waiting, vec![2]);
    assert!(!d.show_preview);
}

#[test]
fn failed_transfer_loses_its_progress() {
    let mut d: Downloads<u32, String> = Downloads::new();
    d.waitlist_extend(vec!["a".to_string()]);
    d.start_turn(Turn::Waiting(0), 1);
    d.tick(DownloadProgress::Progressed { index: 0, by: 40 });
    d.tick(DownloadProgress::CheckDownloadResult { index: 0, result: Err("x".to_string()) });
    assert_eq!(d.files[0].sended, 0);
}

#[test]
fn available_turns_resume_first_up_to_the_limit() {
    let mut d: Downloads<u32, String> = Downloads::new();
    d.waitlist_extend((0..8).map(|i| format!("f{i}")).collect());
    d.start_turn(Turn::Waiting(0), 0);
    d.pause_list(0);
    d.resume_list(0);
    d.start_turn(Turn::Waiting(1), 1);
    let turns = d.available_turns();
    assert_eq!(turns, vec![Turn::Resumable(0), Turn::Waiting(2), Turn::Waiting(3), Turn::Waiting(4)]);
    for t in turns {
        assert_eq!(d.turn_task(), Some(t));
        d.start_turn(t, 9);
    }
    assert_eq!(d.turn_task(), None);
    assert!(d.available_turns().is_empty());
}

#[test]
fn paths_collected_depth_first() {
    let mut c = PathCollector::new(vec![unit("A", UnitKind::Dirctory), unit("f1", UnitKind::File)]);
    assert_eq!(c.next_folder(), Some("A".to_string()));
    c.listed(vec![unit("A/x", UnitKind::File), unit("A/B", UnitKind::Dirctory), unit("A/y", UnitKind::Video)]);
    assert_eq!(c.next_folder(), Some("A/B".to_string()));
    c.listed(vec![unit("A/B/z", UnitKind::File)]);
    assert_eq!(c.next_folder(), None);
    assert_eq!(c.paths, vec!["A/x", "A/y", "A/B/z", "f1"]);
}

#[test]
fn started_downloads_are_keyed_by_their_path_hash() {
    let mut d: ClientDownloads<u8, String> = ClientDownloads::new("/dl".to_string());
    let a = prepare_file("s/a".to_string(), "/dl");
    let b = prepare_file("s/b".to_string(), "/dl");
    d.start_downloading(vec![a, b], vec![1, 2], 0);
    for (k, v) in d.downloading.iter() {
        assert_eq!(*k, hash_path(&v.host_path));
        assert_eq!(v.size, 0);
    }
}

#[test]
fn windows_open_and_close() {
    let mut w: Windows<u8, String> = Windows { main: None, download: None, downloads: ClientDownloads::new("/dl".to_string()) };
    w.main_window_opened(1);
    let mut s = Selected::default();
    s.toggle_unit_selection(&unit("m/a.mp4", UnitKind::Video));
    let units = w.download_window_opened(2, &mut s);
    assert_eq!(units.len(), 1);
    assert_eq!(w.download, Some(2));
    assert!(s.is_clear());
    assert!(matches!(w.downloads.state, DownloadingState::MakeDirectories { .. }));
    assert!(!window_closed(&mut w, 3));
    assert_eq!(w.download, Some(2));
    assert!(!window_closed(&mut w, 2));
    assert_eq!(w.download, None);
    assert!(matches!(w.downloads.state, DownloadingState::Done));
    assert_eq!(w.downloads.download_dir, "/dl");
    assert!(window_closed(&mut w, 1));
    assert_eq!(w.main, None);
    assert_eq!(w.download_window_closed(), None);
}

#[test]
fn names_queries_skip_root_and_parents() {
    assert_eq!(names_as_query("/a/b"), "/?0=a&&1=b");
    assert_eq!(names_as_query("x/../y/z"), "/?0=y&&1=z");
    assert_eq!(names_as_query(""), "/?");
    assert_eq!(names_as_query("./a"), "/?0=a");
}

#[test]
fn file_box_keys() {
    assert_eq!(file_box_key("Backspace", "music/rock", &vec![]), Some(("/?0=music".to_string(), false)));
    assert_eq!(file_box_key("Backspace", "", &vec![]), None);
    let dirs = vec![unit("films", UnitKind::Dirctory), unit("b.txt", UnitKind::File)];
    assert_eq!(file_box_key("Enter", "", &dirs), Some(("/?0=films".to_string(), true)));
    assert_eq!(file_box_key("Enter", "", &dirs[..1].iter().map(|u| u.duplicate()).collect()), Some(("/?0=films".to_string(), false)));
    assert_eq!(file_box_key("Enter", "", &vec![unit("b.txt", UnitKind::File)]), None);
    assert_eq!(file_box_key("Enter", "", &vec![]), None);
    assert_eq!(file_box_key("a", "x/y", &dirs), None);
}

#[test]
fn folders_of_queries() {
    let q = |v: &[(&str, &str)]| v.iter().map(|(k, x)| (k.to_string(), x.to_string())).collect::<Vec<_>>();
    assert_eq!(folder_of_query(q(&[("1", "b"), ("0", "a"), ("3", "d")])), "a/b");
    assert_eq!(folder_of_query(q(&[("0", "a"), ("0", "z")])), "a");
    assert_eq!(folder_of_query(q(&[])), "");
    assert_eq!(folder_of_query(q(&[("x", "a")])), "");
}

#[test]
fn double_clicks() {
    let mut s = Selected::default();
    s.toggle_unit_selection(&unit("f.txt", UnitKind::File));
    match double_click(&unit("music", UnitKind::Dirctory), &mut s) {
        OpenAction::Navigate(loc) => assert_eq!(loc, "/?0=music"),
        _ => panic!("expected navigation"),
    }
    assert!(s.is_clear());
    s.toggle_unit_selection(&unit("f.txt", UnitKind::File));
    s.copy();
    double_click(&unit("music", UnitKind::Dirctory), &mut s);
    assert_eq!(s.units.len(), 1);
    assert!(matches!(double_click(&unit("a.mp3", UnitKind::Audio), &mut s), OpenAction::Play(u) if u.path == "a.mp3"));
    assert!(matches!(double_click(&unit("f.txt", UnitKind::File), &mut s), OpenAction::Fetch(u) if u.path == "f.txt"));
    assert!(s.is_clear());
    assert_eq!(s.state, SelectedState::Idle);
}

#[test]
fn upload_targets() {
    let c = ServerContext::new("/srv".to_string(), "pw".to_string());
    assert_eq!(c.upload_target("films/a.mkv/pw"), Some(("/srv/films/a.mkv".to_string(), true)));
    assert_eq!(c.upload_target("a.mp4/pw"), Some(("/srv/a.mp4".to_string(), false)));
    assert_eq!(c.upload_target("a.mkv/bad"), None);
}
