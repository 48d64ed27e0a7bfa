use std::hash::{DefaultHasher, Hash, Hasher};
use webls::select::Selected;
use webls::transfer::{
    hash_path, prepare_file, preparation_steps, proper_size, Download, Downloads, DownloadingState,
    Preparation, Progress, ProgressState,
};
use webls::unit::{Unit, UnitKind};

fn std_hash(p: &str) -> u64 {
    let mut h = DefaultHasher::new();
    std::path::PathBuf::from(p).hash(&mut h);
    h.finish()
}

#[test]
fn proper_size_units() {
    assert_eq!(proper_size(0), "0 B");
    assert_eq!(proper_size(1023), "1023 B");
    assert_eq!(proper_size(1024), "1 KB");
    assert_eq!(proper_size(1048575), "1023 KB");
    assert_eq!(proper_size(1048576), "1 MB");
    assert_eq!(proper_size(5 * 1048576 + 7), "5 MB");
    assert_eq!(proper_size(1073741824), "1024 MB");
    assert_eq!(proper_size(1099511627776), "1 GB");
    assert_eq!(proper_size(u64::MAX), "16777215 GB");
}

#[test]
fn hash_path_is_the_default_hash_of_the_path() {
    assert_eq!(hash_path("/home/u/Downloads/a.txt"), std_hash("/home/u/Downloads/a.txt"));
    assert_eq!(hash_path("a//b"), std_hash("a/b"));
    assert_ne!(hash_path("a"), hash_path("b"));
}

#[test]
fn prepare_file_keeps_the_name() {
    let d = prepare_file("music/rock/song.mp3".to_string(), "/home/u/Downloads");
    assert_eq!(d.server_path, "music/rock/song.mp3");
    assert_eq!(d.host_path, "/home/u/Downloads/song.mp3");
    assert_eq!(d.id, std_hash("/home/u/Downloads/song.mp3"));
    let e = prepare_file("x.txt".to_string(), "dir/");
    assert_eq!(e.host_path, "dir/x.txt");
}

#[test]
fn preparation_steps_per_kind() {
    let units = vec![
        Unit { path: "a/films".to_string(), kind: UnitKind::Dirctory },
        Unit { path: "a/b.mkv".to_string(), kind: UnitKind::Video },
    ];
    let steps = preparation_steps(&units, "/dl");
    assert_eq!(steps.len(), 2);
    match &steps[0] {
        Preparation::Folder { server_path, host_dir } => {
            assert_eq!(server_path, "a/films");
            assert_eq!(host_dir, "/dl/films");
        }
        _ => panic!("expected a folder"),
    }
    match &steps[1] {
        Preparation::File(d) => {
            assert_eq!(d.host_path, "/dl/b.mkv");
            assert_eq!(d.id, hash_path("/dl/b.mkv"));
        }
        _ => panic!("expected a file"),
    }
}

fn download(server: &str, dir: &str) -> Download {
    prepare_file(server.to_string(), dir)
}

#[test]
fn downloads_move_from_flight_to_finished_or_failed() {
    let mut d: Downloads<u8, String> = Downloads::new("/dl".to_string());
    let a = download("x/a.txt", "/dl");
    let b = download("x/b.txt", "/dl");
    let (ia, ib) = (a.id, b.id);
    d.start_downloading(vec![a, b], vec![1, 2], 0);
    assert!(matches!(d.state, DownloadingState::Downloading { main_handle: 0 }));
    assert_eq!(d.main_handle(), Some(&0));
    assert_eq!(d.downloading.len(), 2);
    assert_eq!(d.downloading[&ia].handle, 1);
    assert_eq!(d.downloading[&ia].progress_state, ProgressState::Waiting);

    d.progressing(Progress { id: ia, progress_state: ProgressState::Started { total: 40 } });
    assert_eq!(d.downloading[&ia].size, 40);
    d.progressing(Progress { id: ia, progress_state: ProgressState::Marshing { downloaded: 10 } });
    assert_eq!(d.downloading[&ia].size, 40);
    assert_eq!(d.downloading[&ia].progress_state, ProgressState::Marshing { downloaded: 10 });
    d.progressing(Progress { id: 12345, progress_state: ProgressState::Finished });
    assert_eq!(d.downloading.len(), 2);

    d.download_done(ia);
    assert_eq!(d.finished, vec!["/dl/a.txt".to_string()]);
    assert!(!d.downloading.contains_key(&ia));
    d.download_done(ia);
    assert_eq!(d.finished.len(), 1);

    d.download_failed("reset".to_string(), ib);
    assert!(d.downloading.is_empty());
    assert_eq!(d.failed[&ib].error, "reset");
    assert_eq!(d.failed[&ib].download.host_path, "/dl/b.txt");

    d.clear();
    assert!(matches!(d.state, DownloadingState::Done));
    assert_eq!(d.download_dir, "/dl");
    assert!(d.finished.is_empty() && d.failed.is_empty());
}

#[test]
fn opening_the_window_takes_the_selection() {
    let mut d: Downloads<u8, String> = Downloads::new("/dl".to_string());
    let mut s = Selected::default();
    s.on = true;
    s.toggle_unit_selection(&Unit { path: "a".to_string(), kind: UnitKind::File });
    let units = d.open_window(&mut s);
    assert_eq!(units.len(), 1);
    assert!(s.is_clear() && !s.on);
    match &d.state {
        DownloadingState::MakeDirectories { units } => assert_eq!(units[0].path, "a"),
        _ => panic!("expected folders to prepare"),
    }
    assert_eq!(d.main_handle(), None);
}

#[test]
fn a_later_download_to_the_same_place_replaces_the_earlier() {
    let mut d: Downloads<u8, String> = Downloads::new("/dl".to_string());
    let a = download("x/same.txt", "/dl");
    let b = download("y/same.txt", "/dl");
    let id = a.id;
    assert_eq!(id, b.id);
    d.start_downloading(vec![a, b], vec![1, 2], 0);
    assert_eq!(d.downloading.len(), 1);
    assert_eq!(d.downloading[&id].handle, 2);
}
