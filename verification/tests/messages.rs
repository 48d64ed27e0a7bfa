use webls::delivery::origin_url;
use webls::pages::folder_of_query;
use webls::path::path_as_query;
use webls::queue::{Downloads, PathCollector, Turn, MAX_PARALLEL};
use webls::screens::{AccessError, MainAction, MainMessage, MainPage, MainWindow, ServerContext};
use webls::server::joined;
use webls::select::Selected;
use webls::transfer::{
    hash_path, prepare_file, DownloadAction, DownloadMessage, Downloads as ClientDownloads,
    DownloadingState, Fetch, Progress, ProgressState, Windows,
};
use webls::unit::{Unit, UnitKind};

fn unit(path: &str, kind: UnitKind) -> Unit {
    Unit { path: path.to_string(), kind }
}

fn query_pairs(q: &str) -> Vec<(String, String)> {
    let rest = q.strip_prefix("/?").unwrap();
    rest.split("&&")
        .filter(|x| !x.is_empty())
        .map(|kv| {
            let (k, v) = kv.split_once('=').unwrap();
            (k.to_string(), v.to_string())
        })
        .collect()
}

#[test]
fn main_window_moves_between_pages() {
    let mut w: MainWindow<[u8; 4]> = MainWindow::new();
    assert_eq!(w.page, MainPage::Home);
    assert_eq!(w.serve_origin, Err("Not initialized yet".to_string()));
    assert!(matches!(MainMessage::ToServe.handle(&mut w), MainAction::FindServeOrigin));
    assert_eq!(w.page, MainPage::Serve);
    let a = MainMessage::SetServeOrigin(Ok(([10, 0, 0, 2], 4000))).handle(&mut w);
    assert!(matches!(a, MainAction::Nothing));
    assert_eq!(w.serve_origin, Ok(([10, 0, 0, 2], 4000)));
    MainMessage::SetServeOrigin(Err("no port".to_string())).handle(&mut w);
    assert_eq!(w.serve_origin, Err("no port".to_string()));
    assert!(matches!(MainMessage::ToHome.handle(&mut w), MainAction::Nothing));
    assert_eq!(w.page, MainPage::Home);
    MainMessage::ToggleClientModal.handle(&mut w);
    assert!(w.show_client_modal);
    MainMessage::ToggleClientModal.handle(&mut w);
    assert!(!w.show_client_modal);
}

#[test]
fn submitting_the_address_lists_the_top_folder() {
    let mut w: MainWindow<[u8; 4]> = MainWindow::new();
    MainMessage::ToggleClientModal.handle(&mut w);
    w.prerequisites.valid_ip = Some([192, 168, 1, 5]);
    w.prerequisites.port = 8080;
    match MainMessage::SubmitClientPrequsits.handle(&mut w) {
        MainAction::ListRoot { ip, port } => {
            assert_eq!(ip, [192, 168, 1, 5]);
            assert_eq!(port, 8080);
        }
        _ => panic!("expected a listing"),
    }
    assert_eq!(w.client_origin, Some(([192, 168, 1, 5], 8080)));
    assert!(!w.show_client_modal);
    assert_eq!(w.page, MainPage::Home);
    let units = vec![unit("a", UnitKind::Dirctory)];
    MainMessage::ToClient(units).handle(&mut w);
    assert_eq!(w.page, MainPage::Client);
    assert_eq!(w.units.len(), 1);
    assert_eq!(w.units[0].path, "a");
}

#[test]
fn failed_collection_leaves_the_queue() {
    let mut d: Downloads<u32, String> = Downloads::new();
    assert!(d.queue_from_selected(Ok::<Vec<String>, String>(vec!["a".to_string(), "b".to_string()])));
    assert_eq!(d.waiting, vec![0, 1]);
    assert!(!d.queue_from_selected(Err::<Vec<String>, String>("listing failed".to_string())));
    assert_eq!(d.waiting, vec![0, 1]);
    assert_eq!(d.files.len(), 2);
    assert_eq!(d.files[1].path, "b");
}

#[test]
fn started_turns_fill_the_free_places() {
    let mut d: Downloads<u32, String> = Downloads::new();
    d.waitlist_extend((0..8).map(|i| format!("f{i}")).collect());
    d.start_turn(Turn::Waiting(0), 100);
    let turns = d.available_turns();
    assert_eq!(turns.len(), MAX_PARALLEL - 1);
    let handles: Vec<u32> = (0..turns.len() as u32).collect();
    d.start_turns(turns, handles);
    assert_eq!(d.progressing, vec![(0, 100), (1, 0), (2, 1), (3, 2), (4, 3)]);
    assert_eq!(d.turn_task(), None);
    assert_eq!(d.waiting, vec![5, 6, 7]);
}

#[test]
fn started_turns_stop_when_nothing_is_left() {
    let mut d: Downloads<u32, String> = Downloads::new();
    d.waitlist_extend(vec!["a".to_string(), "b".to_string()]);
    let turns = d.available_turns();
    d.start_turns(turns, vec![7, 8]);
    assert_eq!(d.progressing, vec![(0, 7), (1, 8)]);
    assert!(d.waiting.is_empty());
    assert_eq!(d.turn_task(), None);
}

#[test]
fn download_messages_keep_each_download_under_its_path() {
    let mut w: Windows<u8, String> =
        Windows { main: Some(1), download: None, downloads: ClientDownloads::new("/dl".to_string()) };
    let mut s = Selected::default();
    s.toggle_unit_selection(&unit("m/a.mp4", UnitKind::Video));
    assert!(matches!(DownloadMessage::<u8, String>::OpenDownloadWindow.handle(&mut w, &mut s), DownloadAction::OpenWindow));
    match DownloadMessage::<u8, String>::DownloadWindowOpened(2).handle(&mut w, &mut s) {
        DownloadAction::Prepare(units) => assert_eq!(units[0].path, "m/a.mp4"),
        _ => panic!("expected folders to prepare"),
    }
    assert_eq!(w.download, Some(2));
    assert!(s.is_clear());
    let a = prepare_file("m/a.mp4".to_string(), "/dl");
    let b = prepare_file("m/b.mp4".to_string(), "/dl");
    let r = DownloadMessage::StartDownloading(vec![(a, 1), (b, 2)], 0).handle(&mut w, &mut s);
    assert!(matches!(r, DownloadAction::Nothing));
    assert_eq!(w.downloads.downloading.len(), 2);
    for (k, d) in &w.downloads.downloading {
        assert_eq!(*k, hash_path(&d.host_path));
        assert_eq!(d.size, 0);
        assert_eq!(d.progress_state, ProgressState::Waiting);
    }
    let ia = hash_path("/dl/a.mp4");
    let p = Progress { id: ia, progress_state: ProgressState::Started { total: 9 } };
    DownloadMessage::<u8, String>::Progressing(p).handle(&mut w, &mut s);
    assert_eq!(w.downloads.downloading[&ia].size, 9);
    DownloadMessage::<u8, String>::DownloadDone(ia).handle(&mut w, &mut s);
    assert_eq!(w.downloads.finished, vec!["/dl/a.mp4".to_string()]);
    let ib = hash_path("/dl/b.mp4");
    DownloadMessage::<u8, String>::DownloadFailed("reset".to_string(), ib).handle(&mut w, &mut s);
    assert!(w.downloads.downloading.is_empty());
    assert_eq!(w.downloads.failed[&ib].error, "reset");
    assert!(matches!(
        DownloadMessage::<u8, String>::CloseDownloadWindow(2).handle(&mut w, &mut s),
        DownloadAction::CloseWindow(2)
    ));
    assert!(matches!(
        DownloadMessage::<u8, String>::DownloadWindowClosed.handle(&mut w, &mut s),
        DownloadAction::StopAll
    ));
    assert_eq!(w.download, None);
    assert_eq!(w.main, Some(1));
    assert!(matches!(w.downloads.state, DownloadingState::Downloading { main_handle: 0 }));
}

#[test]
fn closing_an_idle_download_window_stops_nothing() {
    let mut w: Windows<u8, String> =
        Windows { main: Some(1), download: Some(2), downloads: ClientDownloads::new("/dl".to_string()) };
    let mut s = Selected::default();
    assert!(matches!(
        DownloadMessage::<u8, String>::DownloadWindowClosed.handle(&mut w, &mut s),
        DownloadAction::Nothing
    ));
    assert_eq!(w.download, None);
}

#[test]
fn the_file_list_reads_its_query_back() {
    for p in [".config/helix/config.toml", "a/b/c/d/e/f/g/h/i/j/k/l", "x", "", "./a//b/./c/"] {
        let params = query_pairs(&path_as_query(p));
        let folder = folder_of_query(params);
        let expected: Vec<String> = std::path::Path::new(p)
            .components()
            .map(|c| c.as_os_str().to_str().unwrap().to_string())
            .collect();
        let got: Vec<String> = std::path::Path::new(&folder)
            .components()
            .map(|c| c.as_os_str().to_str().unwrap().to_string())
            .collect();
        assert_eq!(got, expected, "path {p:?}");
    }
}

#[test]
fn origin_written_as_a_url() {
    assert_eq!(origin_url("192.168.1.5", 8080), "http://192.168.1.5:8080");
    assert_eq!(origin_url("10.0.0.2", 0), "http://10.0.0.2:0");
    assert_eq!(origin_url("::1", 65535), "http://::1:65535");
}

#[test]
fn started_turns_leave_the_rest_in_order() {
    let mut d: Downloads<u32, String> = Downloads::new();
    d.waitlist_extend((0..9).map(|i| format!("f{i}")).collect());
    d.start_turn(Turn::Waiting(0), 50);
    d.start_turn(Turn::Waiting(1), 51);
    d.pause_list(0);
    d.resume_list(0);
    let turns = d.available_turns();
    assert_eq!(turns, vec![Turn::Resumable(0), Turn::Waiting(2), Turn::Waiting(3), Turn::Waiting(4)]);
    d.start_turns(turns, vec![1, 2, 3, 4]);
    assert!(d.resumable.is_empty());
    assert_eq!(d.waiting, vec![5, 6, 7, 8]);
    assert_eq!(d.progressing.len(), MAX_PARALLEL);
}

#[test]
fn fetch_counts_the_bytes() {
    let (mut f, p) = Fetch::started("/dl/a.mp4", 10);
    assert_eq!(f.id, hash_path("/dl/a.mp4"));
    assert_eq!(p, Progress { id: f.id, progress_state: ProgressState::Started { total: 10 } });
    assert_eq!(f.received(4).progress_state, ProgressState::Marshing { downloaded: 4 });
    assert_eq!(f.received(6).progress_state, ProgressState::Marshing { downloaded: 10 });
    assert_eq!(f.finished(), Progress { id: f.id, progress_state: ProgressState::Finished });
}

#[test]
fn wrong_password_answered_before_names() {
    let c = ServerContext::new("/srv".to_string(), "secret".to_string());
    assert_eq!(c.paste_plan(&vec!["..".to_string()], "b", "nope"), Err(AccessError::WrongPassword));
}

#[test]
fn served_entries_joined_under_the_folder() {
    assert_eq!(joined("/srv", "a/b"), "/srv/a/b");
    assert_eq!(joined("/srv/", "a"), "/srv/a");
    assert_eq!(joined("/srv", "/etc"), "/etc");
    assert_eq!(joined("", "a"), "a");
}

#[test]
fn collector_driven_depth_first() {
    let listing = |p: &str| -> Vec<Unit> {
        match p {
            "A" => vec![unit("A/x", UnitKind::File), unit("A/B", UnitKind::Dirctory), unit("A/y", UnitKind::Video), unit("A/C", UnitKind::Dirctory)],
            "A/B" => vec![unit("A/B/z", UnitKind::Audio)],
            "A/C" => vec![unit("A/C/w", UnitKind::File)],
            _ => vec![],
        }
    };
    let mut c = PathCollector::new(vec![unit("f0", UnitKind::File), unit("A", UnitKind::Dirctory), unit("f1", UnitKind::File)]);
    let mut asked = 0;
    while let Some(folder) = c.next_folder() {
        asked += 1;
        c.listed(listing(&folder));
    }
    assert_eq!(asked, 3);
    assert_eq!(c.paths, vec!["f0", "A/x", "A/y", "A/B/z", "A/C/w", "f1"]);
}
