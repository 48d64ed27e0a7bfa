use webls::queue::{split_listing, DownloadProgress, Downloads, Turn, MAX_PARALLEL};
use webls::unit::{Unit, UnitKind};

fn queue(n: usize) -> Downloads<u32, String> {
    let mut d: Downloads<u32, String> = Downloads::new();
    d.waitlist_extend((0..n).map(|i| format!("f{i}")).collect());
    d
}

#[test]
fn waiting_files_start_in_order_up_to_the_limit() {
    let mut d = queue(7);
    assert_eq!(d.waiting, (0..7).collect::<Vec<_>>());
    let mut started = Vec::new();
    while let Some(turn) = d.turn_task() {
        let i = match turn {
            Turn::Waiting(i) | Turn::Resumable(i) => i,
        };
        d.start_turn(turn, i as u32);
        started.push(i);
    }
    assert_eq!(started, vec![0, 1, 2, 3, 4]);
    assert_eq!(d.progressing.len(), MAX_PARALLEL);
    assert_eq!(d.waiting, vec![5, 6]);
    assert_eq!(d.active_count(), 7);
}

#[test]
fn resumed_downloads_go_first() {
    let mut d = queue(3);
    d.start_turn(Turn::Waiting(0), 10);
    d.pause_list(0);
    assert_eq!(d.paused, vec![0]);
    d.resume_list(0);
    assert_eq!(d.next_turn(), Some(Turn::Resumable(0)));
    d.start_turn(Turn::Resumable(0), 11);
    assert_eq!(d.next_turn(), Some(Turn::Waiting(1)));
}

#[test]
fn progress_reports_update_the_file() {
    let mut d = queue(1);
    d.start_turn(Turn::Waiting(0), 1);
    assert!(!d.tick(DownloadProgress::Begin { index: 0, total_size: 100 }));
    assert!(!d.tick(DownloadProgress::Progressed { index: 0, by: 30 }));
    assert!(!d.tick(DownloadProgress::Progressed { index: 0, by: 20 }));
    assert_eq!(d.files[0].total_size, 100);
    assert_eq!(d.files[0].sended, 50);
    assert!(d.tick(DownloadProgress::CheckDownloadResult { index: 0, result: Err("lost".to_string()) }));
    assert_eq!(d.failed, vec![(0, "lost".to_string())]);
    assert_eq!(d.files[0].sended, 0);
    assert!(d.progressing.is_empty());
    d.fail_wait_list(0);
    assert_eq!(d.waiting, vec![0]);
    assert!(d.failed.is_empty());
}

#[test]
fn finishing_and_canceling() {
    let mut d = queue(2);
    d.start_turn(Turn::Waiting(0), 1);
    d.start_turn(Turn::Waiting(1), 2);
    assert!(!d.tick(DownloadProgress::Finish(0)));
    assert_eq!(d.finished, vec![0]);
    d.progress_cancel_list(1);
    assert_eq!(d.canceled, vec![1]);
    d.waiting_cancel_list(1);
    assert_eq!(d.waiting, vec![1]);
    assert!(d.canceled.is_empty());
    assert!(d.tick(DownloadProgress::CheckDownloadResult { index: 0, result: Ok(()) }));
    assert_eq!(d.finished, vec![0]);
}

#[test]
fn priorities_swap_with_neighbours() {
    let mut d = queue(3);
    assert!(!d.is_upgradable(0));
    assert!(d.is_upgradable(2));
    d.upgrade_waiting(2);
    assert_eq!(d.waiting, vec![0, 2, 1]);
    d.downgrade_waiting(0);
    assert_eq!(d.waiting, vec![2, 0, 1]);
    assert!(!d.is_downgradable(1));
    d.downgrade_waiting(1);
    assert_eq!(d.waiting, vec![2, 0, 1]);
    d.upgrade_waiting(9);
    assert_eq!(d.waiting, vec![2, 0, 1]);
}

#[test]
fn preview_toggles() {
    let mut d = queue(0);
    d.toggle_preview();
    assert!(d.show_preview);
    d.toggle_preview();
    assert!(!d.show_preview);
}

#[test]
fn listing_split_into_files_and_folders() {
    let units = vec![
        Unit { path: "a/x.txt".to_string(), kind: UnitKind::File },
        Unit { path: "a/sub".to_string(), kind: UnitKind::Dirctory },
        Unit { path: "a/y.mp3".to_string(), kind: UnitKind::Audio },
    ];
    let (files, folders) = split_listing(units);
    assert_eq!(files, vec!["a/x.txt".to_string(), "a/y.mp3".to_string()]);
    assert_eq!(folders.len(), 1);
    assert_eq!(folders[0].path, "a/sub");
}
