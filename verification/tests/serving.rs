use std::time::Duration;
use webls::screens::{AccessError, ModeState, Page, ServeAction, ServeMessage, ServeState, ServerContext, ServerMessage, ServerState};
use webls::server::{
    disk_entry, is_same_os, listed_entry, local_entry, mp4_target, needs_remux_exec, path_file_name, removal_plan,
    transfer_plan, RpcServer, Server, ServerError, DEFAULT_TIMEOUT_SECS,
};
use webls::unit::{Unit, UnitKind};

#[test]
fn server_settings() {
    let s = Server::new("/srv".to_string());
    if let Some(p) = s.port {
        assert!(p >= 1024);
    }
    assert_eq!(s.timeout, Duration::from_secs(3600));
    assert_eq!(DEFAULT_TIMEOUT_SECS, 3600);
    let s = s.port(8080).timeout(Duration::from_secs(5));
    assert_eq!(s.port, Some(8080));
    assert_eq!(s.timeout, Duration::from_secs(5));
    assert_eq!(s.target, "/srv");
    assert_eq!(s.listen_port(), Ok(8080));
    let none = Server::with_found_port("/srv".to_string(), None);
    assert_eq!(none.listen_port(), Err(ServerError::NonePort));
}

#[test]
fn file_names_or_refusal() {
    assert_eq!(path_file_name("/srv/a/b.txt"), Ok("b.txt".to_string()));
    assert_eq!(path_file_name("/"), Err(ServerError::NonePathFilename));
    assert_eq!(path_file_name("a/.."), Err(ServerError::NonePathFilename));
}

#[test]
fn paste_plans() {
    let plan = transfer_plan("/srv", &vec!["a/x.txt".to_string(), "b".to_string()], "dest").unwrap();
    assert_eq!(
        plan,
        vec![
            ("/srv/a/x.txt".to_string(), "/srv/dest/x.txt".to_string()),
            ("/srv/b".to_string(), "/srv/dest/b".to_string())
        ]
    );
    assert_eq!(
        transfer_plan("/srv", &vec!["a".to_string(), "..".to_string()], "d"),
        Err(ServerError::NonePathFilename)
    );
    assert_eq!(transfer_plan("/srv", &vec![], "d"), Ok(vec![]));
}

#[test]
fn removal_plans() {
    let r = removal_plan(
        "/srv",
        &vec![
            Unit { path: "d".to_string(), kind: UnitKind::Dirctory },
            Unit { path: "f.txt".to_string(), kind: UnitKind::File },
        ],
    );
    assert_eq!(r, vec![("/srv/d".to_string(), true), ("/srv/f.txt".to_string(), false)]);
}

#[test]
fn listing_entries() {
    let u = listed_entry("/srv", "/srv/music/a.mp3", false).unwrap();
    assert_eq!(u.path, "music/a.mp3");
    assert_eq!(u.kind, UnitKind::File);
    assert!(listed_entry("/srv", "/other/a", true).is_none());
    let rpc = RpcServer::new("/srv".to_string(), 50051);
    assert_eq!(rpc.port, 50051);
    assert_eq!(rpc.resolve("music"), "/srv/music");
    let v = rpc.entry_unit("/srv/films/x.mkv", false).unwrap();
    assert_eq!((v.path.as_str(), v.kind), ("films/x.mkv", UnitKind::Video));
    let d = rpc.entry_unit("/srv/films", true).unwrap();
    assert_eq!(d.kind, UnitKind::Dirctory);
    let l = local_entry("/home/u/song.opus".to_string(), false);
    assert_eq!(l.kind, UnitKind::Audio);
    assert_eq!(l.path, "/home/u/song.opus");
}

#[test]
fn remux_only_non_mp4_videos() {
    assert!(needs_remux_exec("/srv/a.mkv"));
    assert!(!needs_remux_exec("/srv/a.mp4"));
    assert!(!needs_remux_exec("/srv/a.mp3"));
    assert!(!needs_remux_exec("/srv/noext"));
}

#[test]
fn disks_shown() {
    assert!(disk_entry("/boot", 1, 1).is_none());
    assert!(disk_entry("/boot/", 1, 1).is_none());
    let d = disk_entry("/", 10, 4).unwrap();
    assert_eq!((d.name.as_str(), d.total_space, d.available_space), ("root", 10, 4));
    assert_eq!(disk_entry("/mnt/usb", 3, 2).unwrap().name, "usb");
}

#[test]
fn same_os_by_user_agent() {
    assert!(is_same_os("Mozilla/5.0 (X11; LINUX x86_64)", "linux"));
    assert!(!is_same_os("Mozilla/5.0 (Windows NT 10.0)", "linux"));
    assert!(is_same_os("anything", ""));
}

#[test]
fn serving_screen_launch_and_stop() {
    let mut s: ServeState<u32> = ServeState { target_path: "/home".to_string(), port: 9000, working_process: None };
    assert!(matches!(ServeMessage::Stop.handle(&mut s), ServeAction::Nothing));
    assert!(matches!(ServeMessage::TargetPicked("/data".to_string()).handle(&mut s), ServeAction::Nothing));
    match ServeMessage::Launch.handle(&mut s) {
        ServeAction::Spawn { root, port, web_port } => {
            assert_eq!((root.as_str(), port, web_port), ("/data", 9000, None));
        }
        _ => panic!("expected a spawn"),
    }
    s.launched(7);
    assert!(s.is_working());
    assert!(matches!(ServeMessage::Stop.handle(&mut s), ServeAction::Abort(7)));
    assert!(!s.is_working());
    assert!(matches!(ServeMessage::PickTarget.handle(&mut s), ServeAction::PickFolder));
}

#[test]
fn desktop_serving_screen() {
    let mut s: ServerState<u32> = ServerState {
        rpc_server: RpcServer::new("/home".to_string(), 50051),
        web_port: 8080,
        working_process: None,
    };
    ServerMessage::TargetPicked(None).handle(&mut s);
    assert_eq!(s.rpc_server.target_dir, "/home");
    ServerMessage::TargetPicked(Some("/data".to_string())).handle(&mut s);
    assert_eq!(s.rpc_server.target_dir, "/data");
    match ServerMessage::Launch.handle(&mut s) {
        ServeAction::Spawn { root, port, web_port } => {
            assert_eq!((root.as_str(), port, web_port), ("/data", 50051, Some(8080)));
        }
        _ => panic!("expected a spawn"),
    }
    s.launched(3);
    assert!(matches!(ServerMessage::Stop.handle(&mut s), ServeAction::Abort(3)));
    assert!(!s.is_working());
}

#[test]
fn pages_mode_and_context() {
    assert_eq!(Page::default(), Page::Home);
    let _m = ModeState {};
    let c = ServerContext::new("/srv".to_string(), "secret".to_string());
    assert!(c.authorizes("secret"));
    assert!(!c.authorizes("Secret"));
    assert_eq!(c.login("secret".to_string()), Some("secret".to_string()));
    assert_eq!(c.login("nope".to_string()), None);
    assert_eq!(c.paste_plan(&vec!["a".to_string()], "b", "nope"), Err(AccessError::WrongPassword));
    assert_eq!(
        c.paste_plan(&vec!["a".to_string()], "b", "secret"),
        Ok(vec![("/srv/a".to_string(), "/srv/b/a".to_string())])
    );
    let bases = vec![Unit { path: "d".to_string(), kind: UnitKind::Dirctory }];
    assert_eq!(c.removal_plan(&bases, "nope"), Err(AccessError::WrongPassword));
    assert_eq!(c.removal_plan(&bases, "secret"), Ok(vec![("/srv/d".to_string(), true)]));
    assert_eq!(c.mkdir_target("new", "secret"), Ok("/srv/new".to_string()));
    assert_eq!(c.mkdir_target("new", ""), Err(AccessError::WrongPassword));
    assert_eq!(
        c.remux_plan(&vec!["films/a.mkv".to_string(), "b.avi".to_string()], "secret"),
        Ok(vec![
            ("/srv/films/a.mkv".to_string(), "/srv/films/a.mp4".to_string()),
            ("/srv/b.avi".to_string(), "/srv/b.mp4".to_string())
        ])
    );
    assert_eq!(c.remux_plan(&vec![], "x"), Err(AccessError::WrongPassword));
    let relative = ServerContext::new("srv".to_string(), "p".to_string());
    assert_eq!(
        relative.remux_plan(&vec!["a.mkv".to_string()], "p"),
        Ok(vec![("srv/srv/a.mkv".to_string(), "srv/srv/a.mp4".to_string())])
    );
}

#[test]
fn mp4_targets() {
    assert_eq!(mp4_target("/srv/a.mkv"), "/srv/a.mp4");
    assert_eq!(mp4_target("/srv/noext"), "/srv/noext.mp4");
    assert_eq!(mp4_target("/srv/.."), "/srv/..");
}
