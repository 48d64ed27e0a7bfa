use webls::media::{folder_of_params, media_url, sort_params};
use webls::path::path_as_query;
use webls::prerequisites::{
    launch_mode, parse_u16, port_of_input, ClientPrequistesMessage, ClientPrequistesState, LaunchMode,
};

#[test]
fn ports_as_parse_reads_them() {
    for s in ["0", "8080", "+80", "65535", "65536", "", "+", "-1", "80a", " 80", "007", "99999999999"] {
        assert_eq!(parse_u16(s), s.parse::<u16>().ok(), "input {s:?}");
        assert_eq!(port_of_input(s), s.parse::<u16>().unwrap_or_default(), "input {s:?}");
    }
}

#[test]
fn prerequisites_submit_only_when_complete() {
    let mut s: ClientPrequistesState<[u8; 4]> = ClientPrequistesState::new();
    assert!(!s.can_submit());
    ClientPrequistesMessage::NewIp { value: "10.0.0.1".to_string(), valid: Some([10, 0, 0, 1]) }.handle(&mut s);
    assert!(!s.can_submit());
    ClientPrequistesMessage::NewPort(8080).handle(&mut s);
    assert!(s.can_submit());
    ClientPrequistesMessage::NewIp { value: "10.0.0.".to_string(), valid: None }.handle(&mut s);
    assert!(!s.can_submit());
    assert_eq!(s.ip, "10.0.0.");
    assert_eq!(s.port, 8080);
}

#[test]
fn launch_modes() {
    let args = |v: &[&str]| v.iter().map(|s| s.to_string()).collect::<Vec<_>>();
    assert!(matches!(launch_mode(&args(&["/srv", "8080"])), LaunchMode::ServeOn { ref target, port: 8080 } if target == "/srv"));
    assert!(matches!(launch_mode(&args(&["/srv", "x"])), LaunchMode::BadPort));
    assert!(matches!(launch_mode(&args(&["/srv"])), LaunchMode::ServeOnFreePort { ref target } if target == "/srv"));
    assert!(matches!(launch_mode(&args(&[])), LaunchMode::Windows));
    assert!(matches!(launch_mode(&args(&["a", "b", "c"])), LaunchMode::Windows));
}

fn pairs(v: &[(usize, &str)]) -> Vec<(usize, String)> {
    v.iter().map(|(i, s)| (*i, s.to_string())).collect()
}

#[test]
fn params_sorted_by_number_stably() {
    let s = sort_params(pairs(&[(2, "c"), (0, "a"), (1, "b"), (0, "a2")]));
    assert_eq!(s, pairs(&[(0, "a"), (0, "a2"), (1, "b"), (2, "c")]));
}

#[test]
fn folders_and_media_from_params() {
    assert_eq!(folder_of_params(pairs(&[(1, "helix"), (0, ".config"), (2, "config.toml")])), ".config/helix/config.toml");
    assert_eq!(folder_of_params(pairs(&[(0, "/"), (1, "home")])), "/home");
    assert_eq!(folder_of_params(vec![]), "");
    assert_eq!(media_url(pairs(&[(1, "b.mkv"), (0, "films")])), "/download/films/b.mkv");
    assert_eq!(media_url(vec![]), "/download");
}

#[test]
fn a_query_leads_back_to_its_folder() {
    let p = ".config/helix/config.toml";
    let q = path_as_query(p);
    let params: Vec<(usize, String)> = q
        .trim_start_matches("/?")
        .split('&')
        .filter(|x| !x.is_empty())
        .map(|kv| {
            let (k, v) = kv.split_once('=').unwrap();
            (k.parse().unwrap(), v.to_string())
        })
        .rev()
        .collect();
    assert_eq!(folder_of_params(params), p);
}
