//! The file server: its settings, its errors, and the decisions its handlers make
//! before they touch the disk.
use vstd::prelude::*;
use get_port::Ops;
use std::time::Duration;
use crate::extensions::{
    is_audio_extension, is_audio_extension_exec, is_video_extension, is_video_extension_exec,
    lemma_video_extensions_are_the_table, video_x,
};
use crate::path::{
    components, components_of, extension, extension_of, file_name, file_name_of, join, join_of,
    strip_prefix, strip_prefix_of, with_extension, with_extension_of,
};
use crate::text::{chars_eq, chars_of, contains_chars, occurs_in, string_from_chars};
use crate::unit::{Unit, UnitKind};

verus! {

/// What can stop a request of the file server.
#[derive(Clone, Copy, Debug, PartialEq, Eq, Structural)]
pub enum ServerError {
    NonePort,
    NonePathFilename,
}

/// A failure of the media conversion, with the file it concerned.
#[derive(Clone, Debug)]
pub enum AppError {
    FfmpagSpawn(String),
    FfmpagWait(String),
    FfmpagJoin,
    OtherError,
}

/// A result of the duration of `secs` seconds (`Duration::from_secs`).
pub uninterp spec fn duration_of_secs(secs: u64) -> Duration;

/// `Duration::from_secs`: the duration of `secs` whole seconds. It depends on
/// `secs` alone, which the contract says by naming it `duration_of_secs`.
#[verifier::external_body]
fn duration_from_secs(secs: u64) -> (d: Duration)
    ensures
        d == duration_of_secs(secs),
{
    Duration::from_secs(secs)
}

/// `get_port::tcp::TcpPort::any`: the first port from 1024 to 65535 on which a TCP
/// listener could be bound on `host` when it is called, or `None` when there is
/// none. Which port that is depends on the machine; the contract says only that a
/// port found is at least 1024. The call panics when `host` is not an IPv4
/// address, so the contract admits only `"0.0.0.0"`.
#[verifier::external_body]
fn any_free_port(host: &str) -> (r: Option<u16>)
    requires
        host@ == "0.0.0.0"@,
    ensures
        r matches Some(p) ==> 1024 <= p,
{
    get_port::tcp::TcpPort::any(host)
}

/// The file server of the folder `target`: the port it listens on, if it has one,
/// and how long a request may take.
pub struct Server {
    pub target: String,
    pub port: Option<u16>,
    pub timeout: Duration,
}

/// An hour, in seconds: how long a request may take unless told otherwise.
pub const DEFAULT_TIMEOUT_SECS: u64 = 3600;

impl Server {
    /// The server of `target` on a free port (the first one found from 1024 up on
    /// all interfaces, if any), with requests limited to an hour.
    pub fn new(target: String) -> (r: Server)
        ensures
            r.target@ == target@,
            r.port matches Some(p) ==> 1024 <= p,
            r.timeout == duration_of_secs(DEFAULT_TIMEOUT_SECS),
    {
        let port = any_free_port("0.0.0.0");
        Server::with_found_port(target, port)
    }

    /// The server of `target` on the port `port` that a search found (or none),
    /// with requests limited to an hour.
    pub fn with_found_port(target: String, port: Option<u16>) -> (r: Server)
        ensures
            r.target@ == target@,
            r.port == port,
            r.timeout == duration_of_secs(DEFAULT_TIMEOUT_SECS),
    {
        Server { target, port, timeout: duration_from_secs(DEFAULT_TIMEOUT_SECS) }
    }

    /// The same server, on the port `port`.
    pub fn port(self, port: u16) -> (r: Server)
        ensures
            r.target == self.target,
            r.port == Some(port),
            r.timeout == self.timeout,
    {
        Server { port: Some(port), ..self }
    }

    /// The same server, with requests limited to `timeout`.
    pub fn timeout(self, timeout: Duration) -> (r: Server)
        ensures
            r.target == self.target,
            r.port == self.port,
            r.timeout == timeout,
    {
        Server { timeout, ..self }
    }

    /// The port to listen on; serving is refused without one.
    pub fn listen_port(&self) -> (r: Result<u16, ServerError>)
        ensures
            match self.port {
                Some(p) => r == Ok::<u16, ServerError>(p),
                None => r == Err::<u16, ServerError>(ServerError::NonePort),
            },
    {
        match self.port {
            Some(p) => Ok(p),
            None => Err(ServerError::NonePort),
        }
    }
}

/// The name of the file or folder at `base` (`Path::file_name`); a path without
/// one is refused.
pub fn path_file_name(base: &str) -> (r: Result<String, ServerError>)
    ensures
        match file_name(base@) {
            Some(n) => r matches Ok(s) && s@ == n,
            None => r == Err::<String, ServerError>(ServerError::NonePathFilename),
        },
{
    let p = chars_of(base);
    match file_name_of(p.as_slice()) {
        Some(n) => Ok(string_from_chars(n.as_slice())),
        None => Err(ServerError::NonePathFilename),
    }
}

/// `base` joined with `p`, as text: where the served folder `base` keeps the
/// entry that a request names `p` (`Path::join`).
pub fn joined(base: &str, p: &str) -> (r: String)
    ensures
        r@ == join(base@, p@),
{
    let b = chars_of(base);
    let q = chars_of(p);
    let j = join_of(b.as_slice(), q.as_slice());
    string_from_chars(j.as_slice())
}

/// Where copying or moving `x` (relative to the served folder `target_dir`) into
/// the folder `to` takes it from, and puts it: under `to`, with its own name.
pub open spec fn transfer_of(target_dir: Seq<char>, x: Seq<char>, to: Seq<char>) -> (Seq<char>, Seq<char>) {
    let from = join(target_dir, x);
    (from, join(join(target_dir, to), file_name(from).unwrap()))
}

/// Every entry of `targets` has a name once joined to `target_dir`.
pub open spec fn all_have_names(target_dir: Seq<char>, targets: Seq<String>) -> bool {
    forall|i: int| 0 <= i < targets.len() ==> (#[trigger] file_name(join(target_dir, targets[i]@))) is Some
}

/// The copies (or moves) that a request to paste `targets` into `to` makes, in
/// order, each as the paths it goes from and to; refused when one of the targets
/// has no name.
pub fn transfer_plan(target_dir: &str, targets: &Vec<String>, to: &str) -> (r: Result<
    Vec<(String, String)>,
    ServerError,
>)
    ensures
        match r {
            Ok(pairs) => all_have_names(target_dir@, targets@) && pairs@.len() == targets@.len()
                && forall|i: int|
                0 <= i < pairs@.len() ==> ((#[trigger] pairs@[i]).0@, pairs@[i].1@) == transfer_of(
                    target_dir@,
                    targets@[i]@,
                    to@,
                ),
            Err(e) => !all_have_names(target_dir@, targets@) && e == ServerError::NonePathFilename,
        },
{
    let dest = joined(target_dir, to);
    let mut pairs: Vec<(String, String)> = Vec::new();
    let mut i: usize = 0;
    while i < targets.len()
        invariant
            i <= targets@.len(),
            dest@ == join(target_dir@, to@),
            pairs@.len() == i,
            forall|j: int| 0 <= j < i ==> (#[trigger] file_name(join(target_dir@, targets@[j]@))) is Some,
            forall|j: int|
                0 <= j < i ==> ((#[trigger] pairs@[j]).0@, pairs@[j].1@) == transfer_of(
                    target_dir@,
                    targets@[j]@,
                    to@,
                ),
        decreases targets@.len() - i,
    {
        let from = joined(target_dir, targets[i].as_str());
        match path_file_name(from.as_str()) {
            Ok(name) => {
                let into = joined(dest.as_str(), name.as_str());
                pairs.push((from, into));
            },
            Err(e) => {
                assert(file_name(join(target_dir@, targets@[i as int]@)) is None);
                return Err(e);
            },
        }
        i = i + 1;
    }
    Ok(pairs)
}

/// The removals that a request to remove `bases` makes, in order: each path under
/// `target_dir`, and whether it is a folder (removed with all it holds) or a file.
pub fn removal_plan(target_dir: &str, bases: &Vec<Unit>) -> (r: Vec<(String, bool)>)
    ensures
        r@.len() == bases@.len(),
        forall|i: int|
            0 <= i < r@.len() ==> (#[trigger] r@[i]).0@ == join(target_dir@, bases@[i].path@) && r@[i].1
                == (bases@[i].kind == UnitKind::Dirctory),
{
    let mut r: Vec<(String, bool)> = Vec::new();
    let mut i: usize = 0;
    while i < bases.len()
        invariant
            i <= bases@.len(),
            r@.len() == i,
            forall|j: int|
                0 <= j < i ==> (#[trigger] r@[j]).0@ == join(target_dir@, bases@[j].path@) && r@[j].1
                    == (bases@[j].kind == UnitKind::Dirctory),
        decreases bases@.len() - i,
    {
        let p = joined(target_dir, bases[i].path.as_str());
        r.push((p, bases[i].kind == UnitKind::Dirctory));
        i = i + 1;
    }
    r
}

/// The entry at `entry_path`, found in a listing of the served folder
/// `target_dir`: its path relative to that folder, a folder or a file; nothing
/// when it is not under that folder.
pub fn listed_entry(target_dir: &str, entry_path: &str, is_dir: bool) -> (r: Option<Unit>)
    ensures
        match strip_prefix(entry_path@, target_dir@) {
            Some(rel) => r matches Some(u) && u.path@ == rel && u.kind == (if is_dir {
                UnitKind::Dirctory
            } else {
                UnitKind::File
            }),
            None => r is None,
        },
{
    let p = chars_of(entry_path);
    let b = chars_of(target_dir);
    match strip_prefix_of(p.as_slice(), b.as_slice()) {
        Some(rel) => {
            let kind = if is_dir { UnitKind::Dirctory } else { UnitKind::File };
            Some(Unit { path: string_from_chars(rel.as_slice()), kind })
        },
        None => None,
    }
}

/// The kind a listing gives an entry at `p`: a folder, or a file that the
/// extension of `p` makes a video or audio file.
pub open spec fn entry_kind(p: Seq<char>, is_dir: bool) -> UnitKind {
    if is_dir {
        UnitKind::Dirctory
    } else {
        match extension(p) {
            Some(e) => if is_video_extension(e) {
                UnitKind::Video
            } else if is_audio_extension(e) {
                UnitKind::Audio
            } else {
                UnitKind::File
            },
            None => UnitKind::File,
        }
    }
}

/// The kind a listing gives the entry at `p`.
pub fn entry_kind_of(p: &str, is_dir: bool) -> (k: UnitKind)
    ensures
        k == entry_kind(p@, is_dir),
{
    if is_dir {
        return UnitKind::Dirctory;
    }
    let cs = chars_of(p);
    match extension_of(cs.as_slice()) {
        Some(e) => {
            if is_video_extension_exec(e.as_slice()) {
                UnitKind::Video
            } else if is_audio_extension_exec(e.as_slice()) {
                UnitKind::Audio
            } else {
                UnitKind::File
            }
        },
        None => UnitKind::File,
    }
}

/// An uploaded file at `p` is converted to mp4 afterwards: its extension is a
/// video one other than `mp4`.
pub open spec fn needs_remux(p: Seq<char>) -> bool {
    match extension(p) {
        Some(e) => is_video_extension(e) && e != seq!['m', 'p', '4'],
        None => false,
    }
}

/// Whether an uploaded file at `p` is converted to mp4 afterwards.
pub fn needs_remux_exec(p: &str) -> (r: bool)
    ensures
        r == needs_remux(p@),
{
    let cs = chars_of(p);
    match extension_of(cs.as_slice()) {
        Some(e) => {
            let mp4 = vec!['m', 'p', '4'];
            assert(mp4@ =~= seq!['m', 'p', '4']);
            is_video_extension_exec(e.as_slice()) && !chars_eq(e.as_slice(), mp4.as_slice())
        },
        None => false,
    }
}

/// Where converting the file at `from` to mp4 writes: the same path with the
/// extension `mp4`.
pub fn mp4_target(from: &str) -> (r: String)
    ensures
        r@ == with_extension(from@, seq!['m', 'p', '4']),
{
    let f = chars_of(from);
    let mp4 = vec!['m', 'p', '4'];
    assert(mp4@ =~= seq!['m', 'p', '4']);
    let t = with_extension_of(f.as_slice(), mp4.as_slice());
    string_from_chars(t.as_slice())
}

/// A disk as the information page shows it: its space, and the name of its mount
/// point.
#[derive(Clone, Debug)]
pub struct Disk {
    pub total_space: u64,
    pub available_space: u64,
    pub name: String,
}

/// The disk mounted at `mount_point`, as the information page shows it: the name
/// of its mount point, or `root` for one without a name; nothing for the disk
/// mounted at `/boot`.
pub fn disk_entry(mount_point: &str, total_space: u64, available_space: u64) -> (r: Option<Disk>)
    ensures
        components(mount_point@) == components(seq!['/', 'b', 'o', 'o', 't']) ==> r is None,
        components(mount_point@) != components(seq!['/', 'b', 'o', 'o', 't']) ==> (r matches Some(d)
            && d.total_space == total_space && d.available_space == available_space && d.name@
            == match file_name(mount_point@) {
            Some(n) => n,
            None => seq!['r', 'o', 'o', 't'],
        }),
{
    let m = chars_of(mount_point);
    let boot = vec!['/', 'b', 'o', 'o', 't'];
    assert(boot@ =~= seq!['/', 'b', 'o', 'o', 't']);
    let cm = components_of(m.as_slice());
    let cb = components_of(boot.as_slice());
    let mut same = cm.len() == cb.len();
    let mut i: usize = 0;
    while same && i < cm.len()
        invariant
            cm@.len() == cb@.len() || !same,
            i <= cm@.len(),
            same ==> forall|j: int| 0 <= j < i ==> cm@[j]@ == cb@[j]@,
            !same ==> crate::path::seq_views(cm@) != crate::path::seq_views(cb@),
        decreases cm@.len() - i,
    {
        if !chars_eq(cm[i].as_slice(), cb[i].as_slice()) {
            same = false;
            assert(crate::path::seq_views(cm@)[i as int] != crate::path::seq_views(cb@)[i as int]);
        }
        i = i + 1;
    }
    if same {
        assert(crate::path::seq_views(cm@) =~= crate::path::seq_views(cb@));
        return None;
    }
    let name = match file_name_of(m.as_slice()) {
        Some(n) => string_from_chars(n.as_slice()),
        None => {
            let r = vec!['r', 'o', 'o', 't'];
            assert(r@ =~= seq!['r', 'o', 'o', 't']);
            string_from_chars(r.as_slice())
        },
    };
    Some(Disk { total_space, available_space, name })
}

/// What `str::to_lowercase` gives for the text `s`.
pub uninterp spec fn lowercase(s: Seq<char>) -> Seq<char>;

/// `str::to_lowercase`: the text with each character replaced by its lowercase
/// form, by Unicode's rules. Those rules are not written out here: the contract
/// names the result `lowercase`, a function of the text alone.
#[verifier::external_body]
fn to_lowercase(s: &str) -> (r: String)
    ensures
        r@ == lowercase(s@),
{
    s.to_lowercase()
}

/// Whether the browser that sent `user_agent` runs on the system named `os` (as
/// Rust names systems: `linux`, `windows`, ...): the name occurs in the
/// lowercased user agent.
pub fn is_same_os(user_agent: &str, os: &str) -> (r: bool)
    ensures
        r == occurs_in(os@, lowercase(user_agent@)),
{
    let low = to_lowercase(user_agent);
    let hay = chars_of(low.as_str());
    let needle = chars_of(os);
    contains_chars(hay.as_slice(), needle.as_slice())
}

/// The entry at `entry_path` as the web page lists it: its full path, and its kind
/// (a folder, or a file typed by its extension).
pub fn local_entry(entry_path: String, is_dir: bool) -> (r: Unit)
    ensures
        r.path@ == entry_path@,
        r.kind == entry_kind(entry_path@, is_dir),
{
    let kind = entry_kind_of(entry_path.as_str(), is_dir);
    Unit { path: entry_path, kind }
}

/// The server and the client type an entry alike: the kind the server gives the
/// entry at `p` is the kind the client's retyping gives it when it arrives as a
/// plain file or folder.
pub proof fn lemma_server_kind_is_client_kind(p: String, is_dir: bool)
    ensures
        entry_kind(p@, is_dir) == crate::unit::retyped_kind(
            Unit { path: p, kind: if is_dir { UnitKind::Dirctory } else { UnitKind::File } },
        ),
{
}

/// The server that answers listing and download calls for the folder
/// `target_dir` on the port `port`.
pub struct RpcServer {
    pub target_dir: String,
    pub port: u16,
}

impl RpcServer {
    /// The server of `target_dir` on `port`.
    pub fn new(target_dir: String, port: u16) -> (r: RpcServer)
        ensures
            r.target_dir@ == target_dir@,
            r.port == port,
    {
        RpcServer { target_dir, port }
    }

    /// Where a path asked for (relative to the served folder) is on this machine.
    pub fn resolve(&self, path: &str) -> (r: String)
        ensures
            r@ == join(self.target_dir@, path@),
    {
        joined(self.target_dir.as_str(), path)
    }

    /// The entry at `entry_path` in a listing: its path relative to the served
    /// folder and its kind (a folder, or a file typed by its extension); nothing
    /// when it is not under the served folder, which the listing skips.
    pub fn entry_unit(&self, entry_path: &str, is_dir: bool) -> (r: Option<Unit>)
        ensures
            match strip_prefix(entry_path@, self.target_dir@) {
                Some(rel) => r matches Some(u) && u.path@ == rel && u.kind == entry_kind(
                    entry_path@,
                    is_dir,
                ),
                None => r is None,
            },
    {
        let kind = entry_kind_of(entry_path, is_dir);
        let p = chars_of(entry_path);
        let b = chars_of(self.target_dir.as_str());
        match strip_prefix_of(p.as_slice(), b.as_slice()) {
            Some(rel) => Some(Unit { path: string_from_chars(rel.as_slice()), kind }),
            None => None,
        }
    }
}

/// An uploaded file is converted to mp4 exactly when the video table holds its
/// extension and that extension is not `mp4`: an mp4 file is kept as it is.
pub proof fn lemma_remux_by_table(p: Seq<char>)
    ensures
        needs_remux(p) <==> (extension(p) matches Some(e) && video_x().contains(e) && e != seq!['m', 'p', '4']),
{
    if let Some(e) = extension(p) {
        lemma_video_extensions_are_the_table(e);
    }
}

} // verus!
