//! Downloading selected entries to this machine: naming each download, the sizes
//! shown to the user, and the bookkeeping of downloads in flight.
use vstd::prelude::*;
use std::collections::hash_map::DefaultHasher;
use std::collections::HashMap;
use std::hash::Hasher;
use vstd::std_specs::hash::DefaultHasherAdditionalSpecFns;
use crate::path::{file_name, file_name_of, join, join_of};
use crate::select::Selected;
use crate::text::{chars_of, decimal, push_decimal, string_from_chars};
use crate::unit::{has_name, name_of, Unit, UnitKind};

verus! {

/// What `Path`'s `Hash` impl writes into a hasher for the path written `p`.
pub uninterp spec fn path_hash_writes(p: Seq<char>) -> Seq<Seq<u8>>;

/// Feeds the path `p` to `state` through `Path`'s `Hash` impl
/// (`<Path as Hash>::hash`), which writes the bytes of the path's components and
/// then their count as a `usize`. For the target the library is built for, those
/// writes depend on the path alone: they are named `path_hash_writes`, and the
/// contract says that they are appended to what the hasher held. Which bytes they
/// are is not stated.
#[verifier::external_body]
fn feed_path(p: &str, state: &mut DefaultHasher)
    ensures
        final(state)@ == old(state)@ + path_hash_writes(p@),
{
    std::hash::Hash::hash(std::path::Path::new(p), state);
}

/// The identifier of a download: the default hash of its path on this machine.
pub open spec fn path_id(p: Seq<char>) -> u64 {
    DefaultHasher::spec_finish(path_hash_writes(p))
}

/// The identifier of the download to the path `p`: `p` hashed by a fresh
/// `DefaultHasher`.
pub fn hash_path(p: &str) -> (r: u64)
    ensures
        r == path_id(p@),
{
    let mut hasher = DefaultHasher::new();
    feed_path(p, &mut hasher);
    assert(hasher@ =~= path_hash_writes(p@));
    hasher.finish()
}

/// 1024 bytes.
pub const KB: u64 = 1024;

/// `KB` kilobytes.
pub const MB: u64 = 1048576;

/// `MB` megabytes (that is `MB * MB` bytes: 2 to the 40th).
pub const GB: u64 = 1099511627776;

/// The text shown for a size of `x` bytes: bytes below a kilobyte, kilobytes below
/// a megabyte, megabytes below `GB`, whole `GB` units above; each rounded down.
pub open spec fn size_text(x: u64) -> Seq<char> {
    if x < KB {
        decimal(x as nat) + seq![' ', 'B']
    } else if x < MB {
        decimal((x / KB) as nat) + seq![' ', 'K', 'B']
    } else if x < GB {
        decimal((x / MB) as nat) + seq![' ', 'M', 'B']
    } else {
        decimal((x / GB) as nat) + seq![' ', 'G', 'B']
    }
}

/// The size `x`, in bytes, as the download list shows it.
pub fn proper_size(x: u64) -> (r: String)
    ensures
        r@ == size_text(x),
{
    let mut cs: Vec<char> = Vec::new();
    if x < KB {
        push_decimal(&mut cs, x);
        cs.push(' ');
        cs.push('B');
    } else if x < MB {
        push_decimal(&mut cs, x / KB);
        cs.push(' ');
        cs.push('K');
        cs.push('B');
    } else if x < GB {
        push_decimal(&mut cs, x / MB);
        cs.push(' ');
        cs.push('M');
        cs.push('B');
    } else {
        push_decimal(&mut cs, x / GB);
        cs.push(' ');
        cs.push('G');
        cs.push('B');
    }
    assert(cs@ =~= size_text(x));
    string_from_chars(cs.as_slice())
}

/// How far a download has come.
#[derive(Clone, Copy, Debug, PartialEq, Eq, Structural)]
pub enum ProgressState {
    Waiting,
    Started { total: u64 },
    Marshing { downloaded: usize },
    Finished,
}

impl Default for ProgressState {
    fn default() -> (r: ProgressState)
        ensures
            r == ProgressState::Waiting,
    {
        ProgressState::Waiting
    }
}

/// A report on the download `id`.
#[derive(Clone, Copy, Debug, PartialEq, Eq, Structural)]
pub struct Progress {
    pub id: u64,
    pub progress_state: ProgressState,
}

/// One file to fetch: where it is on the server, where it goes here, and the
/// identifier of its download.
#[derive(Clone, Debug)]
pub struct Download {
    pub id: u64,
    pub server_path: String,
    pub host_path: String,
}

/// A download in flight: the handle that cancels it, its size once known, where it
/// goes and how far it has come.
pub struct Downloading<H> {
    pub handle: H,
    pub size: u64,
    pub host_path: String,
    pub progress_state: ProgressState,
}

/// A download that failed, and why.
pub struct FailedDownload<H, E> {
    pub download: Downloading<H>,
    pub error: E,
}

/// What the download window is doing: preparing folders for the selected entries,
/// downloading (with the handle that cancels all), or nothing.
pub enum DownloadingState<H> {
    MakeDirectories { units: Vec<Unit> },
    Downloading { main_handle: H },
    Done,
}

/// The downloads of a session: where they go, those in flight by identifier, the
/// paths of those that finished, and those that failed by identifier.
pub struct Downloads<H, E> {
    pub state: DownloadingState<H>,
    pub download_dir: String,
    pub downloading: HashMap<u64, Downloading<H>>,
    pub finished: Vec<String>,
    pub failed: HashMap<u64, FailedDownload<H, E>>,
}

/// The download to the path `host_path`, not started yet, cancelled by `handle`.
pub open spec fn waiting_download<H>(handle: H, host_path: String) -> Downloading<H> {
    Downloading { handle, size: 0, host_path, progress_state: ProgressState::Waiting }
}

/// The downloads in flight once `ds` are started with the handles `hs`, in order:
/// each under the identifier of its path, a later one replacing an earlier one with
/// the same identifier.
pub open spec fn started<H>(ds: Seq<Download>, hs: Seq<H>) -> Map<u64, Downloading<H>>
    decreases ds.len(),
{
    if ds.len() == 0 || hs.len() == 0 {
        Map::empty()
    } else {
        started(ds.drop_last(), hs.drop_last()).insert(
            path_id(ds.last().host_path@),
            waiting_download(hs.last(), ds.last().host_path),
        )
    }
}

/// Every download in flight sits under the identifier of its own path.
pub open spec fn keyed_by_path<H>(m: Map<u64, Downloading<H>>) -> bool {
    forall|k: u64| #[trigger] m.contains_key(k) ==> k == path_id(m[k].host_path@)
}

/// The downloads in flight once `ds` are started are exactly those under the
/// identifiers of the paths of `ds`, each under the identifier of its own path,
/// not started (size 0, waiting) and going to the path of one of `ds`.
#[verifier::spinoff_prover]
pub proof fn lemma_started_keys<H>(ds: Seq<Download>, hs: Seq<H>)
    requires
        ds.len() == hs.len(),
    ensures
        keyed_by_path(started(ds, hs)),
        forall|k: u64|
            #[trigger] started(ds, hs).contains_key(k) <==> exists|i: int|
                0 <= i < ds.len() && k == path_id(#[trigger] ds[i].host_path@),
        forall|k: u64|
            #[trigger] started(ds, hs).contains_key(k) ==> started(ds, hs)[k].size == 0
                && started(ds, hs)[k].progress_state == ProgressState::Waiting,
    decreases ds.len(),
{
    if ds.len() > 0 {
        let d0 = ds.drop_last();
        lemma_started_keys(d0, hs.drop_last());
        let m = started(ds, hs);
        let kl = path_id(ds.last().host_path@);
        assert forall|k: u64| #[trigger] m.contains_key(k) <==> exists|i: int|
            0 <= i < ds.len() && k == path_id(#[trigger] ds[i].host_path@) by {
            if m.contains_key(k) && k != kl {
                let i = choose|i: int| 0 <= i < d0.len() && k == path_id(#[trigger] d0[i].host_path@);
                assert(ds[i] == d0[i]);
            }
            if exists|i: int| 0 <= i < ds.len() && k == path_id(#[trigger] ds[i].host_path@) {
                let i = choose|i: int| 0 <= i < ds.len() && k == path_id(#[trigger] ds[i].host_path@);
                if i < ds.len() - 1 {
                    assert(d0[i] == ds[i]);
                } else {
                    assert(ds[i] == ds.last());
                }
            }
        }
    }
}

/// `d` after the report `p`: a start sets its size to the announced total; every
/// report becomes its progress.
pub open spec fn progressed<H>(d: Downloading<H>, p: ProgressState) -> Downloading<H> {
    Downloading {
        handle: d.handle,
        size: match p {
            ProgressState::Started { total } => total,
            _ => d.size,
        },
        host_path: d.host_path,
        progress_state: p,
    }
}

/// A copy of the entries `xs`.
fn copy_units(xs: &Vec<Unit>) -> (r: Vec<Unit>)
    ensures
        r@ == xs@,
{
    let mut r: Vec<Unit> = Vec::new();
    let mut i: usize = 0;
    while i < xs.len()
        invariant
            i <= xs@.len(),
            r@ == xs@.take(i as int),
        decreases xs@.len() - i,
    {
        r.push(xs[i].duplicate());
        i = i + 1;
        assert(r@ =~= xs@.take(i as int));
    }
    assert(xs@.take(i as int) =~= xs@);
    r
}

impl<H, E> Downloads<H, E> {
    /// No downloads yet; files will go under `download_dir`.
    pub fn new(download_dir: String) -> (r: Self)
        ensures
            r.state is Done,
            r.download_dir@ == download_dir@,
            r.downloading@ == Map::<u64, Downloading<H>>::empty(),
            r.finished@ == Seq::<String>::empty(),
            r.failed@ == Map::<u64, FailedDownload<H, E>>::empty(),
            keyed_by_path(r.downloading@),
    {
        Downloads {
            state: DownloadingState::Done,
            download_dir,
            downloading: HashMap::new(),
            finished: Vec::new(),
            failed: HashMap::new(),
        }
    }

    /// Forgets every download; files still go under the same folder.
    pub fn clear(&mut self)
        ensures
            final(self).state is Done,
            final(self).download_dir@ == old(self).download_dir@,
            final(self).downloading@ == Map::<u64, Downloading<H>>::empty(),
            final(self).finished@ == Seq::<String>::empty(),
            final(self).failed@ == Map::<u64, FailedDownload<H, E>>::empty(),
            keyed_by_path(final(self).downloading@),
    {
        let mut dir = String::new();
        std::mem::swap(&mut dir, &mut self.download_dir);
        *self = Downloads::new(dir);
    }

    /// The download window opened: the selected entries are taken out of the
    /// selection (which is cleared) to have their folders prepared; they are
    /// returned for that.
    pub fn open_window(&mut self, select: &mut Selected) -> (units: Vec<Unit>)
        ensures
            units@ == old(select).units@,
            final(select).units@ == Seq::<Unit>::empty(),
            final(select).state == crate::select::SelectedState::Idle,
            !final(select).on,
            final(self).state matches DownloadingState::MakeDirectories { units: u } && u@
                == old(select).units@,
            final(self).download_dir == old(self).download_dir,
            final(self).downloading@ == old(self).downloading@,
            final(self).finished@ == old(self).finished@,
            final(self).failed@ == old(self).failed@,
            keyed_by_path(old(self).downloading@) ==> keyed_by_path(final(self).downloading@),
    {
        let units = copy_units(&select.units);
        select.clear();
        let kept = copy_units(&units);
        self.state = DownloadingState::MakeDirectories { units: kept };
        units
    }

    /// The prepared downloads `downloads` start, each with its handle in `handles`
    /// and all under `main_handle`: they become the downloads in flight, each
    /// waiting under the identifier of its path.
    pub fn start_downloading(&mut self, downloads: Vec<Download>, handles: Vec<H>, main_handle: H)
        requires
            downloads@.len() == handles@.len(),
        ensures
            final(self).downloading@ == started(downloads@, handles@),
            final(self).state == (DownloadingState::Downloading { main_handle }),
            final(self).download_dir == old(self).download_dir,
            final(self).finished@ == old(self).finished@,
            final(self).failed@ == old(self).failed@,
            keyed_by_path(final(self).downloading@),
    {
        broadcast use vstd::std_specs::hash::group_hash_axioms;
        let ghost ds0 = downloads@;
        let ghost hs0 = handles@;
        let mut downloads = downloads;
        let mut handles = handles;
        let mut map: HashMap<u64, Downloading<H>> = HashMap::new();
        let n = downloads.len();
        let mut i: usize = 0;
        while i < n
            invariant
                ds0.len() == n,
                hs0.len() == n,
                i <= n,
                downloads@ == ds0.skip(i as int),
                handles@ == hs0.skip(i as int),
                map@ == started(ds0.take(i as int), hs0.take(i as int)),
            decreases n - i,
        {
            let d = downloads.remove(0);
            let h = handles.remove(0);
            let id = hash_path(d.host_path.as_str());
            map.insert(id, Downloading { handle: h, size: 0, host_path: d.host_path, progress_state: ProgressState::Waiting });
            proof {
                assert(ds0.take(i + 1).drop_last() =~= ds0.take(i as int));
                assert(hs0.take(i + 1).drop_last() =~= hs0.take(i as int));
                assert(ds0.skip(i as int).remove(0) =~= ds0.skip(i + 1));
                assert(hs0.skip(i as int).remove(0) =~= hs0.skip(i + 1));
            }
            i = i + 1;
        }
        proof {
            assert(ds0.take(n as int) =~= ds0);
            assert(hs0.take(n as int) =~= hs0);
        }
        self.downloading = map;
        self.state = DownloadingState::Downloading { main_handle };
        proof {
            lemma_started_keys(ds0, hs0);
        }
    }

    /// The download `id` finished: it leaves those in flight and its path joins the
    /// finished ones. An identifier not in flight changes nothing.
    pub fn download_done(&mut self, id: u64)
        ensures
            final(self).downloading@ == old(self).downloading@.remove(id),
            final(self).finished@ == if old(self).downloading@.contains_key(id) {
                old(self).finished@.push(old(self).downloading@[id].host_path)
            } else {
                old(self).finished@
            },
            final(self).failed@ == old(self).failed@,
            final(self).state == old(self).state,
            final(self).download_dir == old(self).download_dir,
            keyed_by_path(old(self).downloading@) ==> keyed_by_path(final(self).downloading@),
    {
        broadcast use vstd::std_specs::hash::group_hash_axioms;
        match self.downloading.remove(&id) {
            Some(x) => {
                self.finished.push(x.host_path);
            },
            None => {
                assert(old(self).downloading@.remove(id) =~= old(self).downloading@);
            },
        }
    }

    /// The download `id` failed with `error`: it leaves those in flight and joins
    /// the failed ones with its error. An identifier not in flight changes nothing.
    pub fn download_failed(&mut self, error: E, id: u64)
        ensures
            final(self).downloading@ == old(self).downloading@.remove(id),
            final(self).failed@ == if old(self).downloading@.contains_key(id) {
                old(self).failed@.insert(
                    id,
                    FailedDownload { download: old(self).downloading@[id], error },
                )
            } else {
                old(self).failed@
            },
            final(self).finished@ == old(self).finished@,
            final(self).state == old(self).state,
            final(self).download_dir == old(self).download_dir,
            keyed_by_path(old(self).downloading@) ==> keyed_by_path(final(self).downloading@),
    {
        broadcast use vstd::std_specs::hash::group_hash_axioms;
        match self.downloading.remove(&id) {
            Some(download) => {
                self.failed.insert(id, FailedDownload { download, error });
            },
            None => {
                assert(old(self).downloading@.remove(id) =~= old(self).downloading@);
            },
        }
    }

    /// A report on a download: a download in flight under its identifier takes it
    /// (see `progressed`); a report on any other identifier changes nothing.
    pub fn progressing(&mut self, progress: Progress)
        ensures
            final(self).downloading@ == if old(self).downloading@.contains_key(progress.id) {
                old(self).downloading@.insert(
                    progress.id,
                    progressed(old(self).downloading@[progress.id], progress.progress_state),
                )
            } else {
                old(self).downloading@
            },
            final(self).finished@ == old(self).finished@,
            final(self).failed@ == old(self).failed@,
            final(self).state == old(self).state,
            final(self).download_dir == old(self).download_dir,
            keyed_by_path(old(self).downloading@) ==> keyed_by_path(final(self).downloading@),
    {
        broadcast use vstd::std_specs::hash::group_hash_axioms;
        match self.downloading.remove(&progress.id) {
            Some(x) => {
                let size = match progress.progress_state {
                    ProgressState::Started { total } => total,
                    _ => x.size,
                };
                let y = Downloading {
                    handle: x.handle,
                    size,
                    host_path: x.host_path,
                    progress_state: progress.progress_state,
                };
                self.downloading.insert(progress.id, y);
                assert(self.downloading@ =~= old(self).downloading@.insert(
                    progress.id,
                    progressed(old(self).downloading@[progress.id], progress.progress_state),
                ));
            },
            None => {
                assert(old(self).downloading@.remove(progress.id) =~= old(self).downloading@);
            },
        }
    }

    /// The handle that cancels every download, while downloading.
    pub fn main_handle(&self) -> (r: Option<&H>)
        ensures
            r == match self.state {
                DownloadingState::Downloading { main_handle } => Some(&main_handle),
                _ => None,
            },
    {
        match &self.state {
            DownloadingState::Downloading { main_handle } => Some(main_handle),
            _ => None,
        }
    }
}

/// Below 1024 megabytes, a size is shown with a number under 1024 of its unit.
pub proof fn lemma_size_number_below_1024(x: u64)
    ensures
        x < 1024 * MB ==> (if x < KB {
            x < 1024
        } else if x < MB {
            x / KB < 1024
        } else {
            x / MB < 1024
        }),
{
    assert(x < MB ==> x / KB < 1024) by (nonlinear_arith)
        requires
            KB == 1024,
            MB == 1048576,
    ;
    assert(x < 1024 * MB ==> x / MB < 1024) by (nonlinear_arith)
        requires
            MB == 1048576,
    ;
}

/// The windows of the client, by identifier (the main window and the download
/// window, when open), and the downloads that the download window shows.
pub struct Windows<H, E> {
    pub main: Option<u64>,
    pub download: Option<u64>,
    pub downloads: Downloads<H, E>,
}

impl<H, E> Windows<H, E> {
    /// The main window `id` opened.
    pub fn main_window_opened(&mut self, id: u64)
        ensures
            final(self).main == Some(id),
            final(self).download == old(self).download,
            final(self).downloads == old(self).downloads,
    {
        self.main = Some(id);
    }

    /// The download window `id` opened: it is recorded, and the selected entries
    /// are taken out of the selection (which is cleared) to have their folders
    /// prepared (see `Downloads::open_window`); they are returned for that.
    pub fn download_window_opened(&mut self, id: u64, select: &mut Selected) -> (units: Vec<Unit>)
        ensures
            final(self).download == Some(id),
            final(self).main == old(self).main,
            units@ == old(select).units@,
            final(select).units@ == Seq::<Unit>::empty(),
            final(select).state == crate::select::SelectedState::Idle,
            !final(select).on,
            final(self).downloads.state matches DownloadingState::MakeDirectories { units: u } && u@
                == old(select).units@,
            final(self).downloads.download_dir == old(self).downloads.download_dir,
            final(self).downloads.downloading@ == old(self).downloads.downloading@,
            final(self).downloads.finished@ == old(self).downloads.finished@,
            final(self).downloads.failed@ == old(self).downloads.failed@,
    {
        self.download = Some(id);
        self.downloads.open_window(select)
    }

    /// The download window was closed: it is forgotten, and while downloading the
    /// handle that cancels every download is returned, for stopping them.
    pub fn download_window_closed(&mut self) -> (r: Option<&H>)
        ensures
            final(self).download is None,
            final(self).main == old(self).main,
            final(self).downloads == old(self).downloads,
            r == match old(self).downloads.state {
                DownloadingState::Downloading { main_handle } => Some(&main_handle),
                _ => None,
            },
    {
        self.download = None;
        self.downloads.main_handle()
    }
}


/// The downloads of the pairs `ps`, in order.
pub open spec fn download_parts<H>(ps: Seq<(Download, H)>) -> Seq<Download> {
    ps.map_values(|p: (Download, H)| p.0)
}

/// The handles of the pairs `ps`, in order.
pub open spec fn handle_parts<H>(ps: Seq<(Download, H)>) -> Seq<H> {
    ps.map_values(|p: (Download, H)| p.1)
}

/// The downloads and the handles of the pairs `ps`, each in order.
fn unzip_pairs<H>(ps: Vec<(Download, H)>) -> (r: (Vec<Download>, Vec<H>))
    ensures
        r.0@ == download_parts(ps@),
        r.1@ == handle_parts(ps@),
{
    let ghost all = ps@;
    let mut rest = ps;
    let mut ds: Vec<Download> = Vec::new();
    let mut hs: Vec<H> = Vec::new();
    let n = rest.len();
    let mut k: usize = 0;
    while rest.len() > 0
        invariant
            all.len() == n,
            k <= n,
            rest@ == all.skip(k as int),
            ds@ == download_parts(all.take(k as int)),
            hs@ == handle_parts(all.take(k as int)),
        decreases rest@.len(),
    {
        let (d, h) = rest.remove(0);
        proof {
            assert(all.skip(k as int)[0] == all[k as int]);
            assert(all.skip(k as int).remove(0) =~= all.skip(k + 1));
        }
        ds.push(d);
        hs.push(h);
        k = k + 1;
        assert(ds@ =~= download_parts(all.take(k as int)));
        assert(hs@ =~= handle_parts(all.take(k as int)));
    }
    assert(all.take(k as int) =~= all);
    (ds, hs)
}

/// What the download window and its downloads are told: open the window; it
/// opened as `id`; close the window `id`; it closed; start the prepared downloads,
/// each paired with the handle that cancels it, all under the last handle; a
/// report on a download; a download done; a download failed.
pub enum DownloadMessage<H, E> {
    OpenDownloadWindow,
    DownloadWindowOpened(u64),
    CloseDownloadWindow(u64),
    DownloadWindowClosed,
    StartDownloading(Vec<(Download, H)>, H),
    Progressing(Progress),
    DownloadDone(u64),
    DownloadFailed(E, u64),
}

/// What the application is to do after a message of the download window: open the
/// window, prepare the folders of these entries (and then start their downloads),
/// close the window `id`, stop every download (through the handle that cancels
/// all), or nothing.
pub enum DownloadAction {
    OpenWindow,
    Prepare(Vec<Unit>),
    CloseWindow(u64),
    StopAll,
    Nothing,
}

impl<H, E> DownloadMessage<H, E> {
    /// Handles the message in the windows `w`, with the selection `select` of the
    /// browser. Every download in flight stays under the identifier of its own path,
    /// whatever the message; the downloads started are exactly those prepared, each
    /// under the identifier of its path, not started yet. The main window is never
    /// touched here.
    #[verifier::spinoff_prover]
    pub fn handle(self, w: &mut Windows<H, E>, select: &mut Selected) -> (r: DownloadAction)
        ensures
            keyed_by_path(old(w).downloads.downloading@) ==> keyed_by_path(final(w).downloads.downloading@),
            final(w).main == old(w).main,
            match self {
                DownloadMessage::OpenDownloadWindow => r is OpenWindow && *final(w) == *old(w)
                    && *final(select) == *old(select),
                DownloadMessage::DownloadWindowOpened(id) => {
                    &&& r matches DownloadAction::Prepare(u) && u@ == old(select).units@
                    &&& final(w).download == Some(id)
                    &&& final(select).units@ == Seq::<Unit>::empty()
                    &&& final(select).state == crate::select::SelectedState::Idle
                    &&& !final(select).on
                    &&& final(w).downloads.state matches DownloadingState::MakeDirectories { units: v }
                        && v@ == old(select).units@
                    &&& final(w).downloads.download_dir == old(w).downloads.download_dir
                    &&& final(w).downloads.downloading@ == old(w).downloads.downloading@
                    &&& final(w).downloads.finished@ == old(w).downloads.finished@
                    &&& final(w).downloads.failed@ == old(w).downloads.failed@
                },
                DownloadMessage::CloseDownloadWindow(id) => r == DownloadAction::CloseWindow(id)
                    && *final(w) == *old(w) && *final(select) == *old(select),
                DownloadMessage::DownloadWindowClosed => {
                    &&& final(w).download is None
                    &&& final(w).downloads == old(w).downloads
                    &&& *final(select) == *old(select)
                    &&& r == if old(w).downloads.state is Downloading {
                        DownloadAction::StopAll
                    } else {
                        DownloadAction::Nothing
                    }
                },
                DownloadMessage::StartDownloading(ps, m) => {
                    &&& r is Nothing
                    &&& final(w).download == old(w).download
                    &&& *final(select) == *old(select)
                    &&& final(w).downloads.downloading@ == started(download_parts(ps@), handle_parts(ps@))
                    &&& keyed_by_path(final(w).downloads.downloading@)
                    &&& forall|k: u64| #[trigger] final(w).downloads.downloading@.contains_key(k)
                        <==> exists|i: int| 0 <= i < ps@.len() && k == path_id(#[trigger] ps@[i].0.host_path@)
                    &&& forall|k: u64| #[trigger] final(w).downloads.downloading@.contains_key(k)
                        ==> final(w).downloads.downloading@[k].size == 0
                        && final(w).downloads.downloading@[k].progress_state == ProgressState::Waiting
                    &&& final(w).downloads.state == (DownloadingState::Downloading { main_handle: m })
                    &&& final(w).downloads.download_dir == old(w).downloads.download_dir
                    &&& final(w).downloads.finished@ == old(w).downloads.finished@
                    &&& final(w).downloads.failed@ == old(w).downloads.failed@
                },
                DownloadMessage::Progressing(p) => {
                    &&& r is Nothing
                    &&& final(w).download == old(w).download
                    &&& *final(select) == *old(select)
                    &&& final(w).downloads.downloading@ == if old(w).downloads.downloading@.contains_key(p.id) {
                        old(w).downloads.downloading@.insert(
                            p.id,
                            progressed(old(w).downloads.downloading@[p.id], p.progress_state),
                        )
                    } else {
                        old(w).downloads.downloading@
                    }
                    &&& final(w).downloads.finished@ == old(w).downloads.finished@
                    &&& final(w).downloads.failed@ == old(w).downloads.failed@
                    &&& final(w).downloads.state == old(w).downloads.state
                    &&& final(w).downloads.download_dir == old(w).downloads.download_dir
                },
                DownloadMessage::DownloadDone(id) => {
                    &&& r is Nothing
                    &&& final(w).download == old(w).download
                    &&& *final(select) == *old(select)
                    &&& final(w).downloads.downloading@ == old(w).downloads.downloading@.remove(id)
                    &&& final(w).downloads.finished@ == if old(w).downloads.downloading@.contains_key(id) {
                        old(w).downloads.finished@.push(old(w).downloads.downloading@[id].host_path)
                    } else {
                        old(w).downloads.finished@
                    }
                    &&& final(w).downloads.failed@ == old(w).downloads.failed@
                    &&& final(w).downloads.state == old(w).downloads.state
                    &&& final(w).downloads.download_dir == old(w).downloads.download_dir
                },
                DownloadMessage::DownloadFailed(e, id) => {
                    &&& r is Nothing
                    &&& final(w).download == old(w).download
                    &&& *final(select) == *old(select)
                    &&& final(w).downloads.downloading@ == old(w).downloads.downloading@.remove(id)
                    &&& final(w).downloads.failed@ == if old(w).downloads.downloading@.contains_key(id) {
                        old(w).downloads.failed@.insert(
                            id,
                            FailedDownload { download: old(w).downloads.downloading@[id], error: e },
                        )
                    } else {
                        old(w).downloads.failed@
                    }
                    &&& final(w).downloads.finished@ == old(w).downloads.finished@
                    &&& final(w).downloads.state == old(w).downloads.state
                    &&& final(w).downloads.download_dir == old(w).downloads.download_dir
                },
            },
    {
        match self {
            DownloadMessage::OpenDownloadWindow => DownloadAction::OpenWindow,
            DownloadMessage::DownloadWindowOpened(id) => {
                let units = w.download_window_opened(id, select);
                DownloadAction::Prepare(units)
            },
            DownloadMessage::CloseDownloadWindow(id) => DownloadAction::CloseWindow(id),
            DownloadMessage::DownloadWindowClosed => {
                let downloading = w.downloads.main_handle().is_some();
                w.download = None;
                if downloading {
                    DownloadAction::StopAll
                } else {
                    DownloadAction::Nothing
                }
            },
            DownloadMessage::StartDownloading(ps, m) => {
                let ghost ps0 = ps@;
                let (ds, hs) = unzip_pairs(ps);
                let ghost ds0 = ds@;
                let ghost hs0 = hs@;
                w.downloads.start_downloading(ds, hs, m);
                proof {
                    lemma_started_keys(ds0, hs0);
                    assert forall|i: int| 0 <= i < ps0.len() implies #[trigger] ps0[i].0.host_path@ == ds0[i].host_path@ by {
                        assert(ds0[i] == ps0[i].0);
                    }
                }
                DownloadAction::Nothing
            },
            DownloadMessage::Progressing(p) => {
                w.downloads.progressing(p);
                DownloadAction::Nothing
            },
            DownloadMessage::DownloadDone(id) => {
                w.downloads.download_done(id);
                DownloadAction::Nothing
            },
            DownloadMessage::DownloadFailed(e, id) => {
                w.downloads.download_failed(e, id);
                DownloadAction::Nothing
            },
        }
    }
}

/// A file being received for the download `id`: how many bytes came so far.
pub struct Fetch {
    pub id: u64,
    pub downloaded: usize,
}

impl Fetch {
    /// The server answered the request for the file going to `host_path`, which
    /// holds `total` bytes: the download under the identifier of that path has
    /// started, with nothing received yet; the report says so with the total.
    pub fn started(host_path: &str, total: u64) -> (r: (Fetch, Progress))
        ensures
            r.0.id == path_id(host_path@),
            r.0.downloaded == 0,
            r.1 == (Progress { id: r.0.id, progress_state: ProgressState::Started { total } }),
    {
        let id = hash_path(host_path);
        (Fetch { id, downloaded: 0 }, Progress { id, progress_state: ProgressState::Started { total } })
    }

    /// A piece of `len` bytes came and was written: the count grows by `len`, and
    /// the report gives the bytes received so far.
    pub fn received(&mut self, len: usize) -> (p: Progress)
        requires
            old(self).downloaded + len <= usize::MAX,
        ensures
            final(self).id == old(self).id,
            final(self).downloaded == old(self).downloaded + len,
            p == (Progress {
                id: old(self).id,
                progress_state: ProgressState::Marshing { downloaded: final(self).downloaded },
            }),
    {
        self.downloaded = self.downloaded + len;
        Progress { id: self.id, progress_state: ProgressState::Marshing { downloaded: self.downloaded } }
    }

    /// Every piece came: the report says the download finished.
    pub fn finished(&self) -> (p: Progress)
        ensures
            p == (Progress { id: self.id, progress_state: ProgressState::Finished }),
    {
        Progress { id: self.id, progress_state: ProgressState::Finished }
    }
}

/// The window `id` was closed. Closing the main window ends the application (the
/// result says so) and forgets the main window. Closing the download window
/// forgets it and forgets every download. Any other window changes nothing.
pub fn window_closed<H, E>(w: &mut Windows<H, E>, id: u64) -> (exit: bool)
    ensures
        exit == (old(w).main == Some(id)),
        exit ==> final(w).main is None && final(w).download == old(w).download
            && final(w).downloads == old(w).downloads,
        !exit && old(w).download == Some(id) ==> final(w).download is None && final(w).main
            == old(w).main && final(w).downloads.state is Done
            && final(w).downloads.download_dir@ == old(w).downloads.download_dir@
            && final(w).downloads.downloading@ == Map::<u64, Downloading<H>>::empty()
            && final(w).downloads.finished@ == Seq::<String>::empty()
            && final(w).downloads.failed@ == Map::<u64, FailedDownload<H, E>>::empty(),
        !exit && old(w).download != Some(id) ==> *final(w) == *old(w),
{
    if w.main == Some(id) {
        w.main = None;
        return true;
    }
    if w.download == Some(id) {
        w.download = None;
        w.downloads.clear();
    }
    false
}

/// The download of the file at `unit_path` on the server into the folder `pwd`.
pub fn prepare_file(unit_path: String, pwd: &str) -> (r: Download)
    requires
        file_name(unit_path@) is Some,
    ensures
        r.server_path@ == unit_path@,
        r.host_path@ == join(pwd@, file_name(unit_path@).unwrap()),
        r.id == path_id(r.host_path@),
{
    let p = chars_of(unit_path.as_str());
    let name = file_name_of(p.as_slice()).unwrap();
    let base = chars_of(pwd);
    let host = join_of(base.as_slice(), name.as_slice());
    let host_path = string_from_chars(host.as_slice());
    let id = hash_path(host_path.as_str());
    Download { id, host_path, server_path: unit_path }
}

/// One step of preparing the downloads of selected entries into a folder: a folder
/// on the server is listed and made here under the same name (then its entries are
/// prepared into it); a file becomes a download.
pub enum Preparation {
    Folder { server_path: String, host_dir: String },
    File(Download),
}

/// The step for `u` into `pwd` is `step`: a folder keeps its server path and is made
/// under its name in `pwd`; a file is downloaded by `prepare_file`.
pub open spec fn prepares(step: Preparation, u: Unit, pwd: Seq<char>) -> bool {
    if u.kind == UnitKind::Dirctory {
        step matches Preparation::Folder { server_path, host_dir }
            && server_path@ == u.path@
            && host_dir@ == join(pwd, name_of(u))
    } else {
        step matches Preparation::File(d)
            && d.server_path@ == u.path@
            && d.host_path@ == join(pwd, file_name(u.path@).unwrap())
            && d.id == path_id(d.host_path@)
    }
}

/// The steps that prepare the entries `units` into the folder `pwd`, one per entry
/// and in the same order.
pub fn preparation_steps(units: &Vec<Unit>, pwd: &str) -> (r: Vec<Preparation>)
    requires
        forall|i: int| 0 <= i < units@.len() ==> has_name(#[trigger] units@[i]),
    ensures
        r@.len() == units@.len(),
        forall|i: int| 0 <= i < units@.len() ==> prepares(#[trigger] r@[i], units@[i], pwd@),
{
    let mut r: Vec<Preparation> = Vec::new();
    let mut i: usize = 0;
    while i < units.len()
        invariant
            i <= units@.len(),
            r@.len() == i,
            forall|j: int| 0 <= j < units@.len() ==> has_name(#[trigger] units@[j]),
            forall|j: int| 0 <= j < i ==> prepares(#[trigger] r@[j], units@[j], pwd@),
        decreases units@.len() - i,
    {
        let u = &units[i];
        assert(has_name(units@[i as int]));
        if u.kind == UnitKind::Dirctory {
            let name = u.name();
            let base = chars_of(pwd);
            let n = chars_of(name.as_str());
            let dir = join_of(base.as_slice(), n.as_slice());
            let host_dir = string_from_chars(dir.as_slice());
            r.push(Preparation::Folder { server_path: u.path.clone(), host_dir });
        } else {
            r.push(Preparation::File(prepare_file(u.path.clone(), pwd)));
        }
        i = i + 1;
    }
    r
}

/// Downloads that carry the identifier of their own path, as `prepare_file` makes
/// them, are in flight under that identifier once started: the reports and
/// outcomes sent for `ds[i].id` reach a download.
pub proof fn lemma_started_under_own_id<H>(ds: Seq<Download>, hs: Seq<H>, i: int)
    requires
        ds.len() == hs.len(),
        0 <= i < ds.len(),
        forall|j: int| 0 <= j < ds.len() ==> (#[trigger] ds[j]).id == path_id(ds[j].host_path@),
    ensures
        started(ds, hs).contains_key(ds[i].id),
    decreases ds.len(),
{
    if i < ds.len() - 1 {
        assert(ds.drop_last()[i] == ds[i]);
        assert forall|j: int| 0 <= j < ds.drop_last().len() implies (#[trigger] ds.drop_last()[j]).id
            == path_id(ds.drop_last()[j].host_path@) by {
            assert(ds.drop_last()[j] == ds[j]);
        }
        lemma_started_under_own_id(ds.drop_last(), hs.drop_last(), i);
    } else {
        assert(ds[i] == ds.last());
    }
}

/// A size is shown as a whole number `n` of one unit `u` (bytes, `KB`, `MB` or `GB`):
/// the size rounded down to whole units, so `n * u <= x < (n + 1) * u`, in the unit
/// of its range (bytes below `KB`, `KB` below `MB`, `MB` below `GB`, else `GB`).
pub proof fn lemma_size_text_shows_whole_units(x: u64)
    ensures
        exists|n: nat, u: nat, s: Seq<char>|
            #![trigger decimal(n), size_unit(u, s)]
            size_text(x) == decimal(n) + s && size_unit(u, s) && n * u <= x < (n + 1) * u && unit_fits(u, x),
{
    if x < KB {
        let n = x as nat;
        let s = seq![' ', 'B'];
        assert(size_text(x) == decimal(n) + s && size_unit(1, s) && n * 1 <= x < (n + 1) * 1 && unit_fits(1, x));
    } else if x < MB {
        let n = (x / KB) as nat;
        let s = seq![' ', 'K', 'B'];
        assert(n * 1024 <= x < (n + 1) * 1024) by (nonlinear_arith)
            requires
                n == x / 1024,
        ;
        assert(size_text(x) == decimal(n) + s && size_unit(KB as nat, s) && n * KB <= x < (n + 1) * KB
            && unit_fits(KB as nat, x));
    } else if x < GB {
        let n = (x / MB) as nat;
        let s = seq![' ', 'M', 'B'];
        assert(n * 1048576 <= x < (n + 1) * 1048576) by (nonlinear_arith)
            requires
                n == x / 1048576,
        ;
        assert(size_text(x) == decimal(n) + s && size_unit(MB as nat, s) && n * MB <= x < (n + 1) * MB
            && unit_fits(MB as nat, x));
    } else {
        let n = (x / GB) as nat;
        let s = seq![' ', 'G', 'B'];
        assert(n * 1099511627776 <= x < (n + 1) * 1099511627776) by (nonlinear_arith)
            requires
                n == x / 1099511627776,
        ;
        assert(size_text(x) == decimal(n) + s && size_unit(GB as nat, s) && n * GB <= x < (n + 1) * GB
            && unit_fits(GB as nat, x));
    }
}

/// The unit of `u` bytes is the one for the size `x`: bytes below `KB`, `KB` from
/// `KB` below `MB`, `MB` from `MB` below `GB`, `GB` from `GB` on.
pub open spec fn unit_fits(u: nat, x: u64) -> bool {
    &&& u == 1 ==> x < KB
    &&& u == KB ==> KB <= x < MB
    &&& u == MB ==> MB <= x < GB
    &&& u == GB ==> GB <= x
}

/// `s` is the text after the number for the unit of `u` bytes.
pub open spec fn size_unit(u: nat, s: Seq<char>) -> bool {
    (u == 1 && s == seq![' ', 'B']) || (u == KB && s == seq![' ', 'K', 'B']) || (u == MB && s == seq![
        ' ',
        'M',
        'B',
    ]) || (u == GB && s == seq![' ', 'G', 'B'])
}

} // verus!
