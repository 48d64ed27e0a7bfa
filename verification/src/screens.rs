//! The decisions behind the application's screens: which page is shown, starting
//! and stopping the file server from the serving screen, and what the web
//! interface lets in behind its password.
use vstd::prelude::*;
use crate::path::{
    body, components, file_name, file_name_of, join, join_of, parent, parent_of, with_extension,
    with_extension_of,
};
use crate::server::{needs_remux, needs_remux_exec, removal_plan, transfer_of, transfer_plan, RpcServer};
use crate::text::{chars_eq, chars_of, string_from_chars};
use crate::prerequisites::ClientPrequistesState;
use crate::unit::{Unit, UnitKind};

verus! {

/// The pages of the main window.
#[derive(Clone, Copy, Debug, PartialEq, Eq, Structural)]
pub enum Page {
    Home,
    Client,
    Server,
}

impl Default for Page {
    fn default() -> (r: Page)
        ensures
            r == Page::Home,
    {
        Page::Home
    }
}

/// The state of the mode screen (it holds nothing).
#[derive(Clone, Copy, Debug)]
pub struct ModeState {}

/// What the serving screen asks for: start serving, stop, pick the folder to
/// serve, or the folder picked.
#[derive(Clone, Debug)]
pub enum ServeMessage {
    Launch,
    Stop,
    PickTarget,
    TargetPicked(String),
}

/// What the serving screen of the desktop application asks for; a folder picking
/// that was cancelled gives no folder.
#[derive(Clone, Debug)]
pub enum ServerMessage {
    Launch,
    Stop,
    PickTarget,
    TargetPicked(Option<String>),
}

/// What the application is to do after a message of a serving screen: start a
/// server (of the folder `root`, on `port`, and with a web server on `web_port`
/// where there is one) and hand back its handle, stop the server with this handle,
/// let the user pick a folder, or nothing.
pub enum ServeAction<H> {
    Spawn { root: String, port: u16, web_port: Option<u16> },
    Abort(H),
    PickFolder,
    Nothing,
}

/// The serving screen: the folder to serve, the port to serve it on, and the
/// handle of the running server, if one runs.
pub struct ServeState<H> {
    pub target_path: String,
    pub port: u16,
    pub working_process: Option<H>,
}

/// The serving screen of the desktop application: the server of the chosen folder,
/// the port of the web server beside it, and the handle of what runs.
pub struct ServerState<H> {
    pub rpc_server: RpcServer,
    pub web_port: u16,
    pub working_process: Option<H>,
}

impl<H> ServeState<H> {
    /// Whether a server runs.
    pub fn is_working(&self) -> (r: bool)
        ensures
            r == self.working_process is Some,
    {
        self.working_process.is_some()
    }

    /// The server asked for has started, with the handle `handle`; it is now the
    /// one that runs.
    pub fn launched(&mut self, handle: H)
        ensures
            final(self).working_process == Some(handle),
            final(self).target_path == old(self).target_path,
            final(self).port == old(self).port,
    {
        self.working_process = Some(handle);
    }
}

impl<H> ServerState<H> {
    /// Whether a server runs.
    pub fn is_working(&self) -> (r: bool)
        ensures
            r == self.working_process is Some,
    {
        self.working_process.is_some()
    }

    /// The server asked for has started, with the handle `handle`; it is now the
    /// one that runs.
    pub fn launched(&mut self, handle: H)
        ensures
            final(self).working_process == Some(handle),
            final(self).rpc_server == old(self).rpc_server,
            final(self).web_port == old(self).web_port,
    {
        self.working_process = Some(handle);
    }
}

/// The pages of the main window of the application that both serves a folder and
/// browses one served elsewhere.
#[derive(Clone, Copy, Debug, PartialEq, Eq, Structural)]
pub enum MainPage {
    Serve,
    Client,
    Home,
}

/// The main window of that application: the page shown; the address the serving
/// screen shows (an address `A` and a port), or why there is none; the entries the
/// client shows and the address of the server it browses (none before one was
/// given); whether the dialog asking for that address is open, and what it holds.
pub struct MainWindow<A> {
    pub page: MainPage,
    pub serve_origin: Result<(A, u16), String>,
    pub units: Vec<Unit>,
    pub client_origin: Option<(A, u16)>,
    pub show_client_modal: bool,
    pub prerequisites: ClientPrequistesState<A>,
}

/// What the main window is asked: to show the serving screen, the address found
/// for it, to show the client with these entries, to go home, to open or close the
/// address dialog, or to connect to the address it holds.
pub enum MainMessage<A> {
    ToServe,
    SetServeOrigin(Result<(A, u16), String>),
    ToClient(Vec<Unit>),
    ToHome,
    ToggleClientModal,
    SubmitClientPrequsits,
}

/// What the application is to do after a message of the main window: find an
/// address and a free port to serve on, list the top folder of the server at this
/// address (and show the client with its entries), or nothing.
pub enum MainAction<A> {
    FindServeOrigin,
    ListRoot { ip: A, port: u16 },
    Nothing,
}

impl<A> MainWindow<A> {
    /// The window as it opens: at home, with no address to serve on yet, no
    /// entries, no server to browse and the address dialog closed and empty.
    pub fn new() -> (r: Self)
        ensures
            r.page == MainPage::Home,
            r.serve_origin matches Err(e) && e@ == "Not initialized yet"@,
            r.units@.len() == 0,
            r.client_origin is None,
            !r.show_client_modal,
            r.prerequisites.ip@.len() == 0,
            r.prerequisites.valid_ip is None,
            r.prerequisites.port == 0,
    {
        proof {
            reveal_strlit("Not initialized yet");
        }
        MainWindow {
            page: MainPage::Home,
            serve_origin: Err(String::from_str("Not initialized yet")),
            units: Vec::new(),
            client_origin: None,
            show_client_modal: false,
            prerequisites: ClientPrequistesState::new(),
        }
    }
}

/// The main window after the message `m`, and what the application is to do.
pub open spec fn main_step<A>(s: MainWindow<A>, m: MainMessage<A>) -> (MainWindow<A>, MainAction<A>) {
    match m {
        MainMessage::ToServe => (MainWindow { page: MainPage::Serve, ..s }, MainAction::FindServeOrigin),
        MainMessage::SetServeOrigin(o) => (MainWindow { serve_origin: o, ..s }, MainAction::Nothing),
        MainMessage::ToClient(units) => (
            MainWindow { units: units, page: MainPage::Client, ..s },
            MainAction::Nothing,
        ),
        MainMessage::ToHome => (MainWindow { page: MainPage::Home, ..s }, MainAction::Nothing),
        MainMessage::ToggleClientModal => (
            MainWindow { show_client_modal: !s.show_client_modal, ..s },
            MainAction::Nothing,
        ),
        MainMessage::SubmitClientPrequsits => {
            let ip = s.prerequisites.valid_ip.unwrap();
            let port = s.prerequisites.port;
            (
                MainWindow { client_origin: Some((ip, port)), show_client_modal: false, ..s },
                MainAction::ListRoot { ip: ip, port: port },
            )
        },
    }
}

impl<A: Copy> MainMessage<A> {
    /// Handles the message in the main window `state` (see `main_step`): the serving
    /// screen is shown and an address to serve on asked for, and that address kept
    /// once found (or why there is none); the client is shown with the entries
    /// listed; home is shown; the address dialog opens or closes; connecting takes
    /// the address and port the dialog holds as the server to browse, closes the
    /// dialog and asks for the listing of that server's top folder. Connecting
    /// needs an address that reads as one.
    pub fn handle(self, state: &mut MainWindow<A>) -> (r: MainAction<A>)
        requires
            self is SubmitClientPrequsits ==> old(state).prerequisites.valid_ip is Some,
        ensures
            (*final(state), r) == main_step(*old(state), self),
    {
        match self {
            MainMessage::ToServe => {
                state.page = MainPage::Serve;
                MainAction::FindServeOrigin
            },
            MainMessage::SetServeOrigin(o) => {
                state.serve_origin = o;
                MainAction::Nothing
            },
            MainMessage::ToClient(units) => {
                state.units = units;
                state.page = MainPage::Client;
                MainAction::Nothing
            },
            MainMessage::ToHome => {
                state.page = MainPage::Home;
                MainAction::Nothing
            },
            MainMessage::ToggleClientModal => {
                state.show_client_modal = !state.show_client_modal;
                MainAction::Nothing
            },
            MainMessage::SubmitClientPrequsits => {
                let ip = state.prerequisites.valid_ip.unwrap();
                let port = state.prerequisites.port;
                state.client_origin = Some((ip, port));
                state.show_client_modal = false;
                MainAction::ListRoot { ip, port }
            },
        }
    }
}

/// The state of a serving screen after the message `m`, and what the application
/// is to do.
pub open spec fn serve_step<H>(s: ServeState<H>, m: ServeMessage) -> (ServeState<H>, ServeAction<H>) {
    match m {
        ServeMessage::Launch => (s, ServeAction::Spawn { root: s.target_path, port: s.port, web_port: None }),
        ServeMessage::Stop => match s.working_process {
            Some(h) => (ServeState { working_process: None, ..s }, ServeAction::Abort(h)),
            None => (s, ServeAction::Nothing),
        },
        ServeMessage::PickTarget => (s, ServeAction::PickFolder),
        ServeMessage::TargetPicked(p) => (ServeState { target_path: p, ..s }, ServeAction::Nothing),
    }
}

impl ServeMessage {
    /// Handles the message on the serving screen `state` (see `serve_step`):
    /// launching asks for a server of the chosen folder on the chosen port,
    /// stopping stops the running server if there is one, and a picked folder
    /// becomes the folder to serve.
    pub fn handle<H>(self, state: &mut ServeState<H>) -> (r: ServeAction<H>)
        ensures
            (*final(state), r) == serve_step(*old(state), self),
    {
        match self {
            ServeMessage::Launch => ServeAction::Spawn {
                root: state.target_path.clone(),
                port: state.port,
                web_port: None,
            },
            ServeMessage::Stop => {
                let mut running: Option<H> = None;
                std::mem::swap(&mut running, &mut state.working_process);
                match running {
                    Some(h) => ServeAction::Abort(h),
                    None => ServeAction::Nothing,
                }
            },
            ServeMessage::PickTarget => ServeAction::PickFolder,
            ServeMessage::TargetPicked(p) => {
                state.target_path = p;
                ServeAction::Nothing
            },
        }
    }
}

/// The state of the desktop serving screen after the message `m`, and what the
/// application is to do.
pub open spec fn server_step<H>(s: ServerState<H>, m: ServerMessage) -> (ServerState<H>, ServeAction<H>) {
    match m {
        ServerMessage::Launch => (
            s,
            ServeAction::Spawn {
                root: s.rpc_server.target_dir,
                port: s.rpc_server.port,
                web_port: Some(s.web_port),
            },
        ),
        ServerMessage::Stop => match s.working_process {
            Some(h) => (ServerState { working_process: None, ..s }, ServeAction::Abort(h)),
            None => (s, ServeAction::Nothing),
        },
        ServerMessage::PickTarget => (s, ServeAction::PickFolder),
        ServerMessage::TargetPicked(p) => match p {
            Some(p) => (
                ServerState {
                    rpc_server: RpcServer { target_dir: p, port: s.rpc_server.port },
                    ..s
                },
                ServeAction::Nothing,
            ),
            None => (s, ServeAction::Nothing),
        },
    }
}

impl ServerMessage {
    /// Handles the message on the desktop serving screen `state` (see
    /// `server_step`): as on the serving screen, but a cancelled picking keeps the
    /// folder, and launching starts the web server beside the other.
    pub fn handle<H>(self, state: &mut ServerState<H>) -> (r: ServeAction<H>)
        ensures
            (*final(state), r) == server_step(*old(state), self),
    {
        match self {
            ServerMessage::Launch => ServeAction::Spawn {
                root: state.rpc_server.target_dir.clone(),
                port: state.rpc_server.port,
                web_port: Some(state.web_port),
            },
            ServerMessage::Stop => {
                let mut running: Option<H> = None;
                std::mem::swap(&mut running, &mut state.working_process);
                match running {
                    Some(h) => ServeAction::Abort(h),
                    None => ServeAction::Nothing,
                }
            },
            ServerMessage::PickTarget => ServeAction::PickFolder,
            ServerMessage::TargetPicked(p) => {
                if let Some(p) = p {
                    state.rpc_server.target_dir = p;
                }
                ServeAction::Nothing
            },
        }
    }
}

/// Stopping leaves no server running; stopping again then asks for nothing.
pub proof fn lemma_stop_leaves_nothing_running<H>(s: ServeState<H>)
    ensures
        serve_step(s, ServeMessage::Stop).0.working_process is None,
        serve_step(serve_step(s, ServeMessage::Stop).0, ServeMessage::Stop).1 is Nothing,
        serve_step(s, ServeMessage::Stop).0.target_path == s.target_path,
{
}

/// A server launched with the handle `h` is the one a later stop stops.
pub proof fn lemma_stop_aborts_launched<H>(s: ServeState<H>, h: H)
    ensures
        serve_step(ServeState { working_process: Some(h), ..s }, ServeMessage::Stop).1 == ServeAction::<H>::Abort(h),
{
}

/// The folder picked is the one the next launch serves.
pub proof fn lemma_launch_serves_picked<H>(s: ServeState<H>, p: String)
    ensures
        serve_step(serve_step(s, ServeMessage::TargetPicked(p)).0, ServeMessage::Launch).1
            == (ServeAction::<H>::Spawn { root: p, port: s.port, web_port: None }),
{
}

/// Picking, on either serving screen, asks the user for a folder and changes
/// nothing until one is picked.
pub proof fn lemma_pick_asks_for_a_folder<H>(s: ServeState<H>, d: ServerState<H>)
    ensures
        serve_step(s, ServeMessage::PickTarget) == (s, ServeAction::<H>::PickFolder),
        server_step(d, ServerMessage::PickTarget) == (d, ServeAction::<H>::PickFolder),
{
}

/// On the desktop serving screen, the folder picked is the one the next launch
/// serves, on the same ports; a cancelled picking keeps the folder served.
pub proof fn lemma_desktop_launch_serves_picked<H>(d: ServerState<H>, p: String)
    ensures
        server_step(server_step(d, ServerMessage::TargetPicked(Some(p))).0, ServerMessage::Launch).1
            == (ServeAction::<H>::Spawn { root: p, port: d.rpc_server.port, web_port: Some(d.web_port) }),
        server_step(d, ServerMessage::TargetPicked(None)) == (d, ServeAction::<H>::Nothing),
{
}

/// On the desktop serving screen, a server launched with the handle `h` is the one
/// a stop stops, and nothing runs afterwards.
pub proof fn lemma_desktop_stop_aborts_launched<H>(d: ServerState<H>, h: H)
    ensures
        server_step(ServerState { working_process: Some(h), ..d }, ServerMessage::Stop).1 == ServeAction::<H>::Abort(h),
        server_step(ServerState { working_process: Some(h), ..d }, ServerMessage::Stop).0.working_process is None,
        server_step(server_step(d, ServerMessage::Stop).0, ServerMessage::Stop).1 is Nothing,
{
}

/// The people who use the web interface: the folder it serves and the password
/// that lets one in.
#[derive(Clone, Debug)]
pub struct ServerContext {
    pub root: String,
    pub password: String,
}

impl ServerContext {
    /// The context of serving `root` behind `password`.
    pub fn new(root: String, password: String) -> (r: ServerContext)
        ensures
            r.root@ == root@,
            r.password@ == password@,
    {
        ServerContext { root, password }
    }

    /// Whether `password` is the password that lets one in.
    pub fn authorizes(&self, password: &str) -> (r: bool)
        ensures
            r == (password@ == self.password@),
    {
        let a = chars_of(password);
        let b = chars_of(self.password.as_str());
        chars_eq(a.as_slice(), b.as_slice())
    }

    /// Logging in with `password`: the password itself when it is the right one,
    /// nothing otherwise.
    pub fn login(&self, password: String) -> (r: Option<String>)
        ensures
            password@ == self.password@ ==> (r matches Some(p) && p@ == password@),
            password@ != self.password@ ==> r is None,
    {
        if self.authorizes(password.as_str()) {
            Some(password)
        } else {
            None
        }
    }

    /// Where an uploaded part named `field_name` is written: the name is the file's
    /// path followed by the password as its last component. A part with the wrong
    /// password is skipped (`None`); otherwise the file goes to its path under the
    /// served folder, and is converted to mp4 afterwards when `needs_remux` says so.
    pub fn upload_target(&self, field_name: &str) -> (r: Option<(String, bool)>)
        requires
            file_name(field_name@) is Some,
        ensures
            parent(field_name@) is Some,
            file_name(field_name@).unwrap() != self.password@ ==> r is None,
            file_name(field_name@).unwrap() == self.password@ ==> (r matches Some((target, remux))
                && target@ == join(self.root@, parent(field_name@).unwrap()) && remux == needs_remux(
                target@,
            )),
    {
        let f = chars_of(field_name);
        let pw = file_name_of(f.as_slice()).unwrap();
        proof {
            assert(body(field_name@).len() > 0);
            assert(components(field_name@).len() >= body(field_name@).len());
            if crate::path::has_root(field_name@) {
                assert(components(field_name@).len() == 1 + body(field_name@).len());
            }
        }
        let path = parent_of(f.as_slice()).unwrap();
        let own = chars_of(self.password.as_str());
        if !chars_eq(pw.as_slice(), own.as_slice()) {
            return None;
        }
        let root = chars_of(self.root.as_str());
        let t = join_of(root.as_slice(), path.as_slice());
        let target = string_from_chars(t.as_slice());
        let remux = needs_remux_exec(target.as_str());
        Some((target, remux))
    }

    /// The copies that pasting `from` into `to` makes (each from its place under
    /// the served folder into `to` under it, with its own name; a cut then removes
    /// each source); refused, before anything is copied, when `password` is not the
    /// right one. Every source needs a name only when the password is right: a wrong
    /// password is answered before the sources are looked at.
    pub fn paste_plan(&self, from: &Vec<String>, to: &str, password: &str) -> (r: Result<
        Vec<(String, String)>,
        AccessError,
    >)
        requires
            password@ == self.password@ ==> forall|i: int|
                0 <= i < from@.len() ==> (#[trigger] file_name(join(self.root@, from@[i]@))) is Some,
        ensures
            password@ != self.password@ ==> r == Err::<Vec<(String, String)>, AccessError>(AccessError::WrongPassword),
            password@ == self.password@ ==> (r matches Ok(moves) && moves@.len() == from@.len()
                && forall|i: int|
                0 <= i < moves@.len() ==> ((#[trigger] moves@[i]).0@, moves@[i].1@) == transfer_of(
                    self.root@,
                    from@[i]@,
                    to@,
                )),
    {
        if !self.authorizes(password) {
            return Err(AccessError::WrongPassword);
        }
        match transfer_plan(self.root.as_str(), from, to) {
            Ok(moves) => Ok(moves),
            Err(_) => vstd::pervasive::unreached(),
        }
    }

    /// The removals that removing `bases` makes (each path under the served folder,
    /// and whether it is a folder); refused when `password` is not the right one.
    pub fn removal_plan(&self, bases: &Vec<Unit>, password: &str) -> (r: Result<
        Vec<(String, bool)>,
        AccessError,
    >)
        ensures
            password@ != self.password@ ==> r == Err::<Vec<(String, bool)>, AccessError>(AccessError::WrongPassword),
            password@ == self.password@ ==> (r matches Ok(plan) && plan@.len() == bases@.len()
                && forall|i: int|
                0 <= i < plan@.len() ==> (#[trigger] plan@[i]).0@ == join(self.root@, bases@[i].path@)
                    && plan@[i].1 == (bases@[i].kind == UnitKind::Dirctory)),
    {
        if !self.authorizes(password) {
            return Err(AccessError::WrongPassword);
        }
        Ok(removal_plan(self.root.as_str(), bases))
    }

    /// The folder that making `target` creates, under the served folder; refused
    /// when `password` is not the right one.
    pub fn mkdir_target(&self, target: &str, password: &str) -> (r: Result<String, AccessError>)
        ensures
            password@ != self.password@ ==> r == Err::<String, AccessError>(AccessError::WrongPassword),
            password@ == self.password@ ==> (r matches Ok(p) && p@ == join(self.root@, target@)),
    {
        if !self.authorizes(password) {
            return Err(AccessError::WrongPassword);
        }
        let b = chars_of(self.root.as_str());
        let t = chars_of(target);
        let j = join_of(b.as_slice(), t.as_slice());
        Ok(string_from_chars(j.as_slice()))
    }

    /// The conversions that converting `targets` to mp4 makes: each file, taken
    /// under the served folder twice over (as the conversion does), and the same
    /// path with the extension `mp4`; refused when `password` is not the right one.
    pub fn remux_plan(&self, targets: &Vec<String>, password: &str) -> (r: Result<
        Vec<(String, String)>,
        AccessError,
    >)
        ensures
            password@ != self.password@ ==> r == Err::<Vec<(String, String)>, AccessError>(AccessError::WrongPassword),
            password@ == self.password@ ==> (r matches Ok(plan) && plan@.len() == targets@.len()
                && forall|i: int|
                0 <= i < plan@.len() ==> (#[trigger] plan@[i]).0@ == join(
                    self.root@,
                    join(self.root@, targets@[i]@),
                ) && plan@[i].1@ == with_extension(plan@[i].0@, seq!['m', 'p', '4'])),
    {
        if !self.authorizes(password) {
            return Err(AccessError::WrongPassword);
        }
        let root = chars_of(self.root.as_str());
        let mp4 = vec!['m', 'p', '4'];
        assert(mp4@ =~= seq!['m', 'p', '4']);
        let mut plan: Vec<(String, String)> = Vec::new();
        let mut i: usize = 0;
        while i < targets.len()
            invariant
                i <= targets@.len(),
                root@ == self.root@,
                mp4@ == seq!['m', 'p', '4'],
                plan@.len() == i,
                forall|k: int|
                    0 <= k < i ==> (#[trigger] plan@[k]).0@ == join(
                        self.root@,
                        join(self.root@, targets@[k]@),
                    ) && plan@[k].1@ == with_extension(plan@[k].0@, seq!['m', 'p', '4']),
            decreases targets@.len() - i,
        {
            let t = chars_of(targets[i].as_str());
            let once = join_of(root.as_slice(), t.as_slice());
            let from = join_of(root.as_slice(), once.as_slice());
            let to = with_extension_of(from.as_slice(), mp4.as_slice());
            plan.push((string_from_chars(from.as_slice()), string_from_chars(to.as_slice())));
            i = i + 1;
        }
        Ok(plan)
    }
}

/// Why a request of the web interface is refused.
#[derive(Clone, Copy, Debug, PartialEq, Eq, Structural)]
pub enum AccessError {
    WrongPassword,
}

} // verus!
