//! The local inference server: model status, the runtime client's requests
//! and replies, the server process it may own, and how the server is brought up.
use vstd::prelude::*;

use crate::http::{is_success, is_success_code, status_display, status_text};
use crate::system::{lines_of, text_lines};
use crate::text::{
    chars_of, concat, owned, parse_i32, parse_i32_spec, split_char, split_on, str_eq,
    string_from_range, trim, trim_str, views,
};

verus! {

// ───────────────────────────── model status ─────────────────────────────
/// Status as the server's model list reports it.
#[derive(Debug, Clone, Copy, PartialEq, Eq, Structural)]
pub enum ServerModelStatus {
    Loaded,
    Loading,
    Unloaded,
    Error,
}

/// The status that a status word in the model list stands for; any word
/// other than `loaded`, `loading` and `error` counts as unloaded.
pub open spec fn status_of_word(s: Seq<char>) -> ServerModelStatus {
    if s == "loaded"@ {
        ServerModelStatus::Loaded
    } else if s == "loading"@ {
        ServerModelStatus::Loading
    } else if s == "error"@ {
        ServerModelStatus::Error
    } else {
        ServerModelStatus::Unloaded
    }
}

impl ServerModelStatus {
    /// The status that the word `s` reports.
    pub fn from_str(s: &str) -> (r: ServerModelStatus)
        ensures
            r == status_of_word(s@),
    {
        if str_eq(s, "loaded") {
            ServerModelStatus::Loaded
        } else if str_eq(s, "loading") {
            ServerModelStatus::Loading
        } else if str_eq(s, "error") {
            ServerModelStatus::Error
        } else {
            ServerModelStatus::Unloaded
        }
    }
}

// ───────────────────────────── runtime client ─────────────────────────────
/// `base` without one trailing `/`, if it has one.
pub open spec fn without_trailing_slash(base: Seq<char>) -> Seq<char> {
    if base.len() > 0 && base.last() == '/' {
        base.drop_last()
    } else {
        base
    }
}

/// Client for the runtime endpoints of the inference server, identified by
/// the server's base URL.
pub struct ModelRuntimeClient {
    base_url: String,
}

impl View for ModelRuntimeClient {
    type V = Seq<char>;

    /// The base URL that requests are sent under.
    closed spec fn view(&self) -> Seq<char> {
        self.base_url@
    }
}

impl ModelRuntimeClient {
    /// A client for the server at `base_url`; one trailing `/` is dropped.
    pub fn new(base_url: String) -> (r: ModelRuntimeClient)
        ensures
            r@ == without_trailing_slash(base_url@),
    {
        let v = chars_of(base_url.as_str());
        if v.len() > 0 && v[v.len() - 1] == '/' {
            let url = string_from_range(&v, 0, v.len() - 1);
            assert(v@.subrange(0, v@.len() - 1) =~= v@.drop_last());
            ModelRuntimeClient { base_url: url }
        } else {
            ModelRuntimeClient { base_url }
        }
    }

    /// A client for the server on `http://localhost:8080`.
    pub fn localhost() -> (r: ModelRuntimeClient)
        ensures
            r@ == "http://localhost:8080"@,
    {
        proof {
            reveal_strlit("http://localhost:8080");
        }
        ModelRuntimeClient::new(owned("http://localhost:8080"))
    }

    /// The base URL.
    pub fn base_url(&self) -> (r: &str)
        ensures
            r@ == self@,
    {
        self.base_url.as_str()
    }

    /// The URL that lists the server's models.
    pub fn models_url(&self) -> (r: String)
        ensures
            r@ == self@ + "/v1/models"@,
    {
        concat(self.base_url.as_str(), "/v1/models")
    }

    /// The URL that loads a model.
    pub fn load_url(&self) -> (r: String)
        ensures
            r@ == self@ + "/v1/models/load"@,
    {
        concat(self.base_url.as_str(), "/v1/models/load")
    }

    /// The URL that unloads models.
    pub fn unload_url(&self) -> (r: String)
        ensures
            r@ == self@ + "/v1/models/unload"@,
    {
        concat(self.base_url.as_str(), "/v1/models/unload")
    }
}

/// What a load or unload request reports for the reply it received: success
/// for a 2xx status, else `HTTP <status> — <body, trimmed>`.
pub open spec fn command_outcome(code: u16, body: Seq<char>) -> Result<(), Seq<char>> {
    if is_success_code(code) {
        Ok(())
    } else {
        Err("HTTP "@ + status_text(code) + " — "@ + trim(body))
    }
}

/// The result of a load or unload request from its reply's status and body.
pub fn command_result(code: u16, body: &str) -> (r: Result<(), String>)
    ensures
        match r {
            Ok(()) => command_outcome(code, body@) == Ok::<(), Seq<char>>(()),
            Err(e) => command_outcome(code, body@) == Err::<(), Seq<char>>(e@),
        },
{
    if is_success(code) {
        Ok(())
    } else {
        let status = status_display(code);
        let head = concat("HTTP ", status.as_str());
        let with_dash = concat(head.as_str(), " — ");
        let trimmed = trim_str(body);
        Err(concat(with_dash.as_str(), trimmed.as_str()))
    }
}

/// The error a model-list request reports for a reply that is not a success:
/// `HTTP <status>`; `None` for a successful reply, whose body is then read.
pub fn list_status_error(code: u16) -> (r: Option<String>)
    ensures
        match r {
            Some(e) => !is_success_code(code) && e@ == "HTTP "@ + status_text(code),
            None => is_success_code(code),
        },
{
    if is_success(code) {
        None
    } else {
        let status = status_display(code);
        Some(concat("HTTP ", status.as_str()))
    }
}

// ───────────────────────────── the server process ─────────────────────────────
/// The process id of the inference server, if one is known; `0` stands for none.
pub struct ServerPidSlot {
    pid: i32,
}

impl View for ServerPidSlot {
    type V = i32;

    /// The recorded process id; `0` when none is recorded.
    closed spec fn view(&self) -> i32 {
        self.pid
    }
}

impl ServerPidSlot {
    /// A slot that records no process.
    pub fn new() -> (r: ServerPidSlot)
        ensures
            r@ == 0,
    {
        ServerPidSlot { pid: 0 }
    }

    /// The recorded process id.
    pub fn pid(&self) -> (r: i32)
        ensures
            r == self@,
    {
        self.pid
    }
}

/// Record the process id of an inference server that runs outside this
/// program, so that it is stopped on exit.
pub fn set_server_pid(slot: &mut ServerPidSlot, pid: i32)
    ensures
        final(slot)@ == pid,
{
    slot.pid = pid;
}

/// The process to stop for a recorded id: the id itself when it names a
/// process (is positive), none otherwise.
pub open spec fn process_to_stop(pid: i32) -> Option<i32> {
    if pid > 0 {
        Some(pid)
    } else {
        None
    }
}

/// Takes the recorded process for stopping: the slot is emptied, and the
/// process id is returned when it names a process.
pub fn take_server_pid(slot: &mut ServerPidSlot) -> (r: Option<i32>)
    ensures
        final(slot)@ == 0,
        r == process_to_stop(old(slot)@),
{
    let pid = slot.pid;
    slot.pid = 0;
    if pid > 0 {
        Some(pid)
    } else {
        None
    }
}

/// A recorded process is handed out for stopping once: after it was taken,
/// the emptied slot hands out nothing.
pub proof fn lemma_stop_once(pid: i32)
    ensures
        process_to_stop(0) is None,
        pid > 0 ==> process_to_stop(pid) == Some(pid),
{
}

/// What receives the kill signal when the server with process id `pid` is
/// stopped: its process group, then the process itself.
pub fn kill_targets(pid: i32) -> (r: Vec<i32>)
    requires
        pid > 0,
    ensures
        r@ == seq![(-pid) as i32, pid],
{
    let mut r: Vec<i32> = Vec::new();
    r.push(-pid);
    r.push(pid);
    assert(r@ =~= seq![(-pid) as i32, pid]);
    r
}

/// The process id that `pgrep` printed first: its first line, without
/// surrounding white space, read as an `i32`.
pub open spec fn first_pid(output: Seq<char>) -> Option<i32> {
    let ls = text_lines(output);
    if ls.len() == 0 {
        None
    } else {
        parse_i32_spec(trim(ls[0]))
    }
}

/// The process id of a running server from `pgrep` output, if it names one.
pub fn first_line_pid(output: &str) -> (r: Option<i32>)
    ensures
        r == first_pid(output@),
{
    let ls = lines_of(output);
    if ls.len() == 0 {
        return None;
    }
    assert(views(ls@)[0] == ls@[0]@);
    let t = trim_str(ls[0].as_str());
    parse_i32(t.as_str())
}

// ───────────────────────────── locating the server binary ─────────────────────────────
/// `dir` joined with the relative path `name` the way `Path::join` does it
/// on Unix: a separator is added unless `dir` is empty or already ends in one.
pub open spec fn join_path(dir: Seq<char>, name: Seq<char>) -> Seq<char> {
    if dir.len() == 0 || dir.last() == '/' {
        dir + name
    } else {
        dir + "/"@ + name
    }
}

/// `dir` joined with `name`.
pub fn join_path_str(dir: &str, name: &str) -> (r: String)
    ensures
        r@ == join_path(dir@, name@),
{
    let v = chars_of(dir);
    if v.len() == 0 || v[v.len() - 1] == '/' {
        concat(dir, name)
    } else {
        let with_sep = concat(dir, "/");
        concat(with_sep.as_str(), name)
    }
}

/// Candidates from `PATH`: each of its `:`-separated directories joined with
/// the server binary's name.
pub open spec fn path_candidates(dirs: Seq<Seq<char>>) -> Seq<Seq<char>> {
    dirs.map_values(|d: Seq<char>| join_path(d, "ominix-api"@))
}

/// The development-layout candidates under a workspace root: the release
/// build, then the debug build.
pub open spec fn dev_candidates(root: Seq<char>) -> Seq<Seq<char>> {
    seq![
        join_path(join_path(join_path(root, "OminiX-API/target"@), "release"@), "ominix-api"@),
        join_path(join_path(join_path(root, "OminiX-API/target"@), "debug"@), "ominix-api"@),
    ]
}

/// An optional value as a sequence of zero or one items.
pub open spec fn opt_seq(o: Option<Seq<char>>) -> Seq<Seq<char>> {
    match o {
        Some(x) => seq![x],
        None => Seq::<Seq<char>>::empty(),
    }
}

/// Where the server binary is looked for, in order: the explicit override,
/// each directory on `PATH`, beside the running program, then the
/// development layout under the workspace root. The first that exists is used.
pub open spec fn binary_candidates(
    explicit: Option<Seq<char>>,
    path_env: Option<Seq<char>>,
    exe_dir: Option<Seq<char>>,
    workspace_root: Option<Seq<char>>,
) -> Seq<Seq<char>> {
    opt_seq(explicit) + (match path_env {
        Some(p) => path_candidates(split_on(p, ':')),
        None => Seq::<Seq<char>>::empty(),
    }) + (match exe_dir {
        Some(d) => seq![join_path(d, "ominix-api"@)],
        None => Seq::<Seq<char>>::empty(),
    }) + (match workspace_root {
        Some(r) => dev_candidates(r),
        None => Seq::<Seq<char>>::empty(),
    })
}

/// The view of an optional string.
pub open spec fn opt_view(o: Option<&str>) -> Option<Seq<char>> {
    match o {
        Some(s) => Some(s@),
        None => None,
    }
}

/// The paths at which the server binary is looked for, in the order they are tried.
pub fn api_binary_candidates(
    explicit: Option<&str>,
    path_env: Option<&str>,
    exe_dir: Option<&str>,
    workspace_root: Option<&str>,
) -> (r: Vec<String>)
    ensures
        views(r@) == binary_candidates(
            opt_view(explicit),
            opt_view(path_env),
            opt_view(exe_dir),
            opt_view(workspace_root),
        ),
{
    let mut r: Vec<String> = Vec::new();
    if let Some(e) = explicit {
        r.push(owned(e));
    }
    let ghost after_explicit = views(r@);
    assert(after_explicit =~= opt_seq(opt_view(explicit)));
    if let Some(p) = path_env {
        let dirs = split_char(p, ':');
        let ghost ds = views(dirs@);
        for i in 0..dirs.len()
            invariant
                ds == views(dirs@),
                ds.len() == dirs.len(),
                views(r@) == after_explicit + path_candidates(ds.take(i as int)),
        {
            let c = join_path_str(dirs[i].as_str(), "ominix-api");
            let ghost before = views(r@);
            r.push(c);
            assert(views(r@) =~= before.push(c@));
            assert(path_candidates(ds.take(i + 1)) =~= path_candidates(ds.take(i as int)).push(
                join_path(ds[i as int], "ominix-api"@),
            ));
        }
        assert(ds.take(dirs.len() as int) =~= ds);
    } else {
        assert(views(r@) =~= after_explicit + Seq::<Seq<char>>::empty());
    }
    let ghost after_path = views(r@);
    if let Some(d) = exe_dir {
        r.push(join_path_str(d, "ominix-api"));
    }
    let ghost after_exe = views(r@);
    if let Some(root) = workspace_root {
        let target = join_path_str(root, "OminiX-API/target");
        let release = join_path_str(target.as_str(), "release");
        let debug = join_path_str(target.as_str(), "debug");
        r.push(join_path_str(release.as_str(), "ominix-api"));
        r.push(join_path_str(debug.as_str(), "ominix-api"));
    }
    assert(views(r@) =~= binary_candidates(
        opt_view(explicit),
        opt_view(path_env),
        opt_view(exe_dir),
        opt_view(workspace_root),
    ));
    r
}

// ───────────────────────────── bringing the server up ─────────────────────────────
/// How many times readiness is checked after launching (one check every half second).
pub const READY_CHECKS: u32 = 60;

/// Where the start-up of the inference server stands.
#[derive(Debug, Clone, Copy, PartialEq, Eq, Structural)]
pub enum StartupState {
    /// Waiting to learn whether a server already answers.
    CheckingRunning,
    /// Waiting to learn whether the server binary was found.
    Locating,
    /// Waiting for the outcome of launching the binary.
    Launching,
    /// Launched; `checks` readiness checks have failed so far.
    WaitingReady { checks: u32 },
    /// Finished.
    Done,
}

/// What the caller has observed since the last step.
pub enum StartupEvent {
    /// Whether the server answered its model list.
    Alive(bool),
    /// Whether a binary was found among the candidates.
    BinaryFound(bool),
    /// The launched process's id, or why it could not be launched.
    Launched(Result<i32, String>),
}

/// What the caller does next.
pub enum StartupAction {
    /// Ask the server for its model list.
    CheckAlive,
    /// Look for the server binary.
    FindBinary,
    /// Launch the binary that was found.
    Launch,
    /// Record `pid` as the server's process, wait half a second, then check readiness.
    RecordAndWait(i32),
    /// Wait half a second, then check readiness.
    WaitAndCheck,
    /// The server was already running: find its process id; start-up succeeded.
    AdoptRunning,
    /// Start-up finished with this result.
    Finish(Result<(), String>),
}

/// The state's invariant: the number of failed readiness checks stays below the limit.
pub open spec fn startup_ok(s: StartupState) -> bool {
    match s {
        StartupState::WaitingReady { checks } => checks < READY_CHECKS,
        _ => true,
    }
}

/// The event is one that the state waits for.
pub open spec fn event_expected(s: StartupState, e: StartupEvent) -> bool {
    match (s, e) {
        (StartupState::CheckingRunning, StartupEvent::Alive(_)) => true,
        (StartupState::Locating, StartupEvent::BinaryFound(_)) => true,
        (StartupState::Launching, StartupEvent::Launched(_)) => true,
        (StartupState::WaitingReady { .. }, StartupEvent::Alive(_)) => true,
        _ => false,
    }
}

/// How many events at most remain before start-up is done.
pub open spec fn startup_measure(s: StartupState) -> nat {
    match s {
        StartupState::CheckingRunning => (READY_CHECKS + 3) as nat,
        StartupState::Locating => (READY_CHECKS + 2) as nat,
        StartupState::Launching => (READY_CHECKS + 1) as nat,
        StartupState::WaitingReady { checks } => (READY_CHECKS - checks) as nat,
        StartupState::Done => 0,
    }
}

/// The views of an action's fields, for contracts.
pub open spec fn finish_error(a: StartupAction) -> Option<Seq<char>> {
    match a {
        StartupAction::Finish(Err(e)) => Some(e@),
        _ => None,
    }
}

/// The first step of start-up: check whether a server already answers.
pub fn startup_begin() -> (r: (StartupState, StartupAction))
    ensures
        r.0 == StartupState::CheckingRunning,
        r.1 is CheckAlive,
{
    (StartupState::CheckingRunning, StartupAction::CheckAlive)
}

/// One step of start-up: from where it stands and what was observed, where
/// it stands next and what to do.
pub fn startup_step(s: StartupState, e: StartupEvent) -> (r: (StartupState, StartupAction))
    requires
        startup_ok(s),
        event_expected(s, e),
    ensures
        startup_ok(r.0),
        startup_measure(r.0) < startup_measure(s),
        r.0 == StartupState::Done <==> (r.1 is AdoptRunning || r.1 is Finish),
        match (s, e) {
            (StartupState::CheckingRunning, StartupEvent::Alive(true)) => r.1 is AdoptRunning,
            (StartupState::CheckingRunning, StartupEvent::Alive(false)) => r.0
                == StartupState::Locating && r.1 is FindBinary,
            (StartupState::Locating, StartupEvent::BinaryFound(true)) => r.0
                == StartupState::Launching && r.1 is Launch,
            (StartupState::Locating, StartupEvent::BinaryFound(false)) => finish_error(r.1) == Some(
                "ominix-api binary not found. Install it or set OMINIX_API_BIN."@,
            ),
            (StartupState::Launching, StartupEvent::Launched(Ok(pid))) => r.0
                == (StartupState::WaitingReady { checks: 0 }) && r.1 == StartupAction::RecordAndWait(
                pid,
            ),
            (StartupState::Launching, StartupEvent::Launched(Err(msg))) => finish_error(r.1) == Some(
                "Failed to launch ominix-api: "@ + msg@,
            ),
            (StartupState::WaitingReady { .. }, StartupEvent::Alive(true)) => r.1 == StartupAction::Finish(
                Ok(()),
            ),
            (StartupState::WaitingReady { checks }, StartupEvent::Alive(false)) => if checks + 1
                < READY_CHECKS {
                r.0 == (StartupState::WaitingReady { checks: (checks + 1) as u32 })
                    && r.1 is WaitAndCheck
            } else {
                finish_error(r.1)
                    == Some("ominix-api launched but did not become ready within 30 seconds"@)
            },
            _ => false,
        },
{
    match s {
        StartupState::CheckingRunning => match e {
            StartupEvent::Alive(true) => (StartupState::Done, StartupAction::AdoptRunning),
            _ => (StartupState::Locating, StartupAction::FindBinary),
        },
        StartupState::Locating => match e {
            StartupEvent::BinaryFound(true) => (StartupState::Launching, StartupAction::Launch),
            _ => (
                StartupState::Done,
                StartupAction::Finish(
                    Err(owned("ominix-api binary not found. Install it or set OMINIX_API_BIN.")),
                ),
            ),
        },
        StartupState::Launching => match e {
            StartupEvent::Launched(Ok(pid)) => (
                StartupState::WaitingReady { checks: 0 },
                StartupAction::RecordAndWait(pid),
            ),
            StartupEvent::Launched(Err(msg)) => (
                StartupState::Done,
                StartupAction::Finish(Err(concat("Failed to launch ominix-api: ", msg.as_str()))),
            ),
            _ => (StartupState::Done, StartupAction::Finish(Ok(()))),
        },
        StartupState::WaitingReady { checks } => match e {
            StartupEvent::Alive(true) => (StartupState::Done, StartupAction::Finish(Ok(()))),
            _ => {
                if checks + 1 < READY_CHECKS {
                    (StartupState::WaitingReady { checks: checks + 1 }, StartupAction::WaitAndCheck)
                } else {
                    (
                        StartupState::Done,
                        StartupAction::Finish(
                            Err(
                                owned(
                                    "ominix-api launched but did not become ready within 30 seconds",
                                ),
                            ),
                        ),
                    )
                }
            },
        },
        StartupState::Done => (StartupState::Done, StartupAction::Finish(Ok(()))),
    }
}

} // verus!
