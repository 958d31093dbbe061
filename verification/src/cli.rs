//! The commands of the program: where its files are, and what each command asks for.

use crate::codec::{decode, json_parse, sha256_str, sha256_text};
use crate::json::{text_or_null, Json, JsonView};
use crate::logs::LogFilter;
use crate::paths::{join, join_view};
use crate::rpc::{rpc_error, Response, ResponseView, RpcError};
use crate::task::opt_text;
use crate::text::{chars_of, concat2, is_alnum, is_alphanumeric, lower_view, lowercase};
use vstd::prelude::*;

verus! {

/// Milliseconds as a point in time: the part of them that fits.
pub fn now_millis(elapsed: u128) -> (r: u64)
    ensures
        r == elapsed % 0x1_0000_0000_0000_0000,
{
    (elapsed % 0x1_0000_0000_0000_0000) as u64
}

/// Where programs keep their state: where the environment says, or else below the home directory.
pub fn platform_state_home(state: &Option<String>, home: &str) -> (r: String)
    ensures
        r@ == (match *state {
            Some(s) => s@,
            None => join_view(home@, ".local/state"@),
        }),
{
    match state {
        Some(s) => s.clone(),
        None => join(home, ".local/state"),
    }
}

/// Where this program keeps its state.
pub open spec fn home_view(platform: Seq<char>) -> Seq<char> {
    join_view(platform, "distributed-workbench"@)
}

/// Where this program keeps its state, below where programs keep theirs.
pub fn state_home(platform: &str) -> (r: String)
    ensures
        r@ == home_view(platform@),
{
    join(platform, "distributed-workbench")
}

/// Where the logs are.
pub fn default_log_dir(platform: &str) -> (r: String)
    ensures
        r@ == join_view(home_view(platform@), "logs"@),
{
    join(state_home(platform).as_str(), "logs")
}

/// Where a controller listens.
pub fn default_controller_socket(platform: &str) -> (r: String)
    ensures
        r@ == join_view(home_view(platform@), "controller.sock"@),
{
    join(state_home(platform).as_str(), "controller.sock")
}

/// Where an executor listens.
pub fn default_executor_socket(platform: &str) -> (r: String)
    ensures
        r@ == join_view(home_view(platform@), "executor.sock"@),
{
    join(state_home(platform).as_str(), "executor.sock")
}

/// Where a controller keeps its state.
pub fn default_controller_state(platform: &str) -> (r: String)
    ensures
        r@ == join_view(home_view(platform@), "controller.json"@),
{
    join(state_home(platform).as_str(), "controller.json")
}

/// Where an executor keeps its fences.
pub fn default_executor_state(platform: &str) -> (r: String)
    ensures
        r@ == join_view(home_view(platform@), "executor-fences.json"@),
{
    join(state_home(platform).as_str(), "executor-fences.json")
}

/// The first `left` of the characters of a text that may stand in a file's name, from a position.
pub open spec fn file_chars(s: Seq<char>, from: int, left: nat) -> Seq<char>
    decreases s.len() - from,
{
    if from < 0 || from >= s.len() || left == 0 {
        Seq::empty()
    } else if is_alnum(s[from]) || s[from] == '-' || s[from] == '_' {
        seq![s[from]] + file_chars(s, from + 1, (left - 1) as nat)
    } else {
        file_chars(s, from + 1, left)
    }
}

/// The name of the file of an agent's session.
pub open spec fn session_file(session: Seq<char>) -> Seq<char> {
    file_chars(session, 0, 128) + ".json"@
}

/// Where the hook of an agent's session keeps its state. Of the session's identity letters, digits,
/// hyphens and underscores count.
pub fn codex_hook_state_path(platform: &str, session_id: &str) -> (r: String)
    ensures
        r@ == join_view(join_view(home_view(platform@), "codex-runs"@), session_file(session_id@)),
{
    let v = chars_of(session_id);
    let mut name = String::new();
    let mut left: u64 = 128;
    let mut i: usize = 0;
    proof {
        assert(name@ + file_chars(session_id@, 0, 128) =~= file_chars(session_id@, 0, 128));
    }
    while i < v.len() && left > 0
        invariant
            i <= v@.len(),
            v@ == session_id@,
            left <= 128,
            name@ + file_chars(session_id@, i as int, left as nat) == file_chars(session_id@, 0, 128),
        decreases v@.len() - i,
    {
        let c = v[i];
        if is_alphanumeric(c) || c == '-' || c == '_' {
            let ghost before = name@;
            let piece = session_id.substring_char(i, i + 1);
            name = concat2(name.as_str(), piece);
            left -= 1;
            proof {
                assert(piece@ =~= seq![session_id@[i as int]]);
                let rest = file_chars(session_id@, i + 1, left as nat);
                assert(before + (seq![session_id@[i as int]] + rest) =~= name@ + rest);
            }
        }
        i += 1;
    }
    proof {
        assert(name@ + Seq::<char>::empty() =~= name@);
    }
    let file = concat2(name.as_str(), ".json");
    let home = state_home(platform);
    join(join(home.as_str(), "codex-runs").as_str(), file.as_str())
}

proof fn lemma_file_chars(s: Seq<char>, from: int, left: nat, i: int)
    requires
        0 <= i < file_chars(s, from, left).len(),
    ensures
        ({
            let c = file_chars(s, from, left)[i];
            is_alnum(c) || c == '-' || c == '_'
        }),
        file_chars(s, from, left).len() <= left,
    decreases s.len() - from,
{
    if 0 <= from < s.len() && left > 0 {
        if is_alnum(s[from]) || s[from] == '-' || s[from] == '_' {
            let rest = file_chars(s, from + 1, (left - 1) as nat);
            if i > 0 {
                lemma_file_chars(s, from + 1, (left - 1) as nat, i - 1);
            } else if rest.len() > 0 {
                lemma_file_chars(s, from + 1, (left - 1) as nat, 0);
            }
        } else {
            lemma_file_chars(s, from + 1, left, i);
        }
    }
}

/// Whatever a session is called, its file stands in the directory for such files: its name holds no
/// separator and is short.
pub proof fn session_file_stays_in_place(session: Seq<char>, i: int)
    requires
        0 <= i < file_chars(session, 0, 128).len(),
    ensures
        file_chars(session, 0, 128)[i] != '/',
        file_chars(session, 0, 128)[i] != '\\',
        file_chars(session, 0, 128)[i] != '.',
        file_chars(session, 0, 128).len() <= 128,
{
    lemma_file_chars(session, 0, 128, i);
}

/// The pipe through which a socket is reached where there are no sockets in the file system.
pub fn pipe_name(path: &str) -> (r: String)
    ensures
        r@ == "\\\\.\\pipe\\distributed-workbench-"@ + sha256_text(lower_view(path@)),
{
    let low = lowercase(path);
    concat2("\\\\.\\pipe\\distributed-workbench-", sha256_str(low.as_str()).as_str())
}

/// The answer to a request that could not be read.
pub fn invalid_request(error: &str) -> (r: Response)
    ensures
        r.request_id@ == "unknown"@,
        r@ == (ResponseView {
            ok: false,
            result: None,
            error: Some(rpc_error("INVALID_REQUEST"@, "invalid JSON request: "@ + error@)),
        }),
{
    Response::failure(
        "unknown",
        RpcError::new("INVALID_REQUEST", concat2("invalid JSON request: ", error).as_str()),
    )
}

/// A command on runs.
#[derive(Debug)]
pub enum RunCommand {
    Start {
        target_summary: String,
        workspace_session_id: Option<String>,
        agent_session_id: Option<String>,
        created_by: String,
    },
    Finish { run_id: String, status: String, business_outcome: Option<String> },
    Status { run_id: Option<String>, limit: u64 },
}

/// The request that a command on runs makes.
pub open spec fn run_request_view(command: RunCommand) -> (Seq<char>, JsonView) {
    match command {
        RunCommand::Start { target_summary, workspace_session_id, agent_session_id, created_by } => (
            "run.start"@,
            JsonView::obj().plus("agentSessionId"@, text_or_null(opt_text(agent_session_id))).plus(
                "createdBy"@,
                JsonView::Text(created_by@),
            ).plus("targetSummary"@, JsonView::Text(target_summary@)).plus(
                "workspaceSessionId"@,
                text_or_null(opt_text(workspace_session_id)),
            ),
        ),
        RunCommand::Finish { run_id, status, business_outcome } => (
            "run.finish"@,
            JsonView::obj().plus("businessOutcome"@, text_or_null(opt_text(business_outcome))).plus(
                "runId"@,
                JsonView::Text(run_id@),
            ).plus("status"@, JsonView::Text(status@)),
        ),
        RunCommand::Status { run_id, limit } => match run_id {
            Some(id) => ("run.get"@, JsonView::obj().plus("runId"@, JsonView::Text(id@))),
            None => ("run.list"@, JsonView::obj().plus("limit"@, JsonView::Unsigned(limit))),
        },
    }
}

/// The request that a command on runs makes.
pub fn run_request(command: RunCommand) -> (r: (String, Json))
    ensures
        (r.0@, r.1@) == run_request_view(command),
{
    match command {
        RunCommand::Start { target_summary, workspace_session_id, agent_session_id, created_by } => (
            "run.start".to_owned(),
            Json::obj().plus("agentSessionId", Json::opt_text(&agent_session_id)).plus(
                "createdBy",
                Json::Text(created_by),
            ).plus("targetSummary", Json::Text(target_summary)).plus(
                "workspaceSessionId",
                Json::opt_text(&workspace_session_id),
            ),
        ),
        RunCommand::Finish { run_id, status, business_outcome } => (
            "run.finish".to_owned(),
            Json::obj().plus("businessOutcome", Json::opt_text(&business_outcome)).plus(
                "runId",
                Json::Text(run_id),
            ).plus("status", Json::Text(status)),
        ),
        RunCommand::Status { run_id, limit } => match run_id {
            Some(id) => ("run.get".to_owned(), Json::obj().plus("runId", Json::Text(id))),
            None => ("run.list".to_owned(), Json::obj().plus("limit", Json::Unsigned(limit))),
        },
    }
}

/// How a node connects to another.
#[derive(Debug)]
pub struct PeerConnect {
    pub id: String,
    pub local_id: String,
    pub host: String,
    pub expose_controller_socket: String,
    pub expose_executor_socket: String,
    pub remote_executable: Option<String>,
    pub remote_state_root: String,
    pub remote_windows: bool,
    pub state: String,
    pub local_controller_socket: Option<String>,
    pub local_executor_socket: Option<String>,
}

/// How a node lets another connect to it.
#[derive(Debug)]
pub struct PeerAccept {
    pub id: String,
    pub local_id: String,
    pub expose_controller_socket: String,
    pub expose_executor_socket: String,
    pub local_controller_socket: Option<String>,
    pub local_executor_socket: Option<String>,
}

/// A command of the program.
#[derive(Debug)]
pub enum Command {
    Status,
    Dashboard { open: bool, listen: String },
    Run(RunCommand),
    CodexHook,
    Logs(LogFilter),
    Call { action: String, params: String },
    CallStdin,
    Controller { state: Option<String>, id: Option<String> },
    Executor { id: String, allow_roots: Vec<String>, state: Option<String> },
    Connect(PeerConnect),
    Accept(PeerAccept),
    PeerStatus { state: String },
    ValidateFabric { file: String },
    PlanFabric { file: String },
}

/// What the program does.
#[derive(Debug)]
pub enum Plan {
    /// It makes a request and prints the answer.
    Ask { socket: String, action: String, params: Json },
    /// It makes the request that its input holds.
    AskInput { socket: String },
    Dashboard { socket: String, listen: String, open: bool },
    Hook { socket: String },
    Logs(LogFilter),
    Controller { socket: String, state: String, id: Option<String> },
    Executor { socket: String, id: String, allow_roots: Vec<String>, state: String },
    /// Every file and program that may be left out is named.
    Connect(PeerConnect),
    /// Every file that may be left out is named.
    Accept(PeerAccept),
    PeerStatus { state: String },
    ValidateFabric { file: String },
    PlanFabric { file: String },
    /// It cannot do what was asked for.
    Refuse(String),
}

/// A path, or the one that stands for it.
pub open spec fn path_or(path: Option<String>, default: Seq<char>) -> Seq<char> {
    match path {
        Some(p) => p@,
        None => default,
    }
}

fn given_or(path: Option<String>, default: String) -> (r: String)
    ensures
        r@ == path_or(path, default@),
{
    match path {
        Some(p) => p,
        None => default,
    }
}

/// Where the controller of a node listens.
pub open spec fn controller_socket(platform: Seq<char>) -> Seq<char> {
    join_view(home_view(platform), "controller.sock"@)
}

/// Where the executor of a node listens.
pub open spec fn executor_socket(platform: Seq<char>) -> Seq<char> {
    join_view(home_view(platform), "executor.sock"@)
}

/// Whether a plan is what the program does for a command.
pub open spec fn plans(command: Command, socket: Option<String>, platform: Seq<char>, plan: Plan) -> bool {
    let controller = path_or(socket, controller_socket(platform));
    match command {
        Command::Status => plan matches Plan::Ask { socket, action, params } && socket@ == controller && action@
            == "status"@ && params@ == JsonView::Null,
        Command::Dashboard { open, listen } => plan matches Plan::Dashboard { socket, listen: l, open: o } && socket@
            == controller && l == listen && o == open,
        Command::Run(run) => plan matches Plan::Ask { socket, action, params } && socket@ == controller && (
        action@, params@) == run_request_view(run),
        Command::CodexHook => plan matches Plan::Hook { socket } && socket@ == controller,
        Command::Logs(filter) => plan == Plan::Logs(filter),
        Command::Call { action: a, params: text } => match json_parse(vstd::utf8::encode_utf8(text@)) {
            Ok(j) => plan matches Plan::Ask { socket, action, params } && socket@ == controller && action == a
                && params@ == j,
            Err(m) => plan matches Plan::Refuse(e) && e@ == m,
        },
        Command::CallStdin => plan matches Plan::AskInput { socket } && socket@ == controller,
        Command::Controller { state: s, id: i } => plan matches Plan::Controller { socket, state, id } && socket@
            == controller && state@ == path_or(s, join_view(home_view(platform), "controller.json"@)) && id == i,
        Command::Executor { id: i, allow_roots: roots, state: s } => plan matches Plan::Executor {
            socket: x,
            id,
            allow_roots,
            state,
        } && x@ == path_or(socket, executor_socket(platform)) && id == i && allow_roots == roots && state@ == path_or(
            s,
            join_view(home_view(platform), "executor-fences.json"@),
        ),
        Command::Connect(c) => plan matches Plan::Connect(p) && p.remote_executable is Some && p.remote_executable->0@
            == path_or(c.remote_executable, ".local/bin/workbench"@) && p.local_controller_socket is Some
            && p.local_controller_socket->0@ == path_or(c.local_controller_socket, controller_socket(platform))
            && p.local_executor_socket is Some && p.local_executor_socket->0@ == path_or(
            c.local_executor_socket,
            executor_socket(platform),
        ) && p == (PeerConnect {
            remote_executable: p.remote_executable,
            local_controller_socket: p.local_controller_socket,
            local_executor_socket: p.local_executor_socket,
            ..c
        }),
        Command::Accept(c) => plan matches Plan::Accept(p) && p.local_controller_socket is Some
            && p.local_controller_socket->0@ == path_or(c.local_controller_socket, controller_socket(platform))
            && p.local_executor_socket is Some && p.local_executor_socket->0@ == path_or(
            c.local_executor_socket,
            executor_socket(platform),
        ) && p == (PeerAccept {
            local_controller_socket: p.local_controller_socket,
            local_executor_socket: p.local_executor_socket,
            ..c
        }),
        Command::PeerStatus { state } => plan == Plan::PeerStatus { state },
        Command::ValidateFabric { file } => plan == Plan::ValidateFabric { file },
        Command::PlanFabric { file } => plan == Plan::PlanFabric { file },
    }
}

/// Decides what the program does for a command: the files that are not named are those of this
/// program below `platform`.
pub fn run_cli(command: Command, socket: Option<String>, platform: &str) -> (r: Plan)
    ensures
        plans(command, socket, platform@, r),
{
    match command {
        Command::Status => Plan::Ask {
            socket: given_or(socket, default_controller_socket(platform)),
            action: "status".to_owned(),
            params: Json::Null,
        },
        Command::Dashboard { open, listen } => Plan::Dashboard {
            socket: given_or(socket, default_controller_socket(platform)),
            listen,
            open,
        },
        Command::Run(run) => {
            let (action, params) = run_request(run);
            Plan::Ask { socket: given_or(socket, default_controller_socket(platform)), action, params }
        },
        Command::CodexHook => Plan::Hook { socket: given_or(socket, default_controller_socket(platform)) },
        Command::Logs(filter) => Plan::Logs(filter),
        Command::Call { action, params } => match decode(params.as_str().as_bytes()) {
            Ok(j) => Plan::Ask {
                socket: given_or(socket, default_controller_socket(platform)),
                action,
                params: j,
            },
            Err(m) => Plan::Refuse(m),
        },
        Command::CallStdin => Plan::AskInput { socket: given_or(socket, default_controller_socket(platform)) },
        Command::Controller { state, id } => Plan::Controller {
            socket: given_or(socket, default_controller_socket(platform)),
            state: given_or(state, default_controller_state(platform)),
            id,
        },
        Command::Executor { id, allow_roots, state } => Plan::Executor {
            socket: given_or(socket, default_executor_socket(platform)),
            id,
            allow_roots,
            state: given_or(state, default_executor_state(platform)),
        },
        Command::Connect(c) => Plan::Connect(
            PeerConnect {
                id: c.id,
                local_id: c.local_id,
                host: c.host,
                expose_controller_socket: c.expose_controller_socket,
                expose_executor_socket: c.expose_executor_socket,
                remote_executable: Some(given_or(c.remote_executable, ".local/bin/workbench".to_owned())),
                remote_state_root: c.remote_state_root,
                remote_windows: c.remote_windows,
                state: c.state,
                local_controller_socket: Some(
                    given_or(c.local_controller_socket, default_controller_socket(platform)),
                ),
                local_executor_socket: Some(given_or(c.local_executor_socket, default_executor_socket(platform))),
            },
        ),
        Command::Accept(c) => Plan::Accept(
            PeerAccept {
                id: c.id,
                local_id: c.local_id,
                expose_controller_socket: c.expose_controller_socket,
                expose_executor_socket: c.expose_executor_socket,
                local_controller_socket: Some(
                    given_or(c.local_controller_socket, default_controller_socket(platform)),
                ),
                local_executor_socket: Some(given_or(c.local_executor_socket, default_executor_socket(platform))),
            },
        ),
        Command::PeerStatus { state } => Plan::PeerStatus { state },
        Command::ValidateFabric { file } => Plan::ValidateFabric { file },
        Command::PlanFabric { file } => Plan::PlanFabric { file },
    }
}

/// The component as which a command writes to the log, and the file that it writes to.
pub fn log_target(command: &Command, platform: &str) -> (r: Option<(String, String)>)
    ensures
        match *command {
            Command::Controller { .. } => r matches Some(t) && t.0@ == "controller"@ && t.1@ == join_view(
                join_view(home_view(platform@), "logs"@),
                "controller.jsonl"@,
            ),
            Command::Executor { .. } => r matches Some(t) && t.0@ == "executor"@ && t.1@ == join_view(
                join_view(home_view(platform@), "logs"@),
                "executor.jsonl"@,
            ),
            Command::Connect(_) | Command::Accept(_) | Command::PeerStatus { .. } => r matches Some(t) && t.0@
                == "peer"@ && t.1@ == join_view(join_view(home_view(platform@), "logs"@), "peer.jsonl"@),
            _ => r is None,
        },
{
    let logs = default_log_dir(platform);
    match command {
        Command::Controller { .. } => Some(("controller".to_owned(), join(logs.as_str(), "controller.jsonl"))),
        Command::Executor { .. } => Some(("executor".to_owned(), join(logs.as_str(), "executor.jsonl"))),
        Command::Connect(_) | Command::Accept(_) | Command::PeerStatus { .. } => Some(
            ("peer".to_owned(), join(logs.as_str(), "peer.jsonl")),
        ),
        _ => None,
    }
}

/// A service of Windows that the program can be.
#[derive(Debug, Clone, Copy, PartialEq, Eq, Structural)]
pub enum WindowsServiceKind {
    Controller,
    Executor,
}

/// The service of Windows that a command is.
pub fn windows_service_kind(command: &Command) -> (r: Option<WindowsServiceKind>)
    ensures
        r == (match *command {
            Command::Controller { .. } => Some(WindowsServiceKind::Controller),
            Command::Executor { .. } => Some(WindowsServiceKind::Executor),
            _ => None,
        }),
{
    match command {
        Command::Controller { .. } => Some(WindowsServiceKind::Controller),
        Command::Executor { .. } => Some(WindowsServiceKind::Executor),
        _ => None,
    }
}

} // verus!
