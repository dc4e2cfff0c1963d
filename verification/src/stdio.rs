//! Locating and launching MCP server executables over standard streams.
//!
//! A server's command is looked up against the resolved search path, its
//! child-process environment is built from the caller's overrides with the
//! resolved path injected under `PATH` only when the caller did not set one,
//! and the connection itself is driven by a state machine whose every
//! transition is stated in its contract.

use vstd::prelude::*;
use vstd::string::StringExecFns;

use crate::diagnostics::{LogLevel, LogSource, ServerLog};
use crate::env_map::EnvMap;
use crate::strutil::{seq_eqi, str_eq_ci, str_starts_with_ci};

verus! {

/// A path separator inside a command name.
pub open spec fn is_sep(c: char) -> bool {
    c == '/' || c == '\\'
}

/// The final path segment of a command name: everything after the last
/// separator, or the whole name when it has none.
pub open spec fn basename(s: Seq<char>) -> Seq<char>
    decreases s.len(),
{
    if s.len() == 0 {
        s
    } else if is_sep(s.last()) {
        Seq::empty()
    } else {
        basename(s.drop_last()).push(s.last())
    }
}

/// When no separator occurs at or after position `k`, and `k` sits right
/// after a separator (or at the start), the basename is the tail from `k`.
proof fn lemma_basename_skip(s: Seq<char>, k: int)
    requires
        0 <= k <= s.len(),
        forall|j: int| k <= j < s.len() ==> !is_sep(s[j]),
        k == 0 || is_sep(s[k - 1]),
    ensures
        basename(s) =~= s.skip(k),
    decreases s.len(),
{
    if k == s.len() {
        if s.len() > 0 {
            assert(is_sep(s.last()));
            assert(basename(s) =~= Seq::<char>::empty());
        }
    } else {
        assert(!is_sep(s[s.len() - 1]));
        let d = s.drop_last();
        assert(forall|j: int| k <= j < d.len() ==> !is_sep(#[trigger] d[j]));
        if k > 0 {
            assert(d[k - 1] == s[k - 1]);
        }
        lemma_basename_skip(d, k);
        assert(basename(s) == basename(d).push(s.last()));
        assert(d.skip(k).push(s.last()) =~= s.skip(k));
    }
}

/// Whether a command's final path segment names the container runtime,
/// ignoring ASCII case and the Windows executable suffix.
pub open spec fn is_container_command(base: Seq<char>) -> bool {
    seq_eqi(base, "docker"@) || seq_eqi(base, "docker.exe"@) || (base.len() >= "docker-"@.len()
        && seq_eqi(base.take("docker-"@.len() as int), "docker-"@))
}

/// The remediation hint appended to failure messages for a command: only
/// the container runtime currently has one.
pub open spec fn hint_for(cmd: Seq<char>) -> Seq<char> {
    if is_container_command(basename(cmd)) {
        " Ensure Docker Desktop is installed and running."@
    } else {
        Seq::empty()
    }
}

/// Whether `c` is a path separator.
fn is_sep_char(c: char) -> (r: bool)
    ensures
        r == is_sep(c),
{
    c == '/' || c == '\\'
}

/// A helpful hint for common runtime-dependent commands when they fail.
pub fn command_hint(command: &str) -> (r: &'static str)
    ensures
        r@ == hint_for(command@),
{
    let n = command.unicode_len();
    let mut k: usize = n;
    loop
        invariant
            k <= n,
            n == command@.len(),
            forall|j: int| k <= j < n ==> !is_sep(command@[j]),
        ensures
            k <= n,
            forall|j: int| k <= j < n ==> !is_sep(command@[j]),
            k == 0 || is_sep(command@[k - 1]),
        decreases k,
    {
        if k == 0 {
            break;
        }
        let c = command.get_char(k - 1);
        if is_sep_char(c) {
            break;
        }
        k = k - 1;
    }
    let base = command.substring_char(k, n);
    proof {
        lemma_basename_skip(command@, k as int);
        assert(base@ == basename(command@));
    }
    if str_eq_ci(base, "docker") || str_eq_ci(base, "docker.exe") || str_starts_with_ci(
        base,
        "docker-",
    ) {
        " Ensure Docker Desktop is installed and running."
    } else {
        proof {
            reveal_strlit("");
            assert(""@ =~= Seq::<char>::empty());
        }
        ""
    }
}

/// Why a command could not be located.
#[derive(Clone, Copy, PartialEq, Eq, Structural, Debug)]
pub enum LocateError {
    /// No executable with the requested name was found on the search path.
    NotFound,
}

/// Relies on `which::which_in`: search the given ':'-separated path list
/// for an executable named `name`, resolving relative names against `cwd`.
/// The outcome depends on the filesystem; a failure of any kind, and a
/// result that is not valid UTF-8, count as not found.
#[verifier::external_body]
fn which_in_search(name: &str, paths: &str, cwd: &str) -> (r: Option<String>) {
    match which::which_in(name, Some(paths), cwd) {
        Ok(p) => match p.into_os_string().into_string() {
            Ok(s) => Some(s),
            Err(_) => None,
        },
        Err(_) => None,
    }
}

/// Relies on `which::which`: search the ambient process `PATH` for an
/// executable named `name`.  The outcome depends on the filesystem; a
/// failure of any kind, and a result that is not valid UTF-8, count as not
/// found.
#[verifier::external_body]
fn which_search(name: &str) -> (r: Option<String>) {
    match which::which(name) {
        Ok(p) => match p.into_os_string().into_string() {
            Ok(s) => Some(s),
            Err(_) => None,
        },
        Err(_) => None,
    }
}

/// The command name with the Windows executable suffix appended.
pub fn with_exe_suffix(command: &str) -> (r: String)
    ensures
        r@ == command@ + ".exe"@,
{
    command.to_owned().concat(".exe")
}

/// What a two-step lookup returns: the first hit wins, the suffixed
/// fallback is consulted only after a miss, and two misses are a
/// not-found error.
pub fn locate_outcome(first: Option<String>, fallback: Option<String>) -> (r: Result<
    String,
    LocateError,
>)
    ensures
        first matches Some(p) ==> (r matches Ok(q) && q@ == p@),
        fallback matches Some(p) ==> (first is None ==> (r matches Ok(q) && q@ == p@)),
        first is None && fallback is None ==> (r matches Err(e) && e == LocateError::NotFound),
{
    match first {
        Some(p) => Ok(p),
        None => match fallback {
            Some(p) => Ok(p),
            None => Err(LocateError::NotFound),
        },
    }
}

/// Resolve a command to an executable file, searching the resolved shell
/// path when one is available and the ambient process path otherwise, first
/// under the command's own name and then with the executable suffix
/// appended.  Which file is found (if any) depends on the filesystem; what
/// is returned for each pair of lookup outcomes is `locate_outcome`.
pub fn resolve_command(command: &str, shell_path: Option<&String>) -> (r: Result<
    String,
    LocateError,
>)
    ensures
        r matches Err(e) ==> e == LocateError::NotFound,
{
    let with_exe = with_exe_suffix(command);
    match shell_path {
        Some(path) => {
            let first = which_in_search(command, path.as_str(), ".");
            let fallback = if first.is_some() {
                None
            } else {
                which_in_search(with_exe.as_str(), path.as_str(), ".")
            };
            locate_outcome(first, fallback)
        },
        None => {
            let first = which_search(command);
            let fallback = if first.is_some() {
                None
            } else {
                which_search(with_exe.as_str())
            };
            locate_outcome(first, fallback)
        },
    }
}

/// Inject the resolved search path into a child's environment overrides
/// under `PATH`, but only when the caller did not set `PATH` themselves:
/// explicit user configuration always wins.
pub fn inject_shell_path(env: &mut EnvMap, shell_path: Option<&String>)
    requires
        old(env).wf(),
    ensures
        final(env).wf(),
        old(env).has_key("PATH"@) ==> *final(env) == *old(env),
        !old(env).has_key("PATH"@) && shell_path is Some ==> final(env).map_view() == old(
            env,
        ).map_view().insert("PATH"@, shell_path->Some_0@),
        !old(env).has_key("PATH"@) && shell_path is None ==> *final(env) == *old(env),
{
    if env.contains_key("PATH") {
        return ;
    }
    match shell_path {
        Some(p) => {
            env.insert("PATH".to_owned(), p.clone());
        },
        None => {},
    }
}

/// An argument in the connection log line: double-quoted.
pub open spec fn quoted(a: Seq<char>) -> Seq<char> {
    "\""@ + a + "\""@
}

/// The arguments of the connection log line, comma-separated.
pub open spec fn quoted_list(args: Seq<Seq<char>>) -> Seq<char>
    decreases args.len(),
{
    if args.len() == 0 {
        Seq::empty()
    } else if args.len() == 1 {
        quoted(args[0])
    } else {
        quoted(args[0]) + ", "@ + quoted_list(args.drop_first())
    }
}

/// An argument list as the connection log line shows it, in brackets.
pub open spec fn args_rep(args: Seq<Seq<char>>) -> Seq<char> {
    if args.len() == 0 {
        "[]"@
    } else {
        "["@ + quoted_list(args) + "]"@
    }
}

/// Rendering one more argument appends a comma (unless the list was empty)
/// and the quoted argument.
proof fn lemma_quoted_push(args: Seq<Seq<char>>, e: Seq<char>)
    ensures
        args.len() == 0 ==> quoted_list(args.push(e)) == quoted(e),
        args.len() > 0 ==> quoted_list(args.push(e)) == quoted_list(args) + ", "@ + quoted(e),
    decreases args.len(),
{
    if args.len() == 0 {
        assert(args.push(e) =~~= seq![e]);
        assert(quoted_list(seq![e]) == quoted(e));
    } else if args.len() == 1 {
        assert(args.push(e).drop_first() =~~= seq![e]);
        assert(quoted_list(seq![e]) == quoted(e));
        assert(quoted_list(args.push(e)) == quoted(args.push(e)[0]) + ", "@ + quoted_list(
            args.push(e).drop_first(),
        ));
        assert(quoted_list(args) == quoted(args[0]));
    } else {
        assert(args.push(e).drop_first() =~~= args.drop_first().push(e));
        lemma_quoted_push(args.drop_first(), e);
        assert(quoted_list(args.push(e)) == quoted(args[0]) + ", "@ + (quoted_list(
            args.drop_first(),
        ) + ", "@ + quoted(e)));
        assert(quoted(args[0]) + ", "@ + (quoted_list(args.drop_first()) + ", "@ + quoted(e))
            =~= (quoted(args[0]) + ", "@ + quoted_list(args.drop_first())) + ", "@ + quoted(e));
    }
}

/// Render an argument list for the connection log line.
fn args_to_string(args: &Vec<String>) -> (r: String)
    ensures
        r@ == args_rep(args.deep_view()),
{
    if args.len() == 0 {
        proof {
            assert(args.deep_view().len() == 0);
        }
        return "[]".to_owned();
    }
    let mut m = "[".to_owned();
    let mut i: usize = 0;
    while i < args.len()
        invariant
            i <= args.len(),
            args.len() > 0,
            i == 0 ==> m@ == "["@,
            i > 0 ==> m@ == "["@ + quoted_list(args.deep_view().take(i as int)),
        decreases args.len() - i,
    {
        if i > 0 {
            m.append(", ");
        }
        m.append("\"");
        m.append(args[i].as_str());
        m.append("\"");
        proof {
            lemma_quoted_push(args.deep_view().take(i as int), args.deep_view()[i as int]);
            assert(args.deep_view().take(i as int).push(args.deep_view()[i as int])
                =~~= args.deep_view().take(i as int + 1));
            if i == 0 {
                assert(m@ =~= "["@ + quoted_list(args.deep_view().take(1)));
            } else {
                assert(m@ =~= "["@ + quoted_list(args.deep_view().take(i as int + 1)));
            }
        }
        i = i + 1;
    }
    proof {
        assert(args.deep_view().take(args.len() as int) =~~= args.deep_view());
    }
    let r = m.concat("]");
    proof {
        assert(r@ =~= args_rep(args.deep_view()));
    }
    r
}

/// The message logged when a connection attempt begins.
pub open spec fn connecting_message(cmd: Seq<char>, args: Seq<Seq<char>>) -> Seq<char> {
    "Connecting to server: "@ + cmd + " "@ + args_rep(args)
}

/// The failure message for a command that was not found.
pub open spec fn not_found_message(cmd: Seq<char>) -> Seq<char> {
    "Command not found: "@ + cmd + ". Ensure it's installed and in PATH."@ + hint_for(cmd)
}

/// The failure message for a child process that could not be spawned.
pub open spec fn spawn_failed_message(cmd: Seq<char>, cause: Seq<char>) -> Seq<char> {
    "Failed to spawn process: "@ + cause + "."@ + hint_for(cmd)
}

/// The failure message for a handshake the server rejected.
pub open spec fn handshake_failed_message(cmd: Seq<char>, cause: Seq<char>) -> Seq<char> {
    "MCP handshake failed: "@ + cause + "."@ + hint_for(cmd)
}

/// The failure message for a handshake that outran its deadline.
pub open spec fn timeout_message(cmd: Seq<char>, ms: nat) -> Seq<char> {
    "Connection timeout ("@ + crate::strutil::duration_rep(ms) + ")."@ + hint_for(cmd)
}

/// The message logged when the session is live.
pub open spec fn connected_message() -> Seq<char> {
    "Server connected successfully"@
}

fn connecting_msg(command: &str, args: &Vec<String>) -> (r: String)
    ensures
        r@ == connecting_message(command@, args.deep_view()),
{
    let mut m = "Connecting to server: ".to_owned();
    m.append(command);
    m.append(" ");
    let rendered = args_to_string(args);
    m.append(rendered.as_str());
    m
}

fn not_found_msg(command: &str) -> (r: String)
    ensures
        r@ == not_found_message(command@),
{
    let mut m = "Command not found: ".to_owned();
    m.append(command);
    m.append(". Ensure it's installed and in PATH.");
    m.append(command_hint(command));
    m
}

fn spawn_failed_msg(command: &str, cause: &str) -> (r: String)
    ensures
        r@ == spawn_failed_message(command@, cause@),
{
    let mut m = "Failed to spawn process: ".to_owned();
    m.append(cause);
    m.append(".");
    m.append(command_hint(command));
    m
}

fn handshake_failed_msg(command: &str, cause: &str) -> (r: String)
    ensures
        r@ == handshake_failed_message(command@, cause@),
{
    let mut m = "MCP handshake failed: ".to_owned();
    m.append(cause);
    m.append(".");
    m.append(command_hint(command));
    m
}

fn timeout_msg(command: &str, ms: u64) -> (r: String)
    ensures
        r@ == timeout_message(command@, ms as nat),
{
    let mut m = "Connection timeout (".to_owned();
    let d = crate::strutil::duration_to_string(ms);
    m.append(d.as_str());
    m.append(").");
    m.append(command_hint(command));
    m
}

/// The kind of transport a descriptor uses.
#[derive(Clone, Copy, PartialEq, Eq, Structural, Debug)]
pub enum TransportType {
    Stdio,
}

/// The outcome of one connection attempt.  Exactly one is produced per
/// attempt; retrying is the caller's responsibility.
pub enum TransportConnectResult {
    /// The handshake succeeded; the caller holds the live session.
    Connected,
    /// The attempt failed; the message is meant for the end user.
    Failed(String),
    /// The server requires an external authorization flow first.
    OAuthRequired(String),
}

/// The launch specification for one MCP server reached over its standard
/// streams.
pub struct StdioTransport {
    /// The executable name or path to launch.
    pub command: String,
    /// The arguments handed to the child process.
    pub args: Vec<String>,
    /// Caller-supplied environment overrides.
    pub env: EnvMap,
    /// The space (tenant) this server belongs to.
    pub space_id: String,
    /// The server's identifier, used to tag log entries.
    pub server_id: String,
    /// Whether a log sink is configured for this attempt.
    pub has_log_sink: bool,
    /// The handshake deadline, in milliseconds.
    pub connect_timeout_ms: u64,
}

/// One phase of a connection attempt.  Phases only ever move forward; no
/// phase is re-entered within one attempt.
pub enum ConnectState {
    /// Nothing has happened yet.
    Idle,
    /// Waiting for the login-shell search path.
    ResolvingEnvironment,
    /// Waiting for the command lookup against the resolved path.
    LocatingCommand { shell_path: Option<String> },
    /// Waiting for the child process to spawn.
    Spawning { shell_path: Option<String>, command_path: String },
    /// Waiting for the protocol handshake, under the deadline.
    Handshaking,
    /// The attempt is over.
    Done(TransportConnectResult),
}

/// What the surrounding runtime reports back to the state machine.
pub enum ConnectEvent {
    /// Begin the attempt.
    Start,
    /// The login-shell search path was resolved, or was unavailable.
    PathResolved(Option<String>),
    /// The command lookup finished.
    CommandLocated(Result<String, LocateError>),
    /// The child process is running; whether its error stream was captured.
    SpawnSucceeded { stderr_captured: bool },
    /// The child process could not be spawned; the cause, rendered.
    SpawnFailed(String),
    /// The protocol handshake completed.
    HandshakeSucceeded,
    /// The protocol handshake failed; the cause, rendered.
    HandshakeFailed(String),
    /// The deadline passed before the handshake completed.
    HandshakeTimedOut,
}

/// What the surrounding runtime must do after a transition.
pub enum ConnectAction {
    /// Resolve the login-shell search path (cached per process).
    ResolveEnvironment,
    /// Look the command up on the given search path.
    LocateCommand { command: String, shell_path: Option<String> },
    /// Spawn the child process with this program, argument list and
    /// environment, with its error stream piped, detached from the
    /// terminal, and killed when its handle is dropped.
    SpawnProcess { program: String, args: Vec<String>, env: EnvMap },
    /// Start draining and classifying the child's error stream.
    StartDiagnostics,
    /// Run the protocol handshake over the child's standard streams, under
    /// this deadline in milliseconds.
    BeginHandshake { timeout_ms: u64 },
    /// Append this entry to the log sink, if one is configured.
    EmitLog(ServerLog),
    /// The attempt is over with this outcome.
    Finish(TransportConnectResult),
}

/// How far a connection attempt has come; transitions only increase it.
pub open spec fn state_rank(s: ConnectState) -> int {
    match s {
        ConnectState::Idle => 0,
        ConnectState::ResolvingEnvironment => 1,
        ConnectState::LocatingCommand { .. } => 2,
        ConnectState::Spawning { .. } => 3,
        ConnectState::Handshaking => 4,
        ConnectState::Done(_) => 5,
    }
}

/// The pairs of phase and event that can occur in a run; any other pair is
/// ignored.
pub open spec fn valid_transition(state: ConnectState, event: ConnectEvent) -> bool {
    match (state, event) {
        (ConnectState::Idle, ConnectEvent::Start) => true,
        (ConnectState::ResolvingEnvironment, ConnectEvent::PathResolved(_)) => true,
        (ConnectState::LocatingCommand { .. }, ConnectEvent::CommandLocated(_)) => true,
        (ConnectState::Spawning { .. }, ConnectEvent::SpawnSucceeded { .. }) => true,
        (ConnectState::Spawning { .. }, ConnectEvent::SpawnFailed(_)) => true,
        (ConnectState::Handshaking, ConnectEvent::HandshakeSucceeded) => true,
        (ConnectState::Handshaking, ConnectEvent::HandshakeFailed(_)) => true,
        (ConnectState::Handshaking, ConnectEvent::HandshakeTimedOut) => true,
        _ => false,
    }
}

/// A transition into failure: the message is logged first, then the
/// attempt finishes, so diagnostics and outcome never disagree.
fn fail_with(msg: String) -> (r: (ConnectState, Vec<ConnectAction>))
    ensures
        r.0 matches ConnectState::Done(TransportConnectResult::Failed(m)) && m@ == msg@,
        r.1@.len() == 2,
        r.1@[0] matches ConnectAction::EmitLog(l) && l.level == LogLevel::Error && l.source
            == LogSource::Connection && l.message@ == msg@,
        r.1@[1] matches ConnectAction::Finish(TransportConnectResult::Failed(m2)) && m2@ == msg@,
{
    let log = ServerLog::new(LogLevel::Error, LogSource::Connection, msg.clone());
    let outcome_msg = msg.clone();
    let mut acts: Vec<ConnectAction> = Vec::new();
    acts.push(ConnectAction::EmitLog(log));
    acts.push(ConnectAction::Finish(TransportConnectResult::Failed(outcome_msg)));
    (ConnectState::Done(TransportConnectResult::Failed(msg)), acts)
}

/// A copy of an optional string with the same characters.
fn clone_opt_string(o: &Option<String>) -> (r: Option<String>)
    ensures
        o is Some ==> (r matches Some(t) && t@ == o->Some_0@),
        o is None ==> r is None,
{
    match o {
        Some(s) => Some(s.clone()),
        None => None,
    }
}

/// A copy of a string list with the same characters.
fn clone_string_vec(v: &Vec<String>) -> (r: Vec<String>)
    ensures
        r.deep_view() == v.deep_view(),
{
    let mut r: Vec<String> = Vec::new();
    let mut i: usize = 0;
    while i < v.len()
        invariant
            i <= v.len(),
            r.deep_view() =~~= v.deep_view().take(i as int),
        decreases v.len() - i,
    {
        r.push(v[i].clone());
        proof {
            assert(r.deep_view() =~~= v.deep_view().take(i as int).push(v.deep_view()[i as int]));
            assert(v.deep_view().take(i as int).push(v.deep_view()[i as int]) =~~= v.deep_view()
                .take(i as int + 1));
        }
        i = i + 1;
    }
    proof {
        assert(v.deep_view().take(v.len() as int) =~~= v.deep_view());
    }
    r
}

impl StdioTransport {
    /// Whether this descriptor is well-formed: its environment overrides
    /// hold no duplicate name.
    pub open spec fn wf(self) -> bool {
        self.env.wf()
    }

    /// A launch specification for one server.
    pub fn new(
        command: String,
        args: Vec<String>,
        env: EnvMap,
        space_id: String,
        server_id: String,
        has_log_sink: bool,
        connect_timeout_ms: u64,
    ) -> (r: StdioTransport)
        requires
            env.wf(),
        ensures
            r.wf(),
            r.command == command,
            r.args == args,
            r.env == env,
            r.space_id == space_id,
            r.server_id == server_id,
            r.has_log_sink == has_log_sink,
            r.connect_timeout_ms == connect_timeout_ms,
    {
        StdioTransport { command, args, env, space_id, server_id, has_log_sink, connect_timeout_ms }
    }

    /// The kind of transport this descriptor uses.
    pub fn transport_type(&self) -> (r: TransportType)
        ensures
            r == TransportType::Stdio,
    {
        TransportType::Stdio
    }

    /// A short human-readable description of the transport.
    pub fn description(&self) -> (r: String)
        ensures
            r@ == "stdio:"@ + self.command@,
    {
        let mut m = "stdio:".to_owned();
        m.append(self.command.as_str());
        m
    }

    /// One transition of the connection state machine.  The runtime feeds
    /// in what happened; the machine returns the next phase and what to do,
    /// with every failure logged before the attempt finishes.  A pair of
    /// phase and event that cannot occur in a run leaves the phase as it
    /// is, with nothing to do.
    pub fn connect_step(&self, state: ConnectState, event: ConnectEvent) -> (r: (
        ConnectState,
        Vec<ConnectAction>,
    ))
        requires
            self.wf(),
        ensures
            valid_transition(state, event) ==> state_rank(r.0) > state_rank(state),
            !valid_transition(state, event) ==> r.0 == state && r.1@.len() == 0,
            state is Idle && event is Start ==> r.0 is ResolvingEnvironment && r.1@.len() == 2
                && (r.1@[0] matches ConnectAction::EmitLog(l) && l.level == LogLevel::Info
                && l.source == LogSource::Connection && l.message@ == connecting_message(
                self.command@,
                self.args.deep_view(),
            )) && r.1@[1] is ResolveEnvironment,
            event matches ConnectEvent::PathResolved(sp) ==> (state is ResolvingEnvironment
                ==> (r.0 matches ConnectState::LocatingCommand { shell_path: sp2 } && sp2 == sp)
                && r.1@.len() == 1 && (r.1@[0] matches ConnectAction::LocateCommand {
                command: c,
                shell_path: sp3,
            } && c@ == self.command@ && (sp is Some ==> (sp3 matches Some(p3) && p3@
                == sp->0@)) && (sp is None ==> sp3 is None))),
            state matches ConnectState::LocatingCommand { shell_path } ==> (event matches
                ConnectEvent::CommandLocated(Ok(path)) ==> (r.0 matches ConnectState::Spawning {
                shell_path: sp2,
                command_path: cp,
            } && sp2 == shell_path && cp@ == path@) && r.1@.len() == 1 && (r.1@[0] matches
                ConnectAction::SpawnProcess { program, args, env } && program@ == path@
                && args.deep_view() == self.args.deep_view() && env.wf() && (self.env.has_key(
                "PATH"@,
            ) ==> env.map_view() == self.env.map_view()) && (!self.env.has_key("PATH"@)
                && shell_path is Some ==> env.map_view() == self.env.map_view().insert(
                "PATH"@,
                shell_path->0@,
            )) && (!self.env.has_key("PATH"@) && shell_path is None ==> env.map_view()
                == self.env.map_view()))),
            event matches ConnectEvent::CommandLocated(Err(_)) ==> (state is LocatingCommand
                ==> (r.0 matches ConnectState::Done(TransportConnectResult::Failed(m)) && m@
                == not_found_message(self.command@)) && r.1@.len() == 2 && (r.1@[0] matches
                ConnectAction::EmitLog(l) && l.level == LogLevel::Error && l.source
                == LogSource::Connection && l.message@ == not_found_message(self.command@)) && (
            r.1@[1] matches ConnectAction::Finish(TransportConnectResult::Failed(m2)) && m2@
                == not_found_message(self.command@))),
            event matches ConnectEvent::SpawnSucceeded { stderr_captured } ==> (state
                is Spawning ==> r.0 is Handshaking && (stderr_captured && self.has_log_sink
                ==> r.1@.len() == 2 && r.1@[0] is StartDiagnostics && (r.1@[1] matches
                ConnectAction::BeginHandshake { timeout_ms } && timeout_ms
                == self.connect_timeout_ms)) && (!(stderr_captured && self.has_log_sink)
                ==> r.1@.len() == 1 && (r.1@[0] matches ConnectAction::BeginHandshake {
                timeout_ms,
            } && timeout_ms == self.connect_timeout_ms))),
            event matches ConnectEvent::SpawnFailed(cause) ==> (state is Spawning ==> (
            r.0 matches ConnectState::Done(TransportConnectResult::Failed(m)) && m@
                == spawn_failed_message(self.command@, cause@)) && r.1@.len() == 2 && (
            r.1@[0] matches ConnectAction::EmitLog(l) && l.level == LogLevel::Error && l.source
                == LogSource::Connection && l.message@ == spawn_failed_message(
                self.command@,
                cause@,
            )) && (r.1@[1] matches ConnectAction::Finish(TransportConnectResult::Failed(m2))
                && m2@ == spawn_failed_message(self.command@, cause@))),
            state is Handshaking && event is HandshakeSucceeded ==> (r.0 matches
                ConnectState::Done(o) && o is Connected) && r.1@.len() == 2 && (r.1@[0] matches
                ConnectAction::EmitLog(l) && l.level == LogLevel::Info && l.source
                == LogSource::Connection && l.message@ == connected_message()) && (
            r.1@[1] matches ConnectAction::Finish(o2) && o2 is Connected),
            event matches ConnectEvent::HandshakeFailed(cause) ==> (state is Handshaking ==> (
            r.0 matches ConnectState::Done(TransportConnectResult::Failed(m)) && m@
                == handshake_failed_message(self.command@, cause@)) && r.1@.len() == 2 && (
            r.1@[0] matches ConnectAction::EmitLog(l) && l.level == LogLevel::Error && l.source
                == LogSource::Connection && l.message@ == handshake_failed_message(
                self.command@,
                cause@,
            )) && (r.1@[1] matches ConnectAction::Finish(TransportConnectResult::Failed(m2))
                && m2@ == handshake_failed_message(self.command@, cause@))),
            state is Handshaking && event is HandshakeTimedOut ==> (r.0 matches
                ConnectState::Done(TransportConnectResult::Failed(m)) && m@ == timeout_message(
                self.command@,
                self.connect_timeout_ms as nat,
            )) && r.1@.len() == 2 && (r.1@[0] matches ConnectAction::EmitLog(l) && l.level
                == LogLevel::Error && l.source == LogSource::Connection && l.message@
                == timeout_message(self.command@, self.connect_timeout_ms as nat)) && (
            r.1@[1] matches ConnectAction::Finish(TransportConnectResult::Failed(m2)) && m2@
                == timeout_message(self.command@, self.connect_timeout_ms as nat)),
    {
        match (state, event) {
            (ConnectState::Idle, ConnectEvent::Start) => {
                let msg = connecting_msg(self.command.as_str(), &self.args);
                let log = ServerLog::new(LogLevel::Info, LogSource::Connection, msg);
                let mut acts: Vec<ConnectAction> = Vec::new();
                acts.push(ConnectAction::EmitLog(log));
                acts.push(ConnectAction::ResolveEnvironment);
                (ConnectState::ResolvingEnvironment, acts)
            },
            (ConnectState::ResolvingEnvironment, ConnectEvent::PathResolved(sp)) => {
                let mut acts: Vec<ConnectAction> = Vec::new();
                acts.push(
                    ConnectAction::LocateCommand {
                        command: self.command.clone(),
                        shell_path: clone_opt_string(&sp),
                    },
                );
                (ConnectState::LocatingCommand { shell_path: sp }, acts)
            },
            (
                ConnectState::LocatingCommand { shell_path },
                ConnectEvent::CommandLocated(Ok(path)),
            ) => {
                let mut env = self.env.duplicate();
                inject_shell_path(&mut env, shell_path.as_ref());
                let mut acts: Vec<ConnectAction> = Vec::new();
                acts.push(
                    ConnectAction::SpawnProcess {
                        program: path.clone(),
                        args: clone_string_vec(&self.args),
                        env,
                    },
                );
                (ConnectState::Spawning { shell_path, command_path: path }, acts)
            },
            (ConnectState::LocatingCommand { shell_path: _ }, ConnectEvent::CommandLocated(
                Err(_),
            )) => fail_with(not_found_msg(self.command.as_str())),
            (
                ConnectState::Spawning { shell_path: _, command_path: _ },
                ConnectEvent::SpawnSucceeded { stderr_captured },
            ) => {
                let mut acts: Vec<ConnectAction> = Vec::new();
                if stderr_captured && self.has_log_sink {
                    acts.push(ConnectAction::StartDiagnostics);
                }
                acts.push(ConnectAction::BeginHandshake { timeout_ms: self.connect_timeout_ms });
                (ConnectState::Handshaking, acts)
            },
            (
                ConnectState::Spawning { shell_path: _, command_path: _ },
                ConnectEvent::SpawnFailed(cause),
            ) => fail_with(spawn_failed_msg(self.command.as_str(), cause.as_str())),
            (ConnectState::Handshaking, ConnectEvent::HandshakeSucceeded) => {
                let log = ServerLog::new(
                    LogLevel::Info,
                    LogSource::Connection,
                    "Server connected successfully".to_owned(),
                );
                let mut acts: Vec<ConnectAction> = Vec::new();
                acts.push(ConnectAction::EmitLog(log));
                acts.push(ConnectAction::Finish(TransportConnectResult::Connected));
                (ConnectState::Done(TransportConnectResult::Connected), acts)
            },
            (ConnectState::Handshaking, ConnectEvent::HandshakeFailed(cause)) => fail_with(
                handshake_failed_msg(self.command.as_str(), cause.as_str()),
            ),
            (ConnectState::Handshaking, ConnectEvent::HandshakeTimedOut) => fail_with(
                timeout_msg(self.command.as_str(), self.connect_timeout_ms),
            ),
            (s, _) => (s, Vec::new()),
        }
    }
}

} // verus!
