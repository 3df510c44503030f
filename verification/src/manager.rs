//! The manager of the omp processes: which run, what they are started with, and which belong to
//! a session or a workspace.
use crate::extension;
use crate::extension::{extension_candidates, Candidate, DevTree, EmbeddedExtensionResolution};
use crate::json;
use crate::json::write_compact;
use crate::launch;
use crate::launch::{plan_command, plan_server, ChildHost, LaunchPlan};
use crate::packages;
use crate::packages::{install_command, read_package_listing, uninstall_command};
use crate::platform::Platform;
use crate::posix;
use crate::posix::parent_of;
use crate::sessions;
use crate::sessions::{contains_port, ports_besides, SessionPorts};
use crate::text;
use crate::text::{decimal_text, with_suffix};
use std::collections::{HashMap, HashSet};
use vstd::prelude::*;

verus! {

broadcast use vstd::std_specs::hash::group_hash_axioms;

/// The first port that is tried for an omp process.
pub const FIRST_PORT: u16 = 47821;

/// What the manager keeps track of.
#[verifier::ext_equal]
pub struct ManagerState {
    /// The ports with an omp process.
    pub running: Set<u16>,
    /// The port of the dedicated process of a session file.
    pub sessions: Map<Seq<char>, u16>,
    /// The ports of the dedicated processes that belong to a workspace, by the port of the
    /// workspace, in the order in which they were started.
    pub dedicated: Map<u16, Seq<u16>>,
    /// The directory of the static files that omp serves.
    pub static_dir: Seq<char>,
}

impl ManagerState {
    /// The state in which an omp process runs on a port, in place of one that ran there.
    pub open spec fn started(self, port: u16) -> ManagerState {
        ManagerState { running: self.running.insert(port), ..self }
    }

    /// The state in which no omp process runs on the ports given, and no session file and no
    /// workspace has one of them.
    pub open spec fn ended(self, ports: Seq<u16>) -> ManagerState {
        ManagerState {
            running: self.running.difference(ports.to_set()),
            sessions: sessions::without_ports(self.sessions, ports),
            dedicated: self.dedicated.map_values(
                |list: Seq<u16>| sessions::other_ports(list, ports),
            ),
            ..self
        }
    }

    /// The state in which no omp process runs on a port, and no session file and no workspace
    /// has it.
    pub open spec fn killed(self, port: u16) -> ManagerState {
        self.ended(seq![port])
    }

    /// The state in which no omp process runs.
    pub open spec fn all_killed(self) -> ManagerState {
        ManagerState {
            running: Set::empty(),
            sessions: Map::empty(),
            dedicated: Map::empty(),
            ..self
        }
    }

    /// The port of the dedicated process of a session file, if there is such a process.
    pub open spec fn process_of(self, session: Seq<char>) -> Option<u16> {
        if self.sessions.contains_key(session) && self.running.contains(self.sessions[session]) {
            Some(self.sessions[session])
        } else {
            None
        }
    }

    /// The ports of the dedicated processes of a workspace.
    pub open spec fn dedicated_to(self, workspace_port: u16) -> Seq<u16> {
        if self.dedicated.contains_key(workspace_port) {
            self.dedicated[workspace_port]
        } else {
            Seq::empty()
        }
    }

    /// The state in which the process on a port is the one of a session file, for a workspace.
    pub open spec fn dedicating(
        self,
        workspace_port: u16,
        session: Seq<char>,
        port: u16,
    ) -> ManagerState {
        ManagerState {
            sessions: self.sessions.insert(session, port),
            dedicated: self.dedicated.insert(
                workspace_port,
                self.dedicated_to(workspace_port).push(port),
            ),
            ..self
        }
    }

    /// The state in which a workspace has no dedicated processes any more: those that it had do
    /// not run, and the session files that they were for have none.
    pub open spec fn closed(self, workspace_port: u16) -> ManagerState {
        let rest = self.ended(self.dedicated_to(workspace_port));
        ManagerState { dedicated: rest.dedicated.remove(workspace_port), ..rest }
    }

    /// Whether a new omp process may get a port, as far as is known: none runs there, and the
    /// port has not been found in use.
    pub open spec fn free(self, busy: Seq<u16>, port: int) -> bool {
        FIRST_PORT <= port <= u16::MAX && !self.running.contains(port as u16) && !busy.contains(
            port as u16,
        )
    }

    /// Whether every session file with a port has a process there.
    pub open spec fn sessions_run(self) -> bool {
        forall|session: Seq<char>| #[trigger]
            self.sessions.contains_key(session) ==> self.running.contains(self.sessions[session])
    }

    /// Whether no two session files have the same port.
    pub open spec fn sessions_apart(self) -> bool {
        forall|a: Seq<char>, b: Seq<char>| #[trigger]
            self.sessions.contains_key(a) && #[trigger] self.sessions.contains_key(b) && a != b
                ==> self.sessions[a] != self.sessions[b]
    }

    /// Whether every port that belongs to a workspace has a process.
    pub open spec fn dedicated_run(self) -> bool {
        forall|workspace_port: u16, port: u16| #[trigger]
            self.dedicated_to(workspace_port).contains(port) ==> self.running.contains(port)
    }

    /// Whether no port belongs to two workspaces.
    pub open spec fn workspaces_apart(self) -> bool {
        forall|a: u16, b: u16, port: u16| #[trigger]
            self.dedicated_to(a).contains(port) && #[trigger] self.dedicated_to(b).contains(port)
                ==> a == b
    }

    /// Whether a port belongs to some workspace.
    pub open spec fn belongs(self, port: u16) -> bool {
        exists|workspace_port: u16| #[trigger] self.dedicated_to(workspace_port).contains(port)
    }

    /// Whether the port of every session file belongs to a workspace, so that its process ends
    /// when that workspace is closed.
    pub open spec fn sessions_belong(self) -> bool {
        forall|session: Seq<char>| #[trigger]
            self.sessions.contains_key(session) ==> self.belongs(self.sessions[session])
    }

    /// Whether session files and workspaces have ports with a process only and share none, and
    /// the port of every session file belongs to a workspace.
    pub open spec fn consistent(self) -> bool {
        &&& self.sessions_run()
        &&& self.sessions_belong()
        &&& self.sessions_apart()
        &&& self.dedicated_run()
        &&& self.workspaces_apart()
    }
}

/// The manager of the omp processes. It holds what is decided by; the processes themselves are
/// held by whoever starts them.
pub struct OmpManager {
    processes: HashSet<u16>,
    session_ports: SessionPorts,
    workspace_dedicated: HashMap<u16, Vec<u16>>,
    static_dir: String,
}

impl View for OmpManager {
    type V = ManagerState;

    closed spec fn view(&self) -> ManagerState {
        ManagerState {
            running: self.processes@,
            sessions: self.session_ports@,
            dedicated: self.workspace_dedicated@.map_values(|ports: Vec<u16>| ports@),
            static_dir: self.static_dir@,
        }
    }
}

/// How an attempt to start an omp process went.
pub enum SpawnOutcome {
    /// It could not be started, for the reason given.
    NotStarted(String),
    /// It was started, but nothing can be written to it.
    NoStdin,
    /// It runs.
    Running,
}

/// What to do about the dedicated process of a session file.
pub enum DedicatedStep {
    /// There is one, on this port.
    Reuse(u16),
    /// There is none. It may get this port, unless the port is found in use.
    SpawnOn(u16),
    /// There is none, and no port is left for it.
    NoPort,
}

/// What is said where an omp process could not be started.
pub open spec fn spawn_failed(binary: Seq<char>, error: Seq<char>) -> Seq<char> {
    "Failed to spawn omp ("@ + binary + "): "@ + error
        + ". Make sure omp is installed (brew install omp) and on your PATH."@
}

impl OmpManager {
    /// A manager without processes, for omp processes that serve the static files in a
    /// directory.
    pub fn new(static_dir: String) -> (manager: OmpManager)
        ensures
            manager@ == (ManagerState {
                running: Set::empty(),
                sessions: Map::empty(),
                dedicated: Map::empty(),
                static_dir: static_dir@,
            }),
            manager@.consistent(),
    {
        let manager = OmpManager {
            processes: HashSet::new(),
            session_ports: SessionPorts::new(),
            workspace_dedicated: HashMap::new(),
            static_dir,
        };
        assert(manager@.dedicated =~= Map::empty());
        manager
    }

    /// Takes note of how starting an omp process went: it counts as running on its port if it
    /// does, and otherwise the message tells what failed.
    pub fn spawn_finished(
        &mut self,
        port: u16,
        binary: &str,
        outcome: SpawnOutcome,
    ) -> (result: Result<(), String>)
        ensures
            match outcome {
                SpawnOutcome::Running => result is Ok && final(self)@ == old(self)@.started(port),
                SpawnOutcome::NoStdin => final(self)@ == old(self)@ && (result matches Err(message)
                    && message@ == "Failed to get pi stdin"@),
                SpawnOutcome::NotStarted(error) => final(self)@ == old(self)@ && (
                result matches Err(message) && message@ == spawn_failed(binary@, error@)),
            },
    {
        match outcome {
            SpawnOutcome::Running => {
                self.processes.insert(port);
                Ok(())
            },
            SpawnOutcome::NoStdin => Err("Failed to get pi stdin".to_owned()),
            SpawnOutcome::NotStarted(error) => {
                let mut message = with_suffix("Failed to spawn omp (", binary);
                message.append("): ");
                message.append(error.as_str());
                message.append(
                    ". Make sure omp is installed (brew install omp) and on your PATH.",
                );
                Err(message)
            },
        }
    }

    /// The line that hands a command to the omp process on a port: the command as compact JSON,
    /// and a line break behind it, the only one in the line.
    pub fn send_rpc(&self, port: u16, cmd: serde_json::Value) -> (line: Result<String, String>)
        ensures
            match line {
                Ok(text) => self@.running.contains(port) && text@ == json::compact(
                    json::content(cmd),
                ).push('\n') && (forall|i: int|
                    0 <= i < text@.len() - 1 ==> text@[i] != '\n'),
                Err(message) => !self@.running.contains(port) && message@
                    == "No omp instance on port "@ + text::decimal(port as nat),
            },
    {
        if !self.processes.contains(&port) {
            return Err(with_suffix("No omp instance on port ", decimal_text(port).as_str()));
        }
        let mut line = write_compact(&cmd);
        let ghost command = line@;
        line.append("\n");
        proof {
            reveal_strlit("\n");
            assert(line@ =~= command.push('\n'));
            assert forall|i: int| 0 <= i < line@.len() - 1 implies line@[i] != '\n' by {
                assert(command.contains(command[i]));
            }
        }
        Ok(line)
    }

    /// How the omp process on a port ended, given how the process there is known to have ended;
    /// nothing if none runs there or it has not ended.
    pub fn check_exited(&self, port: u16, status: Option<String>) -> (exited: Option<String>)
        ensures
            exited == (if self@.running.contains(port) {
                status
            } else {
                None
            }),
    {
        if self.processes.contains(&port) {
            status
        } else {
            None
        }
    }

    /// Forgets the omp processes on ports, for the sessions and the workspaces too.
    fn forget(&mut self, ports: &Vec<u16>)
        ensures
            final(self)@ == old(self)@.ended(ports@),
    {
        let ghost before = self@;
        for i in 0..ports.len()
            invariant
                self@.running == before.running.difference(ports@.take(i as int).to_set()),
                self@.sessions == before.sessions,
                self@.dedicated == before.dedicated,
                self@.static_dir == before.static_dir,
        {
            self.processes.remove(&ports[i]);
            assert(self@.running =~= before.running.difference(ports@.take(i + 1).to_set())) by {
                let done = ports@.take(i as int);
                let more = ports@.take(i + 1);
                assert(more[i as int] == ports@[i as int]);
                assert forall|p: u16| more.contains(p) == (done.contains(p) || p
                    == ports@[i as int]) by {
                    if done.contains(p) {
                        let k = choose|k: int| 0 <= k < done.len() && done[k] == p;
                        assert(more[k] == p);
                    }
                    if more.contains(p) && p != ports@[i as int] {
                        let k = choose|k: int| 0 <= k < more.len() && more[k] == p;
                        assert(done[k] == p);
                    }
                }
            }
        }
        assert(ports@.take(ports@.len() as int) =~= ports@);
        self.session_ports.remove_ports(ports);
        let ghost lists = self.workspace_dedicated@;
        let mut kept: HashMap<u16, Vec<u16>> = HashMap::new();
        for entry in it: self.workspace_dedicated.iter()
            invariant
                forall|j: int|
                    0 <= j < it.seq().len() ==> lists.contains_key(*(#[trigger] it.seq()[j]).0)
                        && lists[*it.seq()[j].0] == *it.seq()[j].1,
                forall|w: u16| #[trigger]
                    lists.contains_key(w) ==> it.seq().contains((&w, &lists[w])),
                forall|w: u16| #[trigger]
                    kept@.contains_key(w) ==> lists.contains_key(w) && kept@[w]@
                        == sessions::other_ports(lists[w]@, ports@),
                forall|j: int|
                    0 <= j < it.index() ==> kept@.contains_key(*(#[trigger] it.seq()[j]).0),
        {
            let (workspace_port, list) = entry;
            kept.insert(*workspace_port, ports_besides(list, ports));
        }
        self.workspace_dedicated = kept;
        assert(self@.dedicated =~= before.ended(ports@).dedicated);
    }

    /// Forgets the omp process on a port, and tells whether there is one to kill. Neither a
    /// session file nor a workspace has the port any longer, so that a process that gets it
    /// later is not taken for theirs.
    pub fn kill(&mut self, port: u16) -> (found: bool)
        ensures
            found == old(self)@.running.contains(port),
            final(self)@ == old(self)@.killed(port),
            final(self)@.running == old(self)@.running.remove(port),
    {
        let ghost before = self@.running;
        let found = self.processes.contains(&port);
        let ports: Vec<u16> = vec![port];
        assert(ports@ =~= seq![port]);
        self.forget(&ports);
        assert(self@.running =~= before.remove(port)) by {
            assert(ports@[0] == port);
            assert(ports@.contains(port));
        }
        found
    }

    /// Forgets all omp processes, for the sessions and the workspaces too; all of them are to be
    /// killed.
    pub fn kill_all(&mut self)
        ensures
            final(self)@ == old(self)@.all_killed(),
    {
        self.processes.clear();
        self.session_ports = SessionPorts::new();
        self.workspace_dedicated.clear();
        assert(self@.dedicated =~= Map::empty());
    }

    /// The port for a new omp process, given the ports that have been found in use: the lowest
    /// one from the first on that has no process and is not in use. Nothing if there is none.
    pub fn next_port(&self, busy: &Vec<u16>) -> (port: Option<u16>)
        ensures
            match port {
                Some(p) => self@.free(busy@, p as int) && (forall|q: int|
                    FIRST_PORT <= q < p ==> !self@.free(busy@, q)),
                None => forall|q: int| !self@.free(busy@, q),
            },
    {
        let mut port: u16 = FIRST_PORT;
        loop
            invariant
                FIRST_PORT <= port,
                forall|q: int| FIRST_PORT <= q < port ==> !self@.free(busy@, q),
            decreases u16::MAX - port,
        {
            if !self.processes.contains(&port) && !contains_port(busy, port) {
                return Some(port);
            }
            if port == u16::MAX {
                return None;
            }
            port = port + 1;
        }
    }

    /// What to do about the dedicated process of a session file: to use the one that there is,
    /// or to start one on a port of its own, so that it runs beside the process of the
    /// workspace. A port without a process is never used.
    pub fn spawn_session_dedicated(&self, session_file: &str, busy: &Vec<u16>) -> (step:
        DedicatedStep)
        ensures
            match step {
                DedicatedStep::Reuse(port) => self@.process_of(session_file@) == Some(port),
                DedicatedStep::SpawnOn(port) => self@.process_of(session_file@) is None
                    && self@.free(busy@, port as int) && (forall|q: int|
                    FIRST_PORT <= q < port ==> !self@.free(busy@, q)),
                DedicatedStep::NoPort => self@.process_of(session_file@) is None && (forall|
                    q: int,
                | !self@.free(busy@, q)),
            },
    {
        if let Some(port) = self.session_ports.get(session_file) {
            if self.processes.contains(&port) {
                return DedicatedStep::Reuse(port);
            }
        }
        match self.next_port(busy) {
            Some(port) => DedicatedStep::SpawnOn(port),
            None => DedicatedStep::NoPort,
        }
    }

    /// Takes note of how starting the dedicated process of a session file went. If it runs, the
    /// session file and the workspace get its port; otherwise nothing changes.
    pub fn session_spawned(
        &mut self,
        workspace_port: u16,
        session_file: String,
        port: u16,
        spawned: Result<(), String>,
    ) -> (result: Result<u16, String>)
        ensures
            match spawned {
                Ok(_) => result == Ok::<u16, String>(port) && final(self)@
                    == old(self)@.dedicating(workspace_port, session_file@, port),
                Err(message) => result == Err::<u16, String>(message) && final(self)@
                    == old(self)@,
            },
    {
        match spawned {
            Err(message) => Err(message),
            Ok(_) => {
                let ghost before = self@;
                self.session_ports.insert(session_file, port);
                let mut ports = match self.workspace_dedicated.remove(&workspace_port) {
                    Some(ports) => ports,
                    None => Vec::new(),
                };
                assert(ports@ == before.dedicated_to(workspace_port));
                ports.push(port);
                self.workspace_dedicated.insert(workspace_port, ports);
                assert(self@.dedicated =~= before.dedicated.insert(
                    workspace_port,
                    before.dedicated_to(workspace_port).push(port),
                ));
                assert(self@ =~= before.dedicating(workspace_port, session_file@, port));
                Ok(port)
            },
        }
    }

    /// Forgets the dedicated processes of a workspace, and tells on which ports they are to be
    /// killed.
    pub fn kill_workspace_dedicated(&mut self, workspace_port: u16) -> (ports: Vec<u16>)
        ensures
            ports@ == old(self)@.dedicated_to(workspace_port),
            final(self)@ == old(self)@.closed(workspace_port),
    {
        let ghost before = self@;
        let ports = match self.workspace_dedicated.remove(&workspace_port) {
            Some(ports) => ports,
            None => Vec::new(),
        };
        assert(ports@ == before.dedicated_to(workspace_port));
        assert(self@.dedicated =~= before.dedicated.remove(workspace_port));
        self.forget(&ports);
        assert(self@.dedicated =~= before.closed(workspace_port).dedicated);
        assert(self@ =~= before.closed(workspace_port));
        ports
    }

    /// Where the extension may be on Unix, given the sources of a debug build: next to the
    /// directory of static files, and in those sources.
    pub fn posix_extension_candidates(&self, dev: &Option<DevTree>) -> (candidates: Vec<Candidate>)
        ensures
            extension::candidates_of(candidates@) == extension::shipped_candidates(
                posix::parent(self@.static_dir),
            ) + extension::dev_candidates(*dev),
    {
        extension_candidates(parent_of(self.static_dir.as_str()), dev)
    }

    /// Plans an omp process that serves the web interface on a port, for a session file if one
    /// is given. Without an omp binary, or without the extension, there is nothing to start:
    /// the first message of the two is handed on. A process without the extension would have
    /// nothing to serve.
    pub fn spawn(
        &self,
        binary: Result<String, String>,
        extension: Result<EmbeddedExtensionResolution, String>,
        mirrored: Option<&str>,
        host: &ChildHost,
        cwd: &str,
        port: u16,
        session_path: Option<&str>,
    ) -> (plan: Result<LaunchPlan, String>)
        ensures
            match (binary, extension) {
                (Err(message), _) => plan == Err::<LaunchPlan, String>(message),
                (_, Err(message)) => plan == Err::<LaunchPlan, String>(message),
                (Ok(path), Ok(found)) => plan matches Ok(process) && process@ == launch::server(
                    path@,
                    found.path@,
                    text::optional_text(mirrored),
                    self@.static_dir,
                    *host,
                    cwd@,
                    port,
                    text::optional_text(session_path),
                ),
            },
    {
        match binary {
            Err(message) => Err(message),
            Ok(path) => match extension {
                Err(message) => Err(message),
                Ok(found) => Ok(
                    plan_server(
                        path.as_str(),
                        found.path.as_str(),
                        mirrored,
                        self.static_dir.as_str(),
                        host,
                        cwd,
                        port,
                        session_path,
                    ),
                ),
            },
        }
    }

    /// Plans a command of the omp binary, if there is one. What comes of it is told by
    /// [`crate::shell::finish_command`].
    pub fn run_pi_command(
        &self,
        binary: Result<String, String>,
        args: Vec<String>,
        platform: Platform,
        path: String,
    ) -> (plan: Result<LaunchPlan, String>)
        ensures
            match binary {
                Err(message) => plan == Err::<LaunchPlan, String>(message),
                Ok(found) => plan matches Ok(process) && process@ == launch::command(
                    found@,
                    text::texts(args@),
                    platform,
                    path@,
                ),
            },
    {
        match binary {
            Err(message) => Err(message),
            Ok(found) => Ok(plan_command(found.as_str(), args, platform, path)),
        }
    }

    /// The sources of the installed packages, from what came of the command that lists them
    /// ([`crate::packages::list_command`]).
    pub fn list_configured_package_sources(&self, output: Result<String, String>) -> (sources:
        Result<Vec<String>, String>)
        ensures
            match output {
                Err(message) => sources == Err::<Vec<String>, String>(message),
                Ok(written) => match sources {
                    Ok(list) => packages::sources_in_output(written@) == Ok::<
                        Seq<Seq<char>>,
                        Seq<char>,
                    >(text::texts(list@)),
                    Err(message) => packages::sources_in_output(written@) == Err::<
                        Seq<Seq<char>>,
                        Seq<char>,
                    >(message@),
                },
            },
    {
        match output {
            Err(message) => Err(message),
            Ok(written) => read_package_listing(written.as_str()),
        }
    }

    /// The arguments of the command that installs the package of a source.
    pub fn install_package_source(&self, source: &str) -> (args: Vec<String>)
        ensures
            text::texts(args@) == packages::install_args(source@),
    {
        install_command(source)
    }

    /// The arguments of the command that removes the package of a source.
    pub fn remove_package_source(&self, source: &str) -> (args: Vec<String>)
        ensures
            text::texts(args@) == packages::uninstall_args(source@),
    {
        uninstall_command(source)
    }
}

/// The port that is proposed next lies behind one that was found in use.
pub proof fn law_next_port_advances(state: ManagerState, busy: Seq<u16>, port: u16, next: u16)
    requires
        state.free(busy, port as int),
        forall|q: int| FIRST_PORT <= q < port ==> !state.free(busy, q),
        state.free(busy.push(port), next as int),
    ensures
        next > port,
{
    assert(busy.push(port)[busy.len() as int] == port);
    if next <= port {
        assert(!busy.contains(next)) by {
            if busy.contains(next) {
                let k = choose|k: int| 0 <= k < busy.len() && busy[k] == next;
                assert(busy.push(port)[k] == next);
            }
        }
        assert(state.free(busy, next as int));
    }
}

/// A new process runs beside those that run already, such as the one of the workspace: the port
/// that it gets is none of theirs, and they go on running.
pub proof fn law_new_process_runs_beside_others(
    state: ManagerState,
    busy: Seq<u16>,
    port: u16,
    other: u16,
)
    requires
        state.free(busy, port as int),
        state.running.contains(other),
    ensures
        other != port,
        state.started(port).running.contains(other),
        state.started(port).running.contains(port),
{
}

proof fn lemma_ended(state: ManagerState, ports: Seq<u16>)
    ensures
        forall|w: u16| #[trigger]
            state.ended(ports).dedicated_to(w) == sessions::other_ports(
                state.dedicated_to(w),
                ports,
            ),
        forall|w: u16, port: u16| #[trigger]
            state.ended(ports).dedicated_to(w).contains(port) <==> state.dedicated_to(w).contains(
                port,
            ) && !ports.contains(port),
{
    assert forall|w: u16| #[trigger]
        state.ended(ports).dedicated_to(w) == sessions::other_ports(state.dedicated_to(w), ports) by {
        sessions::lemma_other_ports(Seq::empty(), ports);
    }
    assert forall|w: u16, port: u16| #[trigger]
        state.ended(ports).dedicated_to(w).contains(port) <==> state.dedicated_to(w).contains(port)
            && !ports.contains(port) by {
        sessions::lemma_other_ports(state.dedicated_to(w), ports);
    }
}

/// Killing a process undoes starting it, on a port that had none.
pub proof fn law_kill_undoes_start(state: ManagerState, port: u16)
    requires
        state.consistent(),
        !state.running.contains(port),
    ensures
        state.started(port).killed(port) == state,
{
    let after = state.started(port).killed(port);
    assert(seq![port][0] == port);
    assert(seq![port].contains(port));
    assert(after.running =~= state.running);
    assert(after.sessions =~= state.sessions);
    assert forall|w: u16| #[trigger]
        state.dedicated.contains_key(w) implies sessions::other_ports(
        state.dedicated[w],
        seq![port],
    ) == state.dedicated[w] by {
        sessions::lemma_other_ports(state.dedicated[w], seq![port]);
        assert forall|p: u16| #[trigger] state.dedicated[w].contains(p) implies !seq![
            port,
        ].contains(p) by {
            assert(state.dedicated_to(w).contains(p));
        }
    }
    assert(after.dedicated =~= state.dedicated);
}

/// Once a session file has a dedicated process, that process is used for it, in whatever else
/// is started or killed, until it is killed itself, the workspace that its port belongs to is
/// closed, or the file gets another port.
pub proof fn law_session_keeps_its_process(
    state: ManagerState,
    workspace_port: u16,
    session: Seq<char>,
    port: u16,
    other_workspace: u16,
    other_session: Seq<char>,
    other_port: u16,
)
    requires
        state.running.contains(port),
    ensures
        ({
            let after = state.dedicating(workspace_port, session, port);
            &&& after.process_of(session) == Some(port)
            &&& after.started(other_port).process_of(session) == Some(port)
            &&& other_port != port ==> after.killed(other_port).process_of(session) == Some(port)
            &&& other_session != session ==> after.dedicating(
                other_workspace,
                other_session,
                other_port,
            ).process_of(session) == Some(port)
            &&& !after.dedicated_to(other_workspace).contains(port) ==> after.closed(
                other_workspace,
            ).process_of(session) == Some(port)
        }),
{
}

/// A session file whose process has been killed has none: it is not answered with a port on
/// which nothing of its own runs, neither at once nor after another process got the port.
pub proof fn law_killed_session_has_no_process(
    state: ManagerState,
    session: Seq<char>,
    port: u16,
    workspace_port: u16,
    other_session: Seq<char>,
)
    requires
        state.process_of(session) == Some(port),
        other_session != session,
    ensures
        state.killed(port).process_of(session) is None,
        state.all_killed().process_of(session) is None,
        state.killed(port).started(port).process_of(session) is None,
        state.killed(port).started(port).dedicating(
            workspace_port,
            other_session,
            port,
        ).process_of(session) is None,
{
    assert(seq![port][0] == port);
    assert(seq![port].contains(port));
}

/// Two session files never share a process: where one has a process and another one gets a
/// port for its own, the ports differ, and each file has the process on its port.
pub proof fn law_sessions_share_no_process(
    state: ManagerState,
    session: Seq<char>,
    port: u16,
    busy: Seq<u16>,
    workspace_port: u16,
    new_session: Seq<char>,
    new_port: u16,
)
    requires
        state.process_of(session) == Some(port),
        new_session != session,
        state.free(busy, new_port as int),
    ensures
        new_port != port,
        ({
            let after = state.started(new_port).dedicating(workspace_port, new_session, new_port);
            &&& after.process_of(session) == Some(port)
            &&& after.process_of(new_session) == Some(new_port)
        }),
{
}

/// Closing a workspace ends the processes on the ports that belong to it and no other: none of
/// them runs, no session file and no workspace has one of those ports, and everything else
/// stays as it was.
pub proof fn law_close_ends_dedicated(state: ManagerState, workspace_port: u16)
    ensures
        ({
            let ports = state.dedicated_to(workspace_port);
            let after = state.closed(workspace_port);
            &&& forall|port: u16| #[trigger]
                after.running.contains(port) <==> state.running.contains(port) && !ports.contains(
                    port,
                )
            &&& forall|session: Seq<char>| #[trigger]
                after.sessions.contains_key(session) <==> state.sessions.contains_key(session)
                    && !ports.contains(state.sessions[session])
            &&& forall|session: Seq<char>| #[trigger]
                after.sessions.contains_key(session) ==> after.sessions[session]
                    == state.sessions[session]
            &&& after.dedicated_to(workspace_port) == Seq::<u16>::empty()
            &&& forall|other: u16|
                other != workspace_port ==> #[trigger] after.dedicated_to(other)
                    == sessions::other_ports(state.dedicated_to(other), ports)
        }),
{
    let ports = state.dedicated_to(workspace_port);
    lemma_ended(state, ports);
    assert forall|other: u16| other != workspace_port implies #[trigger] state.closed(
        workspace_port,
    ).dedicated_to(other) == sessions::other_ports(state.dedicated_to(other), ports) by {
        assert(state.closed(workspace_port).dedicated_to(other) == state.ended(
            ports,
        ).dedicated_to(other));
    }
}

/// Closing a workspace leaves alone what is not its own: a process that was started on a free
/// port and not for this workspace runs on, and the other workspaces keep their ports.
pub proof fn law_close_spares_others(
    state: ManagerState,
    workspace_port: u16,
    other: u16,
    session: Seq<char>,
    busy: Seq<u16>,
    port: u16,
)
    requires
        state.consistent(),
        state.free(busy, port as int),
        other != workspace_port,
    ensures
        state.started(port).closed(workspace_port).running.contains(port),
        state.started(port).dedicating(other, session, port).closed(
            workspace_port,
        ).process_of(session) == Some(port),
        state.closed(workspace_port).dedicated_to(other) == state.dedicated_to(other),
{
    let ports = state.dedicated_to(workspace_port);
    assert(!ports.contains(port));
    assert(state.started(port).dedicated_to(workspace_port) == ports);
    assert(state.started(port).dedicating(other, session, port).dedicated_to(workspace_port)
        == ports);
    law_close_ends_dedicated(state, workspace_port);
    sessions::lemma_other_ports(state.dedicated_to(other), ports);
}

/// A session process ends with its workspace: what was started and dedicated to it does not
/// run after it is closed, and its session file has no process.
pub proof fn law_close_ends_session(
    state: ManagerState,
    workspace_port: u16,
    session: Seq<char>,
    port: u16,
)
    ensures
        ({
            let after = state.started(port).dedicating(workspace_port, session, port).closed(
                workspace_port,
            );
            &&& !after.running.contains(port)
            &&& !after.sessions.contains_key(session)
        }),
{
    let open = state.started(port).dedicating(workspace_port, session, port);
    let ports = state.dedicated_to(workspace_port).push(port);
    assert(open.dedicated_to(workspace_port) == ports);
    assert(ports[ports.len() - 1] == port);
    assert(ports.contains(port));
}

/// Closing a workspace a second time changes nothing and kills nothing.
pub proof fn law_close_once(state: ManagerState, workspace_port: u16)
    ensures
        state.closed(workspace_port).dedicated_to(workspace_port) == Seq::<u16>::empty(),
        state.closed(workspace_port).closed(workspace_port) == state.closed(workspace_port),
{
    let once = state.closed(workspace_port);
    let twice = once.closed(workspace_port);
    assert(twice.running =~= once.running);
    assert(twice.sessions =~= once.sessions);
    assert forall|w: u16| #[trigger]
        once.dedicated.contains_key(w) implies sessions::other_ports(
        once.dedicated[w],
        Seq::empty(),
    ) == once.dedicated[w] by {
        sessions::lemma_other_ports(once.dedicated[w], Seq::empty());
    }
    assert(twice.dedicated =~= once.dedicated);
}

proof fn lemma_ended_is_consistent(state: ManagerState, ports: Seq<u16>)
    requires
        state.consistent(),
    ensures
        state.ended(ports).consistent(),
{
    let after = state.ended(ports);
    lemma_ended(state, ports);
    assert forall|s: Seq<char>| #[trigger]
        after.sessions.contains_key(s) implies after.running.contains(after.sessions[s]) by {
        assert(state.sessions.contains_key(s));
    }
    assert forall|s: Seq<char>| #[trigger] after.sessions.contains_key(s) implies after.belongs(
        after.sessions[s],
    ) by {
        assert(state.sessions.contains_key(s));
        let port = state.sessions[s];
        let w = choose|w: u16| #[trigger] state.dedicated_to(w).contains(port);
        assert(after.dedicated_to(w).contains(port));
    }
    assert forall|a: Seq<char>, b: Seq<char>| #[trigger]
        after.sessions.contains_key(a) && #[trigger] after.sessions.contains_key(b) && a
            != b implies after.sessions[a] != after.sessions[b] by {
        assert(state.sessions.contains_key(a) && state.sessions.contains_key(b));
    }
    assert forall|w: u16, port: u16| #[trigger]
        after.dedicated_to(w).contains(port) implies after.running.contains(port) by {
        assert(state.dedicated_to(w).contains(port));
    }
    assert forall|a: u16, b: u16, port: u16| #[trigger]
        after.dedicated_to(a).contains(port) && #[trigger] after.dedicated_to(b).contains(
            port,
        ) implies a == b by {
        assert(state.dedicated_to(a).contains(port) && state.dedicated_to(b).contains(port));
    }
}

/// Session files and workspaces have ports with a process only and share none, and the port of
/// every session file belongs to a workspace: this holds at first, and starting, killing and
/// closing keep it, as does dedicating a process that was started on a free port.
pub proof fn law_stays_consistent(
    state: ManagerState,
    workspace_port: u16,
    session: Seq<char>,
    busy: Seq<u16>,
    port: u16,
)
    requires
        state.consistent(),
    ensures
        state.started(port).consistent(),
        state.killed(port).consistent(),
        state.all_killed().consistent(),
        state.closed(workspace_port).consistent(),
        state.free(busy, port as int) ==> state.started(port).dedicating(
            workspace_port,
            session,
            port,
        ).consistent(),
{
    let started = state.started(port);
    assert forall|w: u16| #[trigger] started.dedicated_to(w) == state.dedicated_to(w) by {}
    assert forall|s: Seq<char>| #[trigger]
        started.sessions.contains_key(s) implies started.belongs(started.sessions[s]) by {
        assert(state.sessions.contains_key(s));
        let w = choose|w: u16| #[trigger] state.dedicated_to(w).contains(state.sessions[s]);
        assert(started.dedicated_to(w).contains(state.sessions[s]));
    }
    lemma_ended_is_consistent(state, seq![port]);
    let ports = state.dedicated_to(workspace_port);
    let ended = state.ended(ports);
    let closed = state.closed(workspace_port);
    lemma_ended_is_consistent(state, ports);
    assert forall|w: u16, p: u16| #[trigger] closed.dedicated_to(w).contains(p) implies
        ended.dedicated_to(w).contains(p) by {}
    assert forall|s: Seq<char>| #[trigger]
        closed.sessions.contains_key(s) implies closed.belongs(closed.sessions[s]) by {
        assert(ended.sessions.contains_key(s));
        let port = ended.sessions[s];
        let w = choose|w: u16| #[trigger] ended.dedicated_to(w).contains(port);
        lemma_ended(state, ports);
        assert(w != workspace_port);
        assert(closed.dedicated_to(w).contains(port));
    }
    if state.free(busy, port as int) {
        let after = started.dedicating(workspace_port, session, port);
        assert forall|w: u16, p: u16| #[trigger]
            after.dedicated_to(w).contains(p) implies state.dedicated_to(w).contains(p) || (w
            == workspace_port && p == port) by {
            if w == workspace_port {
                let list = ports.push(port);
                assert(after.dedicated_to(w) == list);
                let k = choose|k: int| 0 <= k < list.len() && list[k] == p;
                if k < ports.len() {
                    assert(ports[k] == p);
                }
            }
        }
        assert forall|w: u16| !(#[trigger] state.dedicated_to(w)).contains(port) by {}
        assert forall|s: Seq<char>| #[trigger]
            state.sessions.contains_key(s) implies state.sessions[s] != port by {}
        assert forall|s: Seq<char>| #[trigger]
            after.sessions.contains_key(s) implies after.belongs(after.sessions[s]) by {
            let list = ports.push(port);
            assert(after.dedicated_to(workspace_port) == list);
            if s == session {
                assert(list[ports.len() as int] == port);
                assert(after.dedicated_to(workspace_port).contains(port));
            } else {
                assert(state.sessions.contains_key(s));
                let p = state.sessions[s];
                let w = choose|w: u16| #[trigger] state.dedicated_to(w).contains(p);
                if w == workspace_port {
                    let k = choose|k: int| 0 <= k < ports.len() && ports[k] == p;
                    assert(list[k] == p);
                }
                assert(after.dedicated_to(w).contains(p));
            }
        }
    }
}

/// Starting a process adds its port to those with one and changes nothing else.
pub proof fn law_start_adds_a_port(state: ManagerState, port: u16, other: u16)
    ensures
        state.started(port).running.contains(other) <==> other == port || state.running.contains(
            other,
        ),
        state.started(port).sessions == state.sessions,
        state.started(port).dedicated == state.dedicated,
        state.started(port).static_dir == state.static_dir,
{
}

/// Killing a process takes its port away wherever it was, and leaves everything else: the other
/// processes run on, the other session files keep their ports, and the workspaces keep their
/// other ports in order.
pub proof fn law_kill_takes_the_port_away(
    state: ManagerState,
    port: u16,
    other: u16,
    session: Seq<char>,
    workspace_port: u16,
)
    ensures
        ({
            let after = state.killed(port);
            &&& after.running.contains(other) <==> other != port && state.running.contains(other)
            &&& after.sessions.contains_key(session) <==> state.sessions.contains_key(session)
                && state.sessions[session] != port
            &&& after.sessions.contains_key(session) ==> after.sessions[session]
                == state.sessions[session]
            &&& after.dedicated_to(workspace_port) == sessions::other_ports(
                state.dedicated_to(workspace_port),
                seq![port],
            )
            &&& after.static_dir == state.static_dir
        }),
{
    lemma_ended(state, seq![port]);
    assert(seq![port][0] == port);
    assert(seq![port].contains(port));
    assert(other != port ==> !seq![port].contains(other));
}

/// Killing all processes leaves none, and no session file or workspace with a port.
pub proof fn law_kill_all_leaves_none(
    state: ManagerState,
    port: u16,
    session: Seq<char>,
    workspace_port: u16,
)
    ensures
        !state.all_killed().running.contains(port),
        !state.all_killed().sessions.contains_key(session),
        state.all_killed().dedicated_to(workspace_port) == Seq::<u16>::empty(),
        state.all_killed().static_dir == state.static_dir,
{
}

/// Dedicating a process gives its port to the session file and puts it last among those of the
/// workspace. Other session files and workspaces keep theirs, and the processes run on.
pub proof fn law_dedication_gives_the_port(
    state: ManagerState,
    workspace_port: u16,
    session: Seq<char>,
    port: u16,
    other_session: Seq<char>,
    other_workspace: u16,
)
    ensures
        ({
            let after = state.dedicating(workspace_port, session, port);
            &&& after.sessions.contains_key(session) && after.sessions[session] == port
            &&& other_session != session ==> (after.sessions.contains_key(other_session)
                <==> state.sessions.contains_key(other_session))
            &&& other_session != session && state.sessions.contains_key(other_session)
                ==> after.sessions[other_session] == state.sessions[other_session]
            &&& after.dedicated_to(workspace_port) == state.dedicated_to(workspace_port).push(port)
            &&& other_workspace != workspace_port ==> after.dedicated_to(other_workspace)
                == state.dedicated_to(other_workspace)
            &&& after.running == state.running
            &&& after.static_dir == state.static_dir
        }),
{
}

/// The ports of a workspace are those kept for it, and none if none are.
pub proof fn law_ports_of_a_workspace(state: ManagerState, workspace_port: u16)
    ensures
        state.dedicated.contains_key(workspace_port) ==> state.dedicated_to(workspace_port)
            == state.dedicated[workspace_port],
        !state.dedicated.contains_key(workspace_port) ==> state.dedicated_to(workspace_port)
            == Seq::<u16>::empty(),
        state.closed(workspace_port).static_dir == state.static_dir,
{
}

/// A port is free from 47821 on, if no process runs there and it was not found in use.
pub proof fn law_free_ports(state: ManagerState, busy: Seq<u16>, port: u16)
    ensures
        state.free(busy, port as int) <==> port >= 47821 && !state.running.contains(port)
            && !busy.contains(port),
{
}

/// A session file has a process exactly if it has a port and a process runs there.
pub proof fn law_process_of_a_session(state: ManagerState, session: Seq<char>, port: u16)
    ensures
        state.process_of(session) == Some(port) <==> state.sessions.contains_key(session)
            && state.sessions[session] == port && state.running.contains(port),
{
}

/// What is said of a process that could not be started names the binary and the reason, whole.
pub proof fn law_spawn_failure_names_binary_and_reason(binary: Seq<char>, error: Seq<char>)
    ensures
        spawn_failed(binary, error) == "Failed to spawn omp ("@ + binary + "): "@ + error
            + ". Make sure omp is installed (brew install omp) and on your PATH."@,
{
}

} // verus!
