//! What an omp process is started with.
use crate::platform::Platform;
use crate::text;
use crate::text::decimal_text;
use crate::windows;
use crate::windows::{sanitize_extension_path_for_omp, strip_verbatim_prefix};
use vstd::prelude::*;

verus! {

/// A process to start.
#[verifier::ext_equal]
pub struct Launch {
    pub program: Seq<char>,
    pub args: Seq<Seq<char>>,
    /// The directory to run in, if not the one of this process.
    pub cwd: Option<Seq<char>>,
    /// The environment variables that are set for it.
    pub env: Seq<(Seq<char>, Seq<char>)>,
}

/// A process to start.
pub struct LaunchPlan {
    pub program: String,
    pub args: Vec<String>,
    /// The directory to run in, if not the one of this process.
    pub cwd: Option<String>,
    /// The environment variables that are set for it.
    pub env: Vec<(String, String)>,
}

/// The texts of a list of pairs.
pub open spec fn pair_texts(list: Seq<(String, String)>) -> Seq<(Seq<char>, Seq<char>)> {
    Seq::new(list.len(), |i: int| (list[i].0@, list[i].1@))
}

impl View for LaunchPlan {
    type V = Launch;

    open spec fn view(&self) -> Launch {
        Launch {
            program: self.program@,
            args: text::texts(self.args@),
            cwd: match self.cwd {
                Some(dir) => Some(dir@),
                None => None,
            },
            env: pair_texts(self.env@),
        }
    }
}

/// What is known of the system that omp processes are started on.
pub struct ChildHost {
    pub platform: Platform,
    /// The search path for the processes.
    pub path: String,
    /// The version of omp.
    pub omp_version: String,
}

/// The arguments of an omp process that serves the web interface.
pub open spec fn server_args(extension: Seq<char>, session: Option<Seq<char>>) -> Seq<Seq<char>> {
    let args = seq!["--extension"@, extension, "--mode"@, "rpc"@];
    match session {
        Some(file) => args + seq!["--session"@, file],
        None => args,
    }
}

/// The environment of an omp process that serves the web interface.
pub open spec fn server_env(
    path: Seq<char>,
    static_dir: Seq<char>,
    port: u16,
    omp_version: Seq<char>,
) -> Seq<(Seq<char>, Seq<char>)> {
    seq![
        ("PATH"@, path),
        ("OMCOT_STATIC_DIR"@, static_dir),
        ("OMCOT_PORT"@, text::decimal(port as nat)),
        ("OMCOT_OMP_VERSION"@, omp_version),
    ]
}

/// The session file as it is passed to omp.
pub open spec fn passed_session(session: Option<Seq<char>>, platform: Platform) -> Option<
    Seq<char>,
> {
    match session {
        Some(file) => Some(windows::plain_path(file, platform)),
        None => None,
    }
}

/// The path of the extension as it is passed to omp.
pub open spec fn passed_extension(
    extension: Seq<char>,
    mirrored: Option<Seq<char>>,
    platform: Platform,
) -> Seq<char> {
    let plain = windows::plain_path(extension, platform);
    match mirrored {
        Some(mirror) if windows::must_mirror(plain, platform) => mirror,
        _ => plain,
    }
}

/// The omp process that serves the web interface on a port.
pub open spec fn server(
    binary: Seq<char>,
    extension: Seq<char>,
    mirrored: Option<Seq<char>>,
    static_dir: Seq<char>,
    host: ChildHost,
    cwd: Seq<char>,
    port: u16,
    session: Option<Seq<char>>,
) -> Launch {
    Launch {
        program: windows::plain_path(binary, host.platform),
        args: server_args(
            passed_extension(extension, mirrored, host.platform),
            passed_session(session, host.platform),
        ),
        cwd: Some(windows::plain_path(cwd, host.platform)),
        env: server_env(
            host.path@,
            windows::plain_path(static_dir, host.platform),
            port,
            host.omp_version@,
        ),
    }
}

/// Plans the omp process that serves the web interface on a port. Every path that it is handed
/// is in the plain form.
pub fn plan_server(
    binary: &str,
    extension: &str,
    mirrored: Option<&str>,
    static_dir: &str,
    host: &ChildHost,
    cwd: &str,
    port: u16,
    session_path: Option<&str>,
) -> (plan: LaunchPlan)
    ensures
        plan@ == server(
            binary@,
            extension@,
            text::optional_text(mirrored),
            static_dir@,
            *host,
            cwd@,
            port,
            text::optional_text(session_path),
        ),
{
    let plain = strip_verbatim_prefix(extension, host.platform);
    let passed = sanitize_extension_path_for_omp(plain.as_str(), host.platform, mirrored);
    let mut args: Vec<String> = vec![
        "--extension".to_owned(),
        passed,
        "--mode".to_owned(),
        "rpc".to_owned(),
    ];
    if let Some(session) = session_path {
        args.push("--session".to_owned());
        args.push(strip_verbatim_prefix(session, host.platform));
    }
    let env: Vec<(String, String)> = vec![
        ("PATH".to_owned(), host.path.clone()),
        ("OMCOT_STATIC_DIR".to_owned(), strip_verbatim_prefix(static_dir, host.platform)),
        ("OMCOT_PORT".to_owned(), decimal_text(port)),
        ("OMCOT_OMP_VERSION".to_owned(), host.omp_version.clone()),
    ];
    let plan = LaunchPlan {
        program: strip_verbatim_prefix(binary, host.platform),
        args,
        cwd: Some(strip_verbatim_prefix(cwd, host.platform)),
        env,
    };
    assert(plan@.args =~= server_args(
        passed_extension(extension@, text::optional_text(mirrored), host.platform),
        passed_session(text::optional_text(session_path), host.platform),
    ));
    assert(plan@.env =~= server_env(
        host.path@,
        windows::plain_path(static_dir@, host.platform),
        port,
        host.omp_version@,
    ));
    plan
}

/// A command of the omp binary.
pub open spec fn command(
    binary: Seq<char>,
    args: Seq<Seq<char>>,
    platform: Platform,
    path: Seq<char>,
) -> Launch {
    Launch {
        program: windows::plain_path(binary, platform),
        args,
        cwd: None,
        env: seq![("PATH"@, path)],
    }
}

/// Plans a command of the omp binary.
pub fn plan_command(binary: &str, args: Vec<String>, platform: Platform, path: String) -> (plan:
    LaunchPlan)
    ensures
        plan@ == command(binary@, text::texts(args@), platform, path@),
{
    let env: Vec<(String, String)> = vec![("PATH".to_owned(), path)];
    let plan = LaunchPlan {
        program: strip_verbatim_prefix(binary, platform),
        args,
        cwd: None,
        env,
    };
    assert(plan@.env =~= seq![("PATH"@, path@)]);
    plan
}

/// A process is told the port that it was planned for, with or without a session file: its
/// environment holds `OMCOT_PORT` once, with a text that reads back as that port. So plans for
/// different ports differ in it.
pub proof fn law_server_is_told_its_port(
    binary: Seq<char>,
    extension: Seq<char>,
    mirrored: Option<Seq<char>>,
    static_dir: Seq<char>,
    host: ChildHost,
    cwd: Seq<char>,
    port: u16,
    session: Option<Seq<char>>,
    other_port: u16,
    other_session: Option<Seq<char>>,
)
    ensures
        ({
            let env = server(
                binary,
                extension,
                mirrored,
                static_dir,
                host,
                cwd,
                port,
                session,
            ).env;
            let other = server(
                binary,
                extension,
                mirrored,
                static_dir,
                host,
                cwd,
                other_port,
                other_session,
            ).env;
            &&& env.len() == 4
            &&& env[2].0 == "OMCOT_PORT"@
            &&& text::number(env[2].1) == port
            &&& forall|i: int|
                0 <= i < 4 && (#[trigger] env[i]).0 == "OMCOT_PORT"@ ==> env[i].1 == text::decimal(
                    port as nat,
                )
            &&& port != other_port ==> env[2].1 != other[2].1
        }),
{
    text::law_decimal_reads_back(port as nat);
    text::law_decimal_reads_back(other_port as nat);
    reveal_strlit("PATH");
    reveal_strlit("OMCOT_STATIC_DIR");
    reveal_strlit("OMCOT_PORT");
    reveal_strlit("OMCOT_OMP_VERSION");
    assert("PATH"@.len() != "OMCOT_PORT"@.len());
    assert("OMCOT_STATIC_DIR"@.len() != "OMCOT_PORT"@.len());
    assert("OMCOT_OMP_VERSION"@.len() != "OMCOT_PORT"@.len());
}

/// A process gets the search path, the version and the static files of its own, in the
/// directory that it was planned for, whatever its port and its session file are, and runs the
/// binary. The paths are in the plain form.
pub proof fn law_server_gets_what_it_was_planned_with(
    binary: Seq<char>,
    extension: Seq<char>,
    mirrored: Option<Seq<char>>,
    static_dir: Seq<char>,
    host: ChildHost,
    cwd: Seq<char>,
    port: u16,
    session: Option<Seq<char>>,
)
    ensures
        ({
            let plan = server(
                binary,
                extension,
                mirrored,
                static_dir,
                host,
                cwd,
                port,
                session,
            );
            &&& plan.program == windows::plain_path(binary, host.platform)
            &&& plan.cwd == Some(windows::plain_path(cwd, host.platform))
            &&& plan.env[0] == ("PATH"@, host.path@)
            &&& plan.env[1] == (
                "OMCOT_STATIC_DIR"@,
                windows::plain_path(static_dir, host.platform),
            )
            &&& plan.env[3] == ("OMCOT_OMP_VERSION"@, host.omp_version@)
        }),
{
}

/// A process serves by its extension: the plain path of the extension is the argument behind
/// `--extension`, or the mirror where there is one and the plain path has a space on Windows.
pub proof fn law_server_loads_its_extension(
    binary: Seq<char>,
    extension: Seq<char>,
    mirrored: Option<Seq<char>>,
    static_dir: Seq<char>,
    host: ChildHost,
    cwd: Seq<char>,
    port: u16,
    session: Option<Seq<char>>,
)
    ensures
        ({
            let args = server(
                binary,
                extension,
                mirrored,
                static_dir,
                host,
                cwd,
                port,
                session,
            ).args;
            let plain = windows::plain_path(extension, host.platform);
            &&& args.len() >= 4
            &&& args[0] == "--extension"@
            &&& args[2] == "--mode"@
            &&& args[3] == "rpc"@
            &&& mirrored is None || host.platform is Unix || !plain.contains(' ') ==> args[1]
                == plain
            &&& mirrored matches Some(mirror) ==> (host.platform is Windows && plain.contains(' ')
                ==> args[1] == mirror)
        }),
{
}

/// A session file changes the arguments of a process and nothing else: `--session` and the plain
/// path of the file are put behind them.
pub proof fn law_session_file_adds_arguments_only(
    binary: Seq<char>,
    extension: Seq<char>,
    mirrored: Option<Seq<char>>,
    static_dir: Seq<char>,
    host: ChildHost,
    cwd: Seq<char>,
    port: u16,
    session: Seq<char>,
)
    ensures
        ({
            let alone = server(
                binary,
                extension,
                mirrored,
                static_dir,
                host,
                cwd,
                port,
                None,
            );
            let with_session = server(
                binary,
                extension,
                mirrored,
                static_dir,
                host,
                cwd,
                port,
                Some(session),
            );
            &&& alone.args.len() == 4
            &&& with_session.args == alone.args.push("--session"@).push(
                windows::plain_path(session, host.platform),
            )
            &&& with_session.program == alone.program
            &&& with_session.cwd == alone.cwd
            &&& with_session.env == alone.env
        }),
{
    let alone = server_args(passed_extension(extension, mirrored, host.platform), None);
    let file = windows::plain_path(session, host.platform);
    assert(alone + seq!["--session"@, file] =~= alone.push("--session"@).push(file));
}

/// A command of the omp binary gets the arguments as they are, the search path as the only
/// variable, and no directory of its own.
pub proof fn law_command_gets_its_arguments(
    binary: Seq<char>,
    args: Seq<Seq<char>>,
    platform: Platform,
    path: Seq<char>,
)
    ensures
        command(binary, args, platform, path).program == windows::plain_path(binary, platform),
        command(binary, args, platform, path).args == args,
        command(binary, args, platform, path).cwd is None,
        command(binary, args, platform, path).env.len() == 1,
        command(binary, args, platform, path).env[0] == ("PATH"@, path),
{
}

/// A plan stands for the process with its texts: the program, each argument and each variable in
/// order, and the directory if there is one.
pub proof fn law_plan_stands_for_its_process(plan: LaunchPlan)
    ensures
        plan@.program == plan.program@,
        plan@.args.len() == plan.args@.len(),
        forall|i: int| 0 <= i < plan.args@.len() ==> #[trigger] plan@.args[i] == plan.args@[i]@,
        plan.cwd is None ==> plan@.cwd is None,
        plan.cwd matches Some(dir) ==> plan@.cwd == Some(dir@),
        plan@.env.len() == plan.env@.len(),
        forall|i: int|
            0 <= i < plan.env@.len() ==> (#[trigger] plan@.env[i]).0 == plan.env@[i].0@
                && plan@.env[i].1 == plan.env@[i].1@,
{
}

} // verus!
