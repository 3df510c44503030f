use omp_manager::omp_binary::{
    locked_omp_version, omp_bin_name, omp_override, resolve_omp, version_binary, VersionRun,
};
use omp_manager::platform::Platform;
use omp_manager::shell::{command_result, finish_command, CommandOutput};

const NOT_FOUND: &str = "Could not find omp binary on PATH.\n\n\
    Install omp via:\n  brew install omp\n\n\
    Or set OMP_BIN to the path of your omp binary.";

fn args(list: &[&str]) -> Vec<String> {
    list.iter().map(|arg| arg.to_string()).collect()
}

fn output(success: bool, stdout: &[u8], stderr: &[u8]) -> Result<CommandOutput, String> {
    Ok(CommandOutput {
        success,
        status: "exit status: 3".to_string(),
        stdout: stdout.to_vec(),
        stderr: stderr.to_vec(),
    })
}

#[test]
fn binaries_are_named_for_the_platform() {
    assert_eq!(omp_bin_name(Platform::Unix), "omp");
    assert_eq!(omp_bin_name(Platform::Windows), "omp.exe");
}

#[test]
fn the_override_comes_before_the_search_path() {
    let found = Some("/usr/bin/omp".to_string());
    assert_eq!(omp_override(" /tmp/omp\n"), "/tmp/omp");
    assert_eq!(resolve_omp(Some(" /tmp/omp\n"), true, found.clone()), Ok("/tmp/omp".to_string()));
    assert_eq!(resolve_omp(Some("/tmp/omp"), false, found.clone()), Ok("/usr/bin/omp".to_string()));
    assert_eq!(resolve_omp(None, false, found), Ok("/usr/bin/omp".to_string()));
}

#[test]
fn a_missing_binary_is_reported() {
    assert_eq!(resolve_omp(None, false, None), Err(NOT_FOUND.to_string()));
    assert_eq!(resolve_omp(Some("/tmp/omp"), false, None), Err(NOT_FOUND.to_string()));
}

#[test]
fn versions_are_read_from_what_the_binary_wrote() {
    assert_eq!(locked_omp_version(&VersionRun::NoBinary), "unknown (omp not found on PATH)");
    assert_eq!(locked_omp_version(&VersionRun::Failed), "unknown");
    assert_eq!(locked_omp_version(&VersionRun::Wrote(b" omp 17.0.1\n".to_vec())), "omp 17.0.1");
    let broken = VersionRun::Wrote(vec![b'v', 0xff, b'1', b'\n']);
    assert_eq!(locked_omp_version(&broken), "v\u{fffd}1");
    let env = Some(" /tmp/omp".to_string());
    let found = Some("/usr/bin/omp".to_string());
    assert_eq!(version_binary(env.clone(), found.clone()), env);
    assert_eq!(version_binary(None, found.clone()), found);
    assert_eq!(version_binary(None, None), None);
}

#[test]
fn the_output_of_a_command_is_trimmed() {
    let result = finish_command("omp", &args(&["plugin"]), output(true, b" {} \n", b"noise"));
    assert_eq!(result, Ok("{}".to_string()));
}

#[test]
fn failed_commands_are_blamed_on_what_they_wrote() {
    let list = args(&["plugin", "a \"b\"\n"]);
    let shown = "[\"plugin\", \"a \\\"b\\\"\\n\"]";
    let result = finish_command("/bin/omp", &list, output(false, b"out", b" err\n"));
    assert_eq!(result, Err(format!("Omp command failed: /bin/omp {}: err", shown)));
    let result = finish_command("/bin/omp", &list, output(false, b" out ", b" \n"));
    assert_eq!(result, Err(format!("Omp command failed: /bin/omp {}: out", shown)));
    let result = finish_command("/bin/omp", &list, output(false, b"", b""));
    assert_eq!(
        result,
        Err(format!("Omp command failed: /bin/omp {}: exit status exit status: 3", shown))
    );
    let result = finish_command("/bin/omp", &list, Err("no such file".to_string()));
    assert_eq!(result, Err(format!("Failed to run omp command (/bin/omp {}): no such file", shown)));
}

#[test]
fn results_of_commands_from_text() {
    assert_eq!(command_result("p", "[]", true, "s", " o ", "e"), Ok("o".to_string()));
    assert_eq!(
        command_result("p", "[]", false, "s", " o ", ""),
        Err("Omp command failed: p []: o".to_string())
    );
    assert_eq!(
        command_result("p", "[]", false, "s", "", ""),
        Err("Omp command failed: p []: exit status s".to_string())
    );
}
