//! Which omp binary is run, and the version that it reports.
use crate::platform::Platform;
use crate::shell;
use crate::shell::decode_lossy;
use crate::text;
use crate::text::trim;
use vstd::prelude::*;

verus! {

/// The file name of the omp binary.
pub fn omp_bin_name(platform: Platform) -> (name: &'static str)
    ensures
        name@ == (if platform is Windows {
            "omp.exe"@
        } else {
            "omp"@
        }),
{
    match platform {
        Platform::Windows => "omp.exe",
        Platform::Unix => "omp",
    }
}

/// The path that the `OMP_BIN` variable names.
pub fn omp_override(omp_bin: &str) -> (path: &str)
    ensures
        path@ == text::trimmed(omp_bin@),
{
    trim(omp_bin)
}

/// What is said where there is no omp binary.
pub open spec fn omp_not_found() -> Seq<char> {
    "Could not find omp binary on PATH.\n\nInstall omp via:\n  brew install omp\n\nOr set OMP_BIN to the path of your omp binary."@
}

/// The omp binary to run: the file that `OMP_BIN` names if there is one, otherwise the binary
/// found on the search path. `override_is_file` tells whether there is a file at
/// [`omp_override`].
pub fn resolve_omp(
    omp_bin: Option<&str>,
    override_is_file: bool,
    on_path: Option<String>,
) -> (binary: Result<String, String>)
    ensures
        match (omp_bin, on_path) {
            (Some(explicit), _) if override_is_file => binary matches Ok(path) && path@
                == text::trimmed(explicit@),
            (_, Some(found)) => binary matches Ok(path) && path@ == found@,
            _ => binary matches Err(message) && message@ == omp_not_found(),
        },
{
    if let Some(explicit) = omp_bin {
        if override_is_file {
            return Ok(omp_override(explicit).to_owned());
        }
    }
    match on_path {
        Some(found) => Ok(found),
        None => Err(
            "Could not find omp binary on PATH.\n\nInstall omp via:\n  brew install omp\n\nOr set OMP_BIN to the path of your omp binary.".to_owned(),
        ),
    }
}

/// The binary that is asked for its version: the one that `OMP_BIN` names, as it stands there,
/// otherwise the one found on the search path.
pub fn version_binary(omp_bin: Option<String>, on_path: Option<String>) -> (binary: Option<String>)
    ensures
        binary == (if omp_bin is Some {
            omp_bin
        } else {
            on_path
        }),
{
    if omp_bin.is_some() {
        omp_bin
    } else {
        on_path
    }
}

/// How asking the binary for its version went.
pub enum VersionRun {
    /// There is no binary to ask.
    NoBinary,
    /// The binary could not be run.
    Failed,
    /// What the binary wrote.
    Wrote(Vec<u8>),
}

/// The version of the omp binary, as it reports it.
pub fn locked_omp_version(run: &VersionRun) -> (version: String)
    ensures
        version@ == (match *run {
            VersionRun::NoBinary => "unknown (omp not found on PATH)"@,
            VersionRun::Failed => "unknown"@,
            VersionRun::Wrote(stdout) => text::trimmed(shell::lossy(stdout@)),
        }),
{
    match run {
        VersionRun::NoBinary => "unknown (omp not found on PATH)".to_owned(),
        VersionRun::Failed => "unknown".to_owned(),
        VersionRun::Wrote(stdout) => trim(decode_lossy(stdout).as_str()).to_owned(),
    }
}

} // verus!
