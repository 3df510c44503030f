//! The search path that child processes get.
//!
//! The directories of well-known tools are put behind those that `PATH` lists already, so that
//! `npm`, `npx` and the like are reachable from a child process.
use crate::location;
use crate::location::{Location, Place};
use crate::platform::Platform;
use crate::posix;
use crate::posix::components_of;
use crate::text;
use crate::text::{contains_char, join_texts, same_texts, split_at_each};
use vstd::prelude::*;

verus! {

/// The directory for the commands of the packages that omp has installed from npm.
pub open spec fn npm_bin(home: Seq<char>) -> Place {
    Place::at(home).join(".omp"@).join("agent"@).join("npm"@).join("node_modules"@).join(".bin"@)
}

/// The directory for the commands of the packages that omp has installed from npm.
pub fn omp_extension_npm_bin_dir(home: &str) -> (dir: Location)
    ensures
        dir@ == npm_bin(home@),
{
    Location::at(home).join(".omp").join("agent").join("npm").join("node_modules").join(".bin")
}

/// The directory that nvm keeps its node versions in.
pub fn nvm_root(home: &str) -> (dir: Location)
    ensures
        dir@ == Place::at(home@).join(".nvm/versions/node"@),
{
    Location::at(home).join(".nvm/versions/node")
}

/// The commands of one node version of nvm.
pub fn nvm_bin_dir(home: &str, version: &str) -> (dir: Location)
    ensures
        dir@ == nvm_bin(home@, version@),
{
    nvm_root(home).join(version).join("bin")
}

/// The commands of one node version of nvm.
pub open spec fn nvm_bin(home: Seq<char>, version: Seq<char>) -> Place {
    Place::at(home).join(".nvm/versions/node"@).join(version).join("bin"@)
}

/// The directories that are looked for on every Unix system.
pub open spec fn system_dirs() -> Seq<Place> {
    seq![
        Place::at("/opt/homebrew/bin"@),
        Place::at("/opt/homebrew/sbin"@),
        Place::at("/usr/local/bin"@),
        Place::at("/usr/local/sbin"@),
        Place::at("/usr/bin"@),
        Place::at("/bin"@),
    ]
}

/// The directories of tools in a home directory on Unix.
pub open spec fn home_dirs(home: Seq<char>) -> Seq<Place> {
    seq![
        npm_bin(home),
        Place::at(home).join(".local/bin"@),
        Place::at(home).join(".bun/bin"@),
        Place::at(home).join(".volta/bin"@),
        Place::at(home).join(".cargo/bin"@),
        Place::at(home).join(".local/share/mise/shims"@),
    ]
}

/// The commands of the node versions of nvm.
pub open spec fn nvm_dirs(home: Seq<char>, versions: Seq<Seq<char>>) -> Seq<Place> {
    Seq::new(versions.len(), |i: int| nvm_bin(home, versions[i]))
}

/// The directories that a Unix search path is completed with.
pub open spec fn unix_extras(home: Option<Seq<char>>, versions: Seq<Seq<char>>) -> Seq<Place> {
    match home {
        Some(h) => system_dirs() + home_dirs(h) + nvm_dirs(h, versions),
        None => system_dirs(),
    }
}

/// The directories that a Unix search path is completed with: those of the system, and with a
/// home directory those of the tools in it, last those of the node versions of nvm that have
/// been found.
pub fn unix_extra_dirs(home: Option<&str>, node_versions: &Vec<String>) -> (dirs: Vec<Location>)
    ensures
        location::places(dirs@) == unix_extras(text::optional_text(home), text::texts(node_versions@)),
{
    let mut dirs: Vec<Location> = Vec::new();
    dirs.push(Location::at("/opt/homebrew/bin"));
    dirs.push(Location::at("/opt/homebrew/sbin"));
    dirs.push(Location::at("/usr/local/bin"));
    dirs.push(Location::at("/usr/local/sbin"));
    dirs.push(Location::at("/usr/bin"));
    dirs.push(Location::at("/bin"));
    assert(location::places(dirs@) =~= system_dirs());
    if let Some(h) = home {
        dirs.push(omp_extension_npm_bin_dir(h));
        dirs.push(Location::at(h).join(".local/bin"));
        dirs.push(Location::at(h).join(".bun/bin"));
        dirs.push(Location::at(h).join(".volta/bin"));
        dirs.push(Location::at(h).join(".cargo/bin"));
        dirs.push(Location::at(h).join(".local/share/mise/shims"));
        let ghost versions = text::texts(node_versions@);
        let ghost before = system_dirs() + home_dirs(h@);
        assert(location::places(dirs@) =~= before);
        assert(before + nvm_dirs(h@, versions.take(0)) =~= before);
        for i in 0..node_versions.len()
            invariant
                versions == text::texts(node_versions@),
                location::places(dirs@) == before + nvm_dirs(h@, versions.take(i as int)),
        {
            let ghost done = location::places(dirs@);
            dirs.push(nvm_bin_dir(h, node_versions[i].as_str()));
            assert(location::places(dirs@) =~= done.push(nvm_bin(h@, versions[i as int])));
            assert(location::places(dirs@) =~= before + nvm_dirs(h@, versions.take(i + 1)));
        }
        assert(versions.take(versions.len() as int) =~= versions);
    }
    dirs
}

/// The directories that a Windows search path is completed with.
pub open spec fn windows_extras(
    appdata: Option<Seq<char>>,
    userprofile: Option<Seq<char>>,
    home: Option<Seq<char>>,
) -> Seq<Place> {
    let npm = match appdata {
        Some(data) => seq![Place::at(data).join("npm"@)],
        None => Seq::empty(),
    };
    let tools = match (if userprofile is Some {
        userprofile
    } else {
        home
    }) {
        Some(h) => seq![
            npm_bin(h),
            Place::at(h).join(".cargo"@).join("bin"@),
            Place::at(h).join(".bun"@).join("bin"@),
            Place::at(h).join("scoop"@).join("shims"@),
        ],
        None => Seq::empty(),
    };
    npm + tools
}

/// The directories that a Windows search path is completed with. `USERPROFILE` names the home
/// directory, and `HOME` does where it is not set.
pub fn windows_extra_dirs(
    appdata: Option<&str>,
    userprofile: Option<&str>,
    home: Option<&str>,
) -> (dirs: Vec<Location>)
    ensures
        location::places(dirs@) == windows_extras(
            text::optional_text(appdata),
            text::optional_text(userprofile),
            text::optional_text(home),
        ),
{
    let mut dirs: Vec<Location> = Vec::new();
    if let Some(data) = appdata {
        dirs.push(Location::at(data).join("npm"));
    }
    let profile = if userprofile.is_some() {
        userprofile
    } else {
        home
    };
    if let Some(h) = profile {
        dirs.push(omp_extension_npm_bin_dir(h));
        dirs.push(Location::at(h).join(".cargo").join("bin"));
        dirs.push(Location::at(h).join(".bun").join("bin"));
        dirs.push(Location::at(h).join("scoop").join("shims"));
    }
    assert(location::places(dirs@) =~= windows_extras(
        text::optional_text(appdata),
        text::optional_text(userprofile),
        text::optional_text(home),
    ));
    dirs
}

/// A directory of a search path: its text, and the components that it is compared by.
pub struct Dir {
    pub text: Seq<char>,
    pub components: Seq<Seq<char>>,
}

/// A directory of a search path.
pub struct SearchDir {
    /// The path as it stands in the search path.
    pub text: String,
    /// The components of the path. Two paths are the same if their components are.
    pub components: Vec<String>,
}

impl View for SearchDir {
    type V = Dir;

    open spec fn view(&self) -> Dir {
        Dir { text: self.text@, components: text::texts(self.components@) }
    }
}

/// What a list of directories holds.
pub open spec fn dirs_of(list: Seq<SearchDir>) -> Seq<Dir> {
    Seq::new(list.len(), |i: int| list[i]@)
}

/// The texts of a list of directories.
pub open spec fn dir_texts(dirs: Seq<Dir>) -> Seq<Seq<char>> {
    Seq::new(dirs.len(), |i: int| dirs[i].text)
}

/// POSIX paths as directories of a search path.
pub open spec fn posix_dirs(paths: Seq<Seq<char>>) -> Seq<Dir> {
    Seq::new(
        paths.len(),
        |i: int| Dir { text: paths[i], components: posix::components(paths[i]) },
    )
}

impl SearchDir {
    /// The directory at a POSIX path.
    pub fn posix(path: String) -> (dir: SearchDir)
        ensures
            dir@ == (Dir { text: path@, components: posix::components(path@) }),
    {
        let components = components_of(path.as_str());
        SearchDir { text: path, components }
    }

    fn copy(&self) -> (dir: SearchDir)
        ensures
            dir@ == self@,
    {
        let mut components: Vec<String> = Vec::new();
        for i in 0..self.components.len()
            invariant
                text::texts(components@) == text::texts(self.components@).take(i as int),
        {
            let ghost before = text::texts(components@);
            components.push(self.components[i].clone());
            assert(text::texts(components@) =~= before.push(self.components@[i as int]@));
            assert(text::texts(components@) =~= text::texts(self.components@).take(i + 1));
        }
        assert(text::texts(components@) =~= text::texts(self.components@));
        SearchDir { text: self.text.clone(), components }
    }
}

/// Whether a directory is in a list, under whichever text.
pub open spec fn listed(dirs: Seq<Dir>, dir: Dir) -> bool {
    exists|i: int| 0 <= i < dirs.len() && (#[trigger] dirs[i]).components == dir.components
}

/// Whether a directory is in a list, under whichever text.
pub fn lists(dirs: &Vec<SearchDir>, dir: &SearchDir) -> (found: bool)
    ensures
        found == listed(dirs_of(dirs@), dir@),
{
    for i in 0..dirs.len()
        invariant
            forall|j: int| 0 <= j < i ==> (#[trigger] dirs_of(dirs@)[j]).components != dir@.components,
    {
        if same_texts(&dirs[i].components, &dir.components) {
            assert(dirs_of(dirs@)[i as int].components == dir@.components);
            return true;
        }
    }
    false
}

/// A search path with further directories behind it, each where no directory before it is the
/// same.
pub open spec fn with_missing(dirs: Seq<Dir>, extras: Seq<Dir>) -> Seq<Dir>
    decreases extras.len(),
{
    if extras.len() == 0 {
        dirs
    } else {
        let before = with_missing(dirs, extras.drop_last());
        if listed(before, extras.last()) {
            before
        } else {
            before.push(extras.last())
        }
    }
}

/// Puts directories behind a search path, and leaves out those that it lists already.
pub fn append_missing(dirs: Vec<SearchDir>, extras: &Vec<SearchDir>) -> (all: Vec<SearchDir>)
    ensures
        dirs_of(all@) == with_missing(dirs_of(dirs@), dirs_of(extras@)),
{
    let ghost start = dirs_of(dirs@);
    let ghost more = dirs_of(extras@);
    let mut all = dirs;
    assert(more.take(0) =~= Seq::empty());
    for i in 0..extras.len()
        invariant
            more == dirs_of(extras@),
            dirs_of(all@) == with_missing(start, more.take(i as int)),
    {
        assert(more.take(i + 1).drop_last() =~= more.take(i as int));
        if !lists(&all, &extras[i]) {
            let ghost before = dirs_of(all@);
            all.push(extras[i].copy());
            assert(dirs_of(all@) =~= before.push(more[i as int]));
        }
    }
    assert(more.take(more.len() as int) =~= more);
    all
}

/// The directories that the `PATH` variable lists; none if it is not set.
pub open spec fn path_dirs(path: Option<Seq<char>>) -> Seq<Seq<char>> {
    match path {
        Some(value) => text::split(value, ':'),
        None => Seq::empty(),
    }
}

/// The directories of the search path for child processes on Unix.
pub open spec fn augmented_dirs(
    path: Option<Seq<char>>,
    home: Option<Seq<char>>,
    versions: Seq<Seq<char>>,
) -> Seq<Dir> {
    with_missing(
        posix_dirs(path_dirs(path)),
        posix_dirs(location::posix_paths(unix_extras(home, versions))),
    )
}

/// Whether some directory holds a colon, so that no search path can list it.
pub open spec fn unlistable(dirs: Seq<Seq<char>>) -> bool {
    exists|i: int| 0 <= i < dirs.len() && (#[trigger] dirs[i]).contains(':')
}

/// The search path for child processes on Unix; nothing if it cannot be written.
pub open spec fn augmented_path(
    path: Option<Seq<char>>,
    home: Option<Seq<char>>,
    versions: Seq<Seq<char>>,
) -> Option<Seq<char>> {
    let dirs = dir_texts(augmented_dirs(path, home, versions));
    if unlistable(dirs) {
        None
    } else {
        Some(text::join(dirs, seq![':']))
    }
}

/// Writes directories as a Unix search path, unless one of them holds a colon.
pub fn posix_search_path(dirs: &Vec<SearchDir>) -> (path: Option<String>)
    ensures
        match path {
            Some(value) => !unlistable(dir_texts(dirs_of(dirs@))) && value@ == text::join(
                dir_texts(dirs_of(dirs@)),
                seq![':'],
            ),
            None => unlistable(dir_texts(dirs_of(dirs@))),
        },
{
    let ghost all = dir_texts(dirs_of(dirs@));
    let mut list: Vec<String> = Vec::new();
    for i in 0..dirs.len()
        invariant
            all == dir_texts(dirs_of(dirs@)),
            text::texts(list@) == all.take(i as int),
            forall|j: int| 0 <= j < i ==> !(#[trigger] all[j]).contains(':'),
    {
        if contains_char(dirs[i].text.as_str(), ':') {
            assert(all[i as int].contains(':'));
            return None;
        }
        let ghost before = text::texts(list@);
        list.push(dirs[i].text.clone());
        assert(text::texts(list@) =~= before.push(all[i as int]));
        assert(text::texts(list@) =~= all.take(i + 1));
    }
    assert(all.take(all.len() as int) =~= all);
    proof {
        reveal_strlit(":");
        assert(":"@ =~= seq![':']);
    }
    Some(join_texts(&list, ":"))
}

/// The directories that the `PATH` variable lists on Unix.
pub fn posix_path_dirs(path: Option<&str>) -> (dirs: Vec<SearchDir>)
    ensures
        dirs_of(dirs@) == posix_dirs(path_dirs(text::optional_text(path))),
{
    let mut dirs: Vec<SearchDir> = Vec::new();
    if let Some(value) = path {
        let pieces = split_at_each(value, ':');
        let ghost all = text::texts(pieces@);
        for i in 0..pieces.len()
            invariant
                all == text::texts(pieces@),
                dirs_of(dirs@) == posix_dirs(all.take(i as int)),
        {
            let ghost before = dirs_of(dirs@);
            dirs.push(SearchDir::posix(pieces[i].clone()));
            assert(dirs_of(dirs@) =~= before.push(posix_dirs(all)[i as int]));
            assert(dirs_of(dirs@) =~= posix_dirs(all.take(i + 1)));
        }
        assert(all.take(all.len() as int) =~= all);
    }
    assert(dirs_of(dirs@) =~= posix_dirs(path_dirs(text::optional_text(path))));
    dirs
}

/// Locations as directories of a Unix search path.
pub fn posix_search_dirs(locations: &Vec<Location>) -> (dirs: Vec<SearchDir>)
    ensures
        dirs_of(dirs@) == posix_dirs(location::posix_paths(location::places(locations@))),
{
    let mut dirs: Vec<SearchDir> = Vec::new();
    let ghost all = location::posix_paths(location::places(locations@));
    for i in 0..locations.len()
        invariant
            all == location::posix_paths(location::places(locations@)),
            dirs_of(dirs@) == posix_dirs(all.take(i as int)),
    {
        let ghost before = dirs_of(dirs@);
        dirs.push(SearchDir::posix(locations[i].posix()));
        assert(dirs_of(dirs@) =~= before.push(posix_dirs(all)[i as int]));
        assert(dirs_of(dirs@) =~= posix_dirs(all.take(i + 1)));
    }
    assert(dirs_of(dirs@) =~= posix_dirs(all));
    dirs
}

/// The search path that child processes get on Unix: the completed one if it can be written, and
/// what is left to them otherwise.
pub open spec fn child_path(
    path: Option<Seq<char>>,
    home: Option<Seq<char>>,
    versions: Seq<Seq<char>>,
    fallback: Seq<char>,
) -> Seq<char> {
    match augmented_path(path, home, versions) {
        Some(value) => value,
        None => fallback,
    }
}

/// The search path for child processes on Unix: the value of `PATH`, completed with the
/// directories of well-known tools that it does not list yet. If a directory to add holds a
/// colon, which no search path can list, it is the fallback: the value of `PATH` as it stands,
/// empty if it is not set or not Unicode.
pub fn build_augmented_path(
    path: Option<&str>,
    home: Option<&str>,
    node_versions: &Vec<String>,
    fallback: &str,
) -> (augmented: String)
    ensures
        augmented@ == child_path(
            text::optional_text(path),
            text::optional_text(home),
            text::texts(node_versions@),
            fallback@,
        ),
{
    let dirs = posix_path_dirs(path);
    let extras = posix_search_dirs(&unix_extra_dirs(home, node_versions));
    match posix_search_path(&append_missing(dirs, &extras)) {
        Some(augmented) => augmented,
        None => fallback.to_owned(),
    }
}

/// What is reported of the search path of a child process.
pub struct PathDiagnostics {
    /// The directory for the commands of the npm packages of omp.
    pub omp_extension_bin: Location,
    /// The command `hypa` in it.
    pub hypa_bin: Location,
}

/// Where the commands that a child process needs should be found. `HOME` names the home
/// directory, and `USERPROFILE` does where it is not set; with neither there is nothing to look
/// for.
pub fn child_path_diagnostics(
    home: Option<&str>,
    userprofile: Option<&str>,
    platform: Platform,
) -> (report: Option<PathDiagnostics>)
    ensures
        match (if home is Some {
            home
        } else {
            userprofile
        }) {
            Some(h) => report matches Some(places) && places.omp_extension_bin@ == npm_bin(h@)
                && places.hypa_bin@ == npm_bin(h@).join(
                if platform is Windows {
                    "hypa.cmd"@
                } else {
                    "hypa"@
                },
            ),
            None => report is None,
        },
{
    let found = if home.is_some() {
        home
    } else {
        userprofile
    };
    match found {
        Some(h) => {
            let command = match platform {
                Platform::Windows => "hypa.cmd",
                Platform::Unix => "hypa",
            };
            Some(
                PathDiagnostics {
                    omp_extension_bin: omp_extension_npm_bin_dir(h),
                    hypa_bin: omp_extension_npm_bin_dir(h).join(command),
                },
            )
        },
        None => None,
    }
}

/// What was found at the places of [`PathDiagnostics`].
pub struct PathFindings {
    /// The directory for the commands of the npm packages of omp, as a path of the system.
    pub omp_extension_bin: String,
    /// Whether there is such a directory.
    pub exists: bool,
    /// The command `hypa` in it, as a path of the system.
    pub hypa_bin: String,
    /// Whether there is such a file.
    pub hypa_exists: bool,
    /// Whether the search path lists the directory.
    pub contains_omp_extension_bin: bool,
}

/// How a truth value is reported.
pub open spec fn truth(value: bool) -> Seq<char> {
    if value {
        "true"@
    } else {
        "false"@
    }
}

/// The line that the search path of a child process is reported in.
pub open spec fn diagnostics_line(
    context: Seq<char>,
    path: Seq<char>,
    found: Option<PathFindings>,
) -> Seq<char> {
    let places = match found {
        None => " home=<unset>"@,
        Some(findings) => " omp_extension_bin="@ + findings.omp_extension_bin@ + " exists="@
            + truth(findings.exists) + " hypa_bin="@ + findings.hypa_bin@ + " hypa_exists="@
            + truth(findings.hypa_exists) + " contains_omp_extension_bin="@ + truth(
            findings.contains_omp_extension_bin,
        ),
    };
    "[ompcot] child PATH diagnostics: context="@ + context + places + " path="@ + path
}

fn truth_text(value: bool) -> (text: &'static str)
    ensures
        text@ == truth(value),
{
    if value {
        "true"
    } else {
        "false"
    }
}

/// The line that the search path of a child process is reported in: what it is for, where the
/// commands of omp should be and whether they are there, or that no home directory is known, and
/// the search path itself.
pub fn child_path_line(context: &str, path: &str, found: &Option<PathFindings>) -> (line: String)
    ensures
        line@ == diagnostics_line(context@, path@, *found),
{
    let mut line = "[ompcot] child PATH diagnostics: context=".to_owned();
    line.append(context);
    match found {
        None => {
            line.append(" home=<unset>");
        },
        Some(findings) => {
            let mut places = " omp_extension_bin=".to_owned();
            places.append(findings.omp_extension_bin.as_str());
            places.append(" exists=");
            places.append(truth_text(findings.exists));
            places.append(" hypa_bin=");
            places.append(findings.hypa_bin.as_str());
            places.append(" hypa_exists=");
            places.append(truth_text(findings.hypa_exists));
            places.append(" contains_omp_extension_bin=");
            places.append(truth_text(findings.contains_omp_extension_bin));
            line.append(places.as_str());
        },
    }
    line.append(" path=");
    line.append(path);
    line
}

/// Whether a Unix search path lists a directory, under whichever text.
pub fn posix_path_lists(path: &str, dir: &str) -> (found: bool)
    ensures
        found == exists|i: int|
            0 <= i < text::split(path@, ':').len() && posix::components(
                #[trigger] text::split(path@, ':')[i],
            ) == posix::components(dir@),
{
    let wanted = SearchDir::posix(dir.to_owned());
    let dirs = posix_path_dirs(Some(path));
    let found = lists(&dirs, &wanted);
    proof {
        let pieces = text::split(path@, ':');
        let all = dirs_of(dirs@);
        assert(all == posix_dirs(pieces));
        if found {
            let i = choose|i: int|
                0 <= i < all.len() && (#[trigger] all[i]).components == wanted@.components;
            assert(posix::components(pieces[i]) == posix::components(dir@));
        } else {
            assert forall|i: int| 0 <= i < pieces.len() implies posix::components(
                #[trigger] pieces[i],
            ) != posix::components(dir@) by {
                assert(all[i].components != wanted@.components);
            }
        }
    }
    found
}

/// The directories of a search path stay where they are: what is appended comes behind them.
pub proof fn law_append_keeps_path(dirs: Seq<Dir>, extras: Seq<Dir>)
    ensures
        with_missing(dirs, extras).len() >= dirs.len(),
        with_missing(dirs, extras).take(dirs.len() as int) == dirs,
    decreases extras.len(),
{
    if extras.len() > 0 {
        law_append_keeps_path(dirs, extras.drop_last());
        let before = with_missing(dirs, extras.drop_last());
        assert(before.push(extras.last()).take(dirs.len() as int) =~= before.take(
            dirs.len() as int,
        ));
    } else {
        assert(dirs.take(dirs.len() as int) =~= dirs);
    }
}

/// Each of the further directories is listed afterwards.
pub proof fn law_append_lists_every_extra(dirs: Seq<Dir>, extras: Seq<Dir>)
    ensures
        forall|i: int|
            0 <= i < extras.len() ==> listed(with_missing(dirs, extras), #[trigger] extras[i]),
    decreases extras.len(),
{
    if extras.len() > 0 {
        let shorter = extras.drop_last();
        let before = with_missing(dirs, shorter);
        let after = with_missing(dirs, extras);
        law_append_lists_every_extra(dirs, shorter);
        assert forall|i: int| 0 <= i < extras.len() implies listed(
            after,
            #[trigger] extras[i],
        ) by {
            if i < shorter.len() {
                assert(shorter[i] == extras[i]);
                let k = choose|k: int|
                    0 <= k < before.len() && (#[trigger] before[k]).components
                        == shorter[i].components;
                assert(after[k] == before[k]);
            } else if !listed(before, extras.last()) {
                assert(after[before.len() as int].components == extras[i].components);
            }
        }
    }
}

/// No directory is appended that is listed before it, and nothing is appended but the further
/// directories.
pub proof fn law_append_adds_no_duplicate(dirs: Seq<Dir>, extras: Seq<Dir>)
    ensures
        forall|i: int, j: int|
            #![trigger with_missing(dirs, extras)[i], with_missing(dirs, extras)[j]]
            dirs.len() <= j < with_missing(dirs, extras).len() && 0 <= i < j
                ==> with_missing(dirs, extras)[i].components != with_missing(
                dirs,
                extras,
            )[j].components,
        forall|j: int|
            dirs.len() <= j < with_missing(dirs, extras).len() ==> extras.contains(
                #[trigger] with_missing(dirs, extras)[j],
            ),
    decreases extras.len(),
{
    if extras.len() > 0 {
        let shorter = extras.drop_last();
        let before = with_missing(dirs, shorter);
        let after = with_missing(dirs, extras);
        law_append_adds_no_duplicate(dirs, shorter);
        law_append_keeps_path(dirs, shorter);
        assert forall|j: int| dirs.len() <= j < after.len() implies extras.contains(
            #[trigger] after[j],
        ) by {
            if j < before.len() {
                assert(before[j] == after[j]);
                let k = choose|k: int| 0 <= k < shorter.len() && shorter[k] == before[j];
                assert(extras[k] == after[j]);
            } else {
                assert(extras[extras.len() - 1] == after[j]);
            }
        }
        assert forall|i: int, j: int|
            #![trigger after[i], after[j]]
            dirs.len() <= j < after.len() && 0 <= i < j implies after[i].components
            != after[j].components by {
            assert(after[i] == before[i]);
            if j < before.len() {
                assert(after[j] == before[j]);
            }
        }
    }
}

proof fn lemma_posix_path_without_colon(base: Seq<char>, parts: Seq<Seq<char>>)
    requires
        !base.contains(':'),
        forall|i: int| 0 <= i < parts.len() ==> !(#[trigger] parts[i]).contains(':'),
    ensures
        !location::posix_path(base, parts).contains(':'),
    decreases parts.len(),
{
    if parts.len() > 0 {
        let shorter = parts.drop_last();
        assert forall|i: int| 0 <= i < shorter.len() implies !(
        #[trigger] shorter[i]).contains(':') by {
            assert(!parts[i].contains(':'));
        }
        lemma_posix_path_without_colon(base, shorter);
        let head = location::posix_path(base, shorter);
        let part = parts[parts.len() - 1];
        assert(!part.contains(':'));
        let whole = posix::pushed(head, part);
        assert forall|k: int| 0 <= k < whole.len() implies whole[k] != ':' by {
            if part.len() > 0 && part.first() == '/' {
                assert(part[k] != ':');
            } else if k < head.len() {
                assert(head[k] != ':');
            } else if whole[k] != '/' {
                assert(part[k - (whole.len() - part.len())] != ':');
            }
        }
    }
}

proof fn lemma_unix_extras_without_colon(home: Option<Seq<char>>, versions: Seq<Seq<char>>)
    requires
        home matches Some(h) ==> !h.contains(':'),
        forall|i: int| 0 <= i < versions.len() ==> !(#[trigger] versions[i]).contains(':'),
    ensures
        !unlistable(location::posix_paths(unix_extras(home, versions))),
{
    reveal_strlit("/opt/homebrew/bin");
    reveal_strlit("/opt/homebrew/sbin");
    reveal_strlit("/usr/local/bin");
    reveal_strlit("/usr/local/sbin");
    reveal_strlit("/usr/bin");
    reveal_strlit("/bin");
    reveal_strlit(".omp");
    reveal_strlit("agent");
    reveal_strlit("npm");
    reveal_strlit("node_modules");
    reveal_strlit(".bin");
    reveal_strlit(".local/bin");
    reveal_strlit(".bun/bin");
    reveal_strlit(".volta/bin");
    reveal_strlit(".cargo/bin");
    reveal_strlit(".local/share/mise/shims");
    reveal_strlit(".nvm/versions/node");
    reveal_strlit("bin");
    let extras = unix_extras(home, versions);
    let paths = location::posix_paths(extras);
    assert forall|i: int| 0 <= i < paths.len() implies !(#[trigger] paths[i]).contains(':') by {
        let place = extras[i];
        if i >= 12 {
            assert(place == nvm_bin(home->0, versions[i - 12]));
            assert(!versions[i - 12].contains(':'));
        }
        assert(!place.base.contains(':'));
        assert forall|k: int| 0 <= k < place.parts.len() implies !(
        #[trigger] place.parts[k]).contains(':') by {}
        lemma_posix_path_without_colon(place.base, place.parts);
    }
}

proof fn lemma_augmented_dirs_are_posix(
    path: Option<Seq<char>>,
    home: Option<Seq<char>>,
    versions: Seq<Seq<char>>,
)
    ensures
        forall|i: int|
            0 <= i < augmented_dirs(path, home, versions).len() ==> (#[trigger] augmented_dirs(
                path,
                home,
                versions,
            )[i]).components == posix::components(augmented_dirs(path, home, versions)[i].text),
{
    let dirs = posix_dirs(path_dirs(path));
    let extras = posix_dirs(location::posix_paths(unix_extras(home, versions)));
    let all = with_missing(dirs, extras);
    law_append_keeps_path(dirs, extras);
    law_append_adds_no_duplicate(dirs, extras);
    assert forall|i: int| 0 <= i < all.len() implies (#[trigger] all[i]).components
        == posix::components(all[i].text) by {
        if i < dirs.len() {
            assert(all[i] == all.take(dirs.len() as int)[i]);
        } else {
            assert(extras.contains(all[i]));
        }
    }
}

/// With a home directory and node versions free of colons the search path can be written,
/// whatever `PATH` holds.
pub proof fn law_augmented_path_can_be_written(
    path: Option<Seq<char>>,
    home: Option<Seq<char>>,
    versions: Seq<Seq<char>>,
)
    requires
        home matches Some(h) ==> !h.contains(':'),
        forall|i: int| 0 <= i < versions.len() ==> !(#[trigger] versions[i]).contains(':'),
    ensures
        augmented_path(path, home, versions) is Some,
{
    let dirs = posix_dirs(path_dirs(path));
    let extras = posix_dirs(location::posix_paths(unix_extras(home, versions)));
    let all = with_missing(dirs, extras);
    law_append_keeps_path(dirs, extras);
    law_append_adds_no_duplicate(dirs, extras);
    lemma_unix_extras_without_colon(home, versions);
    if let Some(value) = path {
        text::law_split_pieces(value, ':');
    }
    assert forall|i: int| 0 <= i < dir_texts(all).len() implies !(
    #[trigger] dir_texts(all)[i]).contains(':') by {
        if i < dirs.len() {
            assert(all[i] == all.take(dirs.len() as int)[i]);
            assert(!path_dirs(path)[i].contains(':'));
        } else {
            assert(extras.contains(all[i]));
            let k = choose|k: int| 0 <= k < extras.len() && extras[k] == all[i];
            assert(!location::posix_paths(unix_extras(home, versions))[k].contains(':'));
        }
    }
}

/// The search path lists its directories: first those of `PATH`, as they stand there, and then
/// nothing that is listed before it. Every directory that it is completed with is listed.
pub proof fn law_augmented_path_lists(
    path: Option<Seq<char>>,
    home: Option<Seq<char>>,
    versions: Seq<Seq<char>>,
)
    ensures
        augmented_path(path, home, versions) matches Some(value) ==> {
            let before = path_dirs(path);
            let dirs = text::split(value, ':');
            let extras = location::posix_paths(unix_extras(home, versions));
            &&& dirs.len() >= before.len()
            &&& dirs.take(before.len() as int) == before
            &&& forall|i: int, j: int|
                #![trigger dirs[i], dirs[j]]
                before.len() <= j < dirs.len() && 0 <= i < j ==> posix::components(dirs[i])
                    != posix::components(dirs[j])
            &&& forall|k: int|
                0 <= k < extras.len() ==> exists|i: int|
                    0 <= i < dirs.len() && posix::components(#[trigger] dirs[i])
                        == posix::components(#[trigger] extras[k])
        },
{
    let before = posix_dirs(path_dirs(path));
    let paths = location::posix_paths(unix_extras(home, versions));
    let extras = posix_dirs(paths);
    let all = with_missing(before, extras);
    law_append_keeps_path(before, extras);
    law_append_lists_every_extra(before, extras);
    law_append_adds_no_duplicate(before, extras);
    lemma_augmented_dirs_are_posix(path, home, versions);
    if let Some(value) = augmented_path(path, home, versions) {
        assert(extras.len() > 0);
        assert(listed(all, extras[0]));
        let dirs = dir_texts(all);
        assert forall|i: int| 0 <= i < dirs.len() implies !(#[trigger] dirs[i]).contains(
            ':',
        ) by {}
        text::law_split_undoes_join(dirs, ':');
        assert(text::split(value, ':') == dirs);
        assert forall|i: int| 0 <= i < before.len() implies dirs[i] == path_dirs(path)[i] by {
            assert(all[i] == all.take(before.len() as int)[i]);
        }
        assert(dirs.take(path_dirs(path).len() as int) =~= path_dirs(path));
        assert forall|i: int, j: int|
            #![trigger dirs[i], dirs[j]]
            before.len() <= j < dirs.len() && 0 <= i < j implies posix::components(dirs[i])
            != posix::components(dirs[j]) by {
            assert(all[i].components != all[j].components);
        }
        assert forall|k: int| 0 <= k < paths.len() implies exists|i: int|
            0 <= i < dirs.len() && posix::components(#[trigger] dirs[i]) == posix::components(
                #[trigger] paths[k],
            ) by {
            assert(listed(all, extras[k]));
            let i = choose|i: int|
                0 <= i < all.len() && (#[trigger] all[i]).components == extras[k].components;
            assert(dirs[i] == all[i].text);
        }
    }
}

proof fn lemma_append_nothing(dirs: Seq<Dir>, extras: Seq<Dir>)
    requires
        forall|k: int| 0 <= k < extras.len() ==> listed(dirs, #[trigger] extras[k]),
    ensures
        with_missing(dirs, extras) == dirs,
    decreases extras.len(),
{
    if extras.len() > 0 {
        let shorter = extras.drop_last();
        assert forall|k: int| 0 <= k < shorter.len() implies listed(
            dirs,
            #[trigger] shorter[k],
        ) by {
            assert(shorter[k] == extras[k]);
        }
        lemma_append_nothing(dirs, shorter);
        assert(listed(dirs, extras[extras.len() - 1]));
    }
}

/// A search path that has been completed is complete: completing it again changes nothing.
pub proof fn law_augmented_path_is_stable(
    path: Option<Seq<char>>,
    home: Option<Seq<char>>,
    versions: Seq<Seq<char>>,
)
    ensures
        augmented_path(path, home, versions) matches Some(value) ==> augmented_path(
            Some(value),
            home,
            versions,
        ) == Some(value),
{
    if let Some(value) = augmented_path(path, home, versions) {
        let pieces = text::split(value, ':');
        let dirs = posix_dirs(pieces);
        let paths = location::posix_paths(unix_extras(home, versions));
        let extras = posix_dirs(paths);
        law_augmented_path_lists(path, home, versions);
        text::law_split_pieces(value, ':');
        text::law_join_undoes_split(value, ':');
        assert forall|k: int| 0 <= k < extras.len() implies listed(
            dirs,
            #[trigger] extras[k],
        ) by {
            assert(extras[k].components == posix::components(paths[k]));
            let i = choose|i: int|
                0 <= i < pieces.len() && posix::components(#[trigger] pieces[i])
                    == posix::components(paths[k]);
            assert(dirs[i].components == extras[k].components);
        }
        lemma_append_nothing(dirs, extras);
        assert(dir_texts(dirs) =~= pieces);
    }
}

/// The search path lists the commands of the npm packages of omp in the home directory,
/// whatever `PATH` holds. (A home directory with a colon cannot be listed.)
pub proof fn law_augmented_path_includes_npm_bin(
    path: Option<Seq<char>>,
    home: Seq<char>,
    versions: Seq<Seq<char>>,
    fallback: Seq<char>,
)
    requires
        !home.contains(':'),
        forall|i: int| 0 <= i < versions.len() ==> !(#[trigger] versions[i]).contains(':'),
    ensures
        exists|i: int|
            0 <= i < text::split(child_path(path, Some(home), versions, fallback), ':').len()
                && posix::components(
                #[trigger] text::split(child_path(path, Some(home), versions, fallback), ':')[i],
            ) == posix::components(location::posix_path(npm_bin(home).base, npm_bin(home).parts)),
{
    law_augmented_path_can_be_written(path, Some(home), versions);
    law_augmented_path_lists(path, Some(home), versions);
    let extras = unix_extras(Some(home), versions);
    assert(extras[6] == npm_bin(home));
    let wanted = location::posix_paths(extras)[6];
    assert(wanted == location::posix_path(npm_bin(home).base, npm_bin(home).parts));
    let dirs = text::split(child_path(path, Some(home), versions, fallback), ':');
    let i = choose|i: int|
        0 <= i < dirs.len() && posix::components(#[trigger] dirs[i]) == posix::components(wanted);
    assert(posix::components(dirs[i]) == posix::components(wanted));
}

/// The directory for the commands of npm packages is `.omp/agent/npm/node_modules/.bin` in the
/// home directory, part by part.
pub proof fn law_npm_bin_is_in_home(home: Seq<char>)
    ensures
        npm_bin(home) == (Place {
            base: home,
            parts: seq![".omp"@, "agent"@, "npm"@, "node_modules"@, ".bin"@],
        }),
{
    assert(npm_bin(home).parts =~= seq![".omp"@, "agent"@, "npm"@, "node_modules"@, ".bin"@]);
}

/// The directories that a Unix search path is completed with come in this order: six of the
/// system, six of the tools in the home directory, and one for each node version of nvm. Without
/// a home directory they are those of the system.
pub proof fn law_unix_extras_in_order(home: Seq<char>, versions: Seq<Seq<char>>, i: int)
    requires
        0 <= i < versions.len(),
    ensures
        ({
            let none = Seq::<Seq<char>>::empty();
            let extras = unix_extras(Some(home), versions);
            &&& extras.len() == 12 + versions.len()
            &&& extras[0] == (Place { base: "/opt/homebrew/bin"@, parts: none })
            &&& extras[1] == (Place { base: "/opt/homebrew/sbin"@, parts: none })
            &&& extras[2] == (Place { base: "/usr/local/bin"@, parts: none })
            &&& extras[3] == (Place { base: "/usr/local/sbin"@, parts: none })
            &&& extras[4] == (Place { base: "/usr/bin"@, parts: none })
            &&& extras[5] == (Place { base: "/bin"@, parts: none })
            &&& extras[6] == (Place {
                base: home,
                parts: seq![".omp"@, "agent"@, "npm"@, "node_modules"@, ".bin"@],
            })
            &&& extras[7] == (Place { base: home, parts: seq![".local/bin"@] })
            &&& extras[8] == (Place { base: home, parts: seq![".bun/bin"@] })
            &&& extras[9] == (Place { base: home, parts: seq![".volta/bin"@] })
            &&& extras[10] == (Place { base: home, parts: seq![".cargo/bin"@] })
            &&& extras[11] == (Place { base: home, parts: seq![".local/share/mise/shims"@] })
            &&& extras[12 + i] == (Place {
                base: home,
                parts: seq![".nvm/versions/node"@, versions[i], "bin"@],
            })
        }),
        unix_extras(Some(home), Seq::empty()) == unix_extras(Some(home), versions).take(12),
        unix_extras(None, versions) == unix_extras(Some(home), versions).take(6),
{
    let none = Seq::<Seq<char>>::empty();
    let extras = unix_extras(Some(home), versions);
    law_npm_bin_is_in_home(home);
    assert(none.push(".local/bin"@) =~= seq![".local/bin"@]);
    assert(none.push(".bun/bin"@) =~= seq![".bun/bin"@]);
    assert(none.push(".volta/bin"@) =~= seq![".volta/bin"@]);
    assert(none.push(".cargo/bin"@) =~= seq![".cargo/bin"@]);
    assert(none.push(".local/share/mise/shims"@) =~= seq![".local/share/mise/shims"@]);
    assert(none.push(".nvm/versions/node"@).push(versions[i]).push("bin"@) =~= seq![
        ".nvm/versions/node"@,
        versions[i],
        "bin"@,
    ]);
    assert(extras[12 + i] == nvm_bin(home, versions[i]));
    assert(unix_extras(Some(home), Seq::empty()) =~= extras.take(12));
    assert(unix_extras(None, versions) =~= extras.take(6));
}

/// The directories that a Windows search path is completed with come in this order: `npm` in
/// the application data, and four in the home directory, which is `USERPROFILE`, or `HOME` where
/// that is not set. What is not set adds nothing.
pub proof fn law_windows_extras_in_order(
    data: Seq<char>,
    profile: Seq<char>,
    appdata: Option<Seq<char>>,
    home: Option<Seq<char>>,
)
    ensures
        windows_extras(Some(data), Some(profile), home) == seq![
            Place { base: data, parts: seq!["npm"@] },
            Place {
                base: profile,
                parts: seq![".omp"@, "agent"@, "npm"@, "node_modules"@, ".bin"@],
            },
            Place { base: profile, parts: seq![".cargo"@, "bin"@] },
            Place { base: profile, parts: seq![".bun"@, "bin"@] },
            Place { base: profile, parts: seq!["scoop"@, "shims"@] },
        ],
        windows_extras(appdata, None, Some(profile)) == windows_extras(
            appdata,
            Some(profile),
            home,
        ),
        windows_extras(None, Some(profile), home) == windows_extras(
            Some(data),
            Some(profile),
            home,
        ).skip(1),
        windows_extras(Some(data), None, None) == windows_extras(
            Some(data),
            Some(profile),
            home,
        ).take(1),
        windows_extras(None, None, None) == Seq::<Place>::empty(),
{
    let none = Seq::<Seq<char>>::empty();
    let all = windows_extras(Some(data), Some(profile), home);
    law_npm_bin_is_in_home(profile);
    assert(none.push("npm"@) =~= seq!["npm"@]);
    assert(none.push(".cargo"@).push("bin"@) =~= seq![".cargo"@, "bin"@]);
    assert(none.push(".bun"@).push("bin"@) =~= seq![".bun"@, "bin"@]);
    assert(none.push("scoop"@).push("shims"@) =~= seq!["scoop"@, "shims"@]);
    assert(all =~= seq![
        Place { base: data, parts: seq!["npm"@] },
        npm_bin(profile),
        Place { base: profile, parts: seq![".cargo"@, "bin"@] },
        Place { base: profile, parts: seq![".bun"@, "bin"@] },
        Place { base: profile, parts: seq!["scoop"@, "shims"@] },
    ]);
    assert(windows_extras(None, Some(profile), home) =~= all.skip(1));
    assert(windows_extras(Some(data), None, None) =~= all.take(1));
    assert(windows_extras(None, None, None) =~= Seq::empty());
}

/// A directory of a search path stands for its text and its components, and lists of
/// directories, of texts and of paths are taken one by one, in order.
pub proof fn law_directories_one_by_one(
    dir: SearchDir,
    list: Seq<SearchDir>,
    dirs: Seq<Dir>,
    paths: Seq<Seq<char>>,
)
    ensures
        dir@.text == dir.text@,
        dir@.components.len() == dir.components@.len(),
        forall|i: int|
            0 <= i < dir.components@.len() ==> #[trigger] dir@.components[i]
                == dir.components@[i]@,
        dirs_of(list).len() == list.len(),
        forall|i: int| 0 <= i < list.len() ==> #[trigger] dirs_of(list)[i] == list[i]@,
        dir_texts(dirs).len() == dirs.len(),
        forall|i: int| 0 <= i < dirs.len() ==> #[trigger] dir_texts(dirs)[i] == dirs[i].text,
        posix_dirs(paths).len() == paths.len(),
        forall|i: int|
            0 <= i < paths.len() ==> (#[trigger] posix_dirs(paths)[i]).text == paths[i]
                && posix_dirs(paths)[i].components == posix::components(paths[i]),
{
}

/// A directory is in a list exactly if one with the same components is, whatever their texts.
pub proof fn law_listed_by_components(front: Seq<Dir>, there: Dir, rest: Seq<Dir>, dir: Dir)
    ensures
        there.components == dir.components ==> listed(front.push(there) + rest, dir),
        there.components != dir.components ==> (listed(front.push(there) + rest, dir) <==> listed(
            front + rest,
            dir,
        )),
        !listed(Seq::empty(), dir),
{
    let whole = front.push(there) + rest;
    let without = front + rest;
    assert(whole[front.len() as int] == there);
    if there.components != dir.components {
        if listed(whole, dir) {
            let i = choose|i: int|
                0 <= i < whole.len() && (#[trigger] whole[i]).components == dir.components;
            let k = if i < front.len() {
                i
            } else {
                i - 1
            };
            assert(without[k] == whole[i]);
        }
        if listed(without, dir) {
            let i = choose|i: int|
                0 <= i < without.len() && (#[trigger] without[i]).components == dir.components;
            let k = if i < front.len() {
                i
            } else {
                i + 1
            };
            assert(whole[k] == without[i]);
        }
    }
}

/// What is appended comes in order: each directory behind those of the search path is a further
/// one, and all further ones that come before it are listed before it. Each further directory is
/// listed in the end.
pub proof fn law_append_keeps_order(dirs: Seq<Dir>, extras: Seq<Dir>)
    ensures
        forall|j: int|
            dirs.len() <= j < with_missing(dirs, extras).len() ==> exists|k: int|
                0 <= k < extras.len() && extras[k] == #[trigger] with_missing(dirs, extras)[j]
                    && (forall|m: int|
                    0 <= m < k ==> listed(
                        with_missing(dirs, extras).take(j),
                        #[trigger] extras[m],
                    )),
        forall|k: int|
            0 <= k < extras.len() ==> exists|i: int|
                0 <= i < with_missing(dirs, extras).len() && (#[trigger] with_missing(
                    dirs,
                    extras,
                )[i]).components == (#[trigger] extras[k]).components,
    decreases extras.len(),
{
    let after = with_missing(dirs, extras);
    law_append_lists_every_extra(dirs, extras);
    assert forall|k: int| 0 <= k < extras.len() implies exists|i: int|
        0 <= i < after.len() && (#[trigger] after[i]).components == (
        #[trigger] extras[k]).components by {
        assert(listed(after, extras[k]));
    }
    if extras.len() > 0 {
        let shorter = extras.drop_last();
        let before = with_missing(dirs, shorter);
        law_append_keeps_order(dirs, shorter);
        law_append_keeps_path(dirs, shorter);
        law_append_lists_every_extra(dirs, shorter);
        assert forall|j: int| dirs.len() <= j < after.len() implies exists|k: int|
            0 <= k < extras.len() && extras[k] == #[trigger] after[j] && (forall|m: int|
                0 <= m < k ==> listed(after.take(j), #[trigger] extras[m])) by {
            if j < before.len() {
                assert(before[j] == after[j]);
                let k = choose|k: int|
                    0 <= k < shorter.len() && shorter[k] == before[j] && (forall|m: int|
                        0 <= m < k ==> listed(before.take(j), #[trigger] shorter[m]));
                assert(before.take(j) =~= after.take(j));
                assert forall|m: int| 0 <= m < k implies listed(
                    after.take(j),
                    #[trigger] extras[m],
                ) by {
                    assert(listed(before.take(j), shorter[m]));
                }
                assert(extras[k] == shorter[k]);
            } else {
                let k = extras.len() - 1;
                assert(after.take(j) =~= before);
                assert forall|m: int| 0 <= m < k implies listed(
                    after.take(j),
                    #[trigger] extras[m],
                ) by {
                    assert(listed(before, shorter[m]));
                }
                assert(extras[k] == after[j]);
            }
        }
    }
}

/// The directories of `PATH` come first in the search path that a child process gets, as they
/// stand there.
pub proof fn law_child_path_begins_with_path(
    path: Option<Seq<char>>,
    home: Option<Seq<char>>,
    versions: Seq<Seq<char>>,
    fallback: Seq<char>,
)
    requires
        home matches Some(h) ==> !h.contains(':'),
        forall|i: int| 0 <= i < versions.len() ==> !(#[trigger] versions[i]).contains(':'),
    ensures
        path matches Some(value) ==> {
            let dirs = text::split(child_path(path, home, versions, fallback), ':');
            let own = text::split(value, ':');
            dirs.len() >= own.len() && dirs.take(own.len() as int) == own
        },
{
    law_augmented_path_can_be_written(path, home, versions);
    law_augmented_path_lists(path, home, versions);
}

proof fn lemma_child_path_lists_extra(
    path: Option<Seq<char>>,
    home: Option<Seq<char>>,
    versions: Seq<Seq<char>>,
    fallback: Seq<char>,
    k: int,
    dir: Seq<char>,
)
    requires
        home matches Some(h) ==> !h.contains(':'),
        forall|i: int| 0 <= i < versions.len() ==> !(#[trigger] versions[i]).contains(':'),
        0 <= k < unix_extras(home, versions).len(),
        posix::components(
            location::posix_path(
                unix_extras(home, versions)[k].base,
                unix_extras(home, versions)[k].parts,
            ),
        ) == posix::components(dir),
    ensures
        exists|i: int|
            0 <= i < text::split(child_path(path, home, versions, fallback), ':').len()
                && posix::components(
                #[trigger] text::split(child_path(path, home, versions, fallback), ':')[i],
            ) == posix::components(dir),
{
    law_augmented_path_can_be_written(path, home, versions);
    law_augmented_path_lists(path, home, versions);
    let wanted = location::posix_paths(unix_extras(home, versions))[k];
    let dirs = text::split(child_path(path, home, versions, fallback), ':');
    let i = choose|i: int|
        0 <= i < dirs.len() && posix::components(#[trigger] dirs[i]) == posix::components(wanted);
    assert(posix::components(dirs[i]) == posix::components(dir));
}

/// The search path that a child process gets lists each of the directories of the system,
/// whatever `PATH` holds.
pub proof fn law_child_path_lists_system_dirs(
    path: Option<Seq<char>>,
    home: Option<Seq<char>>,
    versions: Seq<Seq<char>>,
    fallback: Seq<char>,
    dir: Seq<char>,
)
    requires
        home matches Some(h) ==> !h.contains(':'),
        forall|i: int| 0 <= i < versions.len() ==> !(#[trigger] versions[i]).contains(':'),
        seq![
            "/opt/homebrew/bin"@,
            "/opt/homebrew/sbin"@,
            "/usr/local/bin"@,
            "/usr/local/sbin"@,
            "/usr/bin"@,
            "/bin"@,
        ].contains(dir),
    ensures
        exists|i: int|
            0 <= i < text::split(child_path(path, home, versions, fallback), ':').len()
                && posix::components(
                #[trigger] text::split(child_path(path, home, versions, fallback), ':')[i],
            ) == posix::components(dir),
{
    let all = seq![
        "/opt/homebrew/bin"@,
        "/opt/homebrew/sbin"@,
        "/usr/local/bin"@,
        "/usr/local/sbin"@,
        "/usr/bin"@,
        "/bin"@,
    ];
    let k = choose|k: int| 0 <= k < all.len() && all[k] == dir;
    let place = unix_extras(home, versions)[k];
    assert(place == system_dirs()[k]);
    assert(place.base == dir && place.parts.len() == 0);
    lemma_child_path_lists_extra(path, home, versions, fallback, k, dir);
}

proof fn lemma_push_below(home: Seq<char>, part: Seq<char>, rest: Seq<char>)
    requires
        part.len() > 0,
        part[0] != '/',
    ensures
        posix::pushed(home, part) + rest == posix::pushed(home, part + rest),
        posix::pushed(home, part).len() > 0,
        posix::pushed(home, part).last() == part.last(),
        posix::components(posix::pushed(home, part)) == posix::components(
            if home.len() == 0 {
                part
            } else {
                home + seq!['/'] + part
            },
        ),
{
    let whole = part + rest;
    assert(whole[0] == part[0]);
    assert(posix::pushed(home, part) + rest =~= posix::pushed(home, whole));
    if home.len() == 0 {
        assert(posix::pushed(home, part) =~= part);
    } else if home.last() == '/' {
        let front = home.drop_last();
        posix::law_components_ignore_clutter(front, part);
        assert(front + seq!['/'] + part =~= home + part);
        assert(front + seq!['/', '/'] + part =~= home + seq!['/'] + part);
    } else {
        assert(posix::pushed(home, part) =~= home + seq!['/'] + part);
    }
}

proof fn lemma_npm_bin_path(home: Seq<char>)
    ensures
        location::posix_path(npm_bin(home).base, npm_bin(home).parts) == posix::pushed(
            home,
            ".omp/agent/npm/node_modules/.bin"@,
        ),
{
    reveal_strlit(".omp");
    reveal_strlit("agent");
    reveal_strlit("npm");
    reveal_strlit("node_modules");
    reveal_strlit(".bin");
    reveal_strlit(".omp/agent/npm/node_modules/.bin");
    let one = npm_bin(home).parts.take(1);
    let two = npm_bin(home).parts.take(2);
    let three = npm_bin(home).parts.take(3);
    let four = npm_bin(home).parts.take(4);
    let five = npm_bin(home).parts;
    law_npm_bin_is_in_home(home);
    assert(one.drop_last() =~= Seq::empty());
    assert(two.drop_last() =~= one);
    assert(three.drop_last() =~= two);
    assert(four.drop_last() =~= three);
    assert(five.drop_last() =~= four);
    reveal_with_fuel(location::posix_path, 6);
    let p1 = posix::pushed(home, ".omp"@);
    lemma_push_below(home, ".omp"@, "/agent/npm/node_modules/.bin"@);
    reveal_strlit("/agent/npm/node_modules/.bin");
    let p2 = posix::pushed(p1, "agent"@);
    assert(p2 =~= p1.push('/') + "agent"@);
    let p3 = posix::pushed(p2, "npm"@);
    assert(p3 =~= p2.push('/') + "npm"@);
    let p4 = posix::pushed(p3, "node_modules"@);
    assert(p4 =~= p3.push('/') + "node_modules"@);
    let p5 = posix::pushed(p4, ".bin"@);
    assert(p5 =~= p4.push('/') + ".bin"@);
    assert(location::posix_path(home, five) == p5);
    assert(seq!['/'] + "agent"@ + seq!['/'] + "npm"@ + seq!['/'] + "node_modules"@ + seq!['/']
        + ".bin"@ =~= "/agent/npm/node_modules/.bin"@);
    assert(p5 =~= p1 + "/agent/npm/node_modules/.bin"@);
    assert(".omp"@ + "/agent/npm/node_modules/.bin"@ =~= ".omp/agent/npm/node_modules/.bin"@);
}

/// The search path that a child process gets lists each of the directories of tools in the home
/// directory, whatever `PATH` holds.
pub proof fn law_child_path_lists_home_dirs(
    path: Option<Seq<char>>,
    home: Seq<char>,
    versions: Seq<Seq<char>>,
    fallback: Seq<char>,
    tools: Seq<char>,
)
    requires
        !home.contains(':'),
        forall|i: int| 0 <= i < versions.len() ==> !(#[trigger] versions[i]).contains(':'),
        seq![
            ".omp/agent/npm/node_modules/.bin"@,
            ".local/bin"@,
            ".bun/bin"@,
            ".volta/bin"@,
            ".cargo/bin"@,
            ".local/share/mise/shims"@,
        ].contains(tools),
    ensures
        exists|i: int|
            0 <= i < text::split(child_path(path, Some(home), versions, fallback), ':').len()
                && posix::components(
                #[trigger] text::split(child_path(path, Some(home), versions, fallback), ':')[i],
            ) == posix::components(
                if home.len() == 0 {
                    tools
                } else {
                    home + seq!['/'] + tools
                },
            ),
{
    let all = seq![
        ".omp/agent/npm/node_modules/.bin"@,
        ".local/bin"@,
        ".bun/bin"@,
        ".volta/bin"@,
        ".cargo/bin"@,
        ".local/share/mise/shims"@,
    ];
    let k = choose|k: int| 0 <= k < all.len() && all[k] == tools;
    let place = unix_extras(Some(home), versions)[6 + k];
    assert(place == home_dirs(home)[k]);
    reveal_strlit(".omp/agent/npm/node_modules/.bin");
    reveal_strlit(".local/bin");
    reveal_strlit(".bun/bin");
    reveal_strlit(".volta/bin");
    reveal_strlit(".cargo/bin");
    reveal_strlit(".local/share/mise/shims");
    assert(tools.len() > 0 && tools[0] == '.');
    lemma_push_below(home, tools, Seq::empty());
    if k == 0 {
        lemma_npm_bin_path(home);
    } else {
        assert(place.parts =~= seq![tools]);
        location::law_posix_path_puts_part_after_part(home, seq![tools], Seq::empty(), tools);
    }
    let dir = if home.len() == 0 {
        tools
    } else {
        home + seq!['/'] + tools
    };
    lemma_child_path_lists_extra(path, Some(home), versions, fallback, 6 + k, dir);
}

/// The search path that a child process gets lists the commands of each of the node versions of
/// nvm, whatever `PATH` holds.
pub proof fn law_child_path_lists_node_versions(
    path: Option<Seq<char>>,
    home: Seq<char>,
    versions: Seq<Seq<char>>,
    fallback: Seq<char>,
    i: int,
)
    requires
        !home.contains(':'),
        forall|j: int| 0 <= j < versions.len() ==> !(#[trigger] versions[j]).contains(':'),
        0 <= i < versions.len(),
        versions[i].len() > 0 ==> versions[i][0] != '/',
    ensures
        exists|k: int|
            0 <= k < text::split(child_path(path, Some(home), versions, fallback), ':').len()
                && posix::components(
                #[trigger] text::split(child_path(path, Some(home), versions, fallback), ':')[k],
            ) == posix::components(
                if home.len() == 0 {
                    ".nvm/versions/node/"@ + versions[i] + "/bin"@
                } else {
                    home + seq!['/'] + (".nvm/versions/node/"@ + versions[i] + "/bin"@)
                },
            ),
{
    let version = versions[i];
    let place = unix_extras(Some(home), versions)[12 + i];
    assert(place == nvm_bin(home, version));
    let tail = ".nvm/versions/node/"@ + version + "/bin"@;
    reveal_strlit(".nvm/versions/node");
    reveal_strlit(".nvm/versions/node/");
    reveal_strlit("bin");
    reveal_strlit("/bin");
    let one = place.parts.take(1);
    let two = place.parts.take(2);
    assert(one.drop_last() =~= Seq::empty());
    assert(two.drop_last() =~= one);
    assert(place.parts.drop_last() =~= two);
    reveal_with_fuel(location::posix_path, 4);
    let root = posix::pushed(home, ".nvm/versions/node"@);
    let dir = posix::pushed(root, version);
    let bin = posix::pushed(dir, "bin"@);
    assert(location::posix_path(place.base, place.parts) == bin);
    lemma_push_below(home, ".nvm/versions/node"@, seq!['/'] + version + "/bin"@);
    assert(root.last() == 'e');
    assert(dir =~= root.push('/') + version);
    lemma_push_below(dir, "bin"@, Seq::empty());
    assert(dir.len() > 0);
    assert(dir + seq!['/'] + "bin"@ =~= root + (seq!['/'] + version + "/bin"@));
    assert(".nvm/versions/node"@ + (seq!['/'] + version + "/bin"@) =~= tail);
    assert(tail[0] == '.');
    lemma_push_below(home, tail, Seq::empty());
    let wanted = if home.len() == 0 {
        tail
    } else {
        home + seq!['/'] + tail
    };
    lemma_child_path_lists_extra(path, Some(home), versions, fallback, 12 + i, wanted);
}

proof fn lemma_added_in_order(
    start: Seq<Seq<char>>,
    extras: Seq<Seq<char>>,
    dirs: Seq<Seq<char>>,
    j: int,
) -> (k: int)
    requires
        dirs == dir_texts(with_missing(posix_dirs(start), posix_dirs(extras))),
        start.len() <= j < dirs.len(),
    ensures
        0 <= k < extras.len(),
        extras[k] == dirs[j],
        forall|m: int|
            0 <= m < k ==> listed(posix_dirs(dirs.take(j)), #[trigger] posix_dirs(extras)[m]),
{
    let more = posix_dirs(extras);
    let all = with_missing(posix_dirs(start), more);
    law_append_keeps_order(posix_dirs(start), more);
    assert(all[j].text == dirs[j]);
    let k = choose|k: int|
        0 <= k < more.len() && more[k] == all[j] && (forall|m: int|
            0 <= m < k ==> listed(all.take(j), #[trigger] more[m]));
    assert forall|m: int| 0 <= m < k implies listed(
        posix_dirs(dirs.take(j)),
        #[trigger] more[m],
    ) by {
        let before = all.take(j);
        assert(listed(before, more[m]));
        let i = choose|i: int|
            0 <= i < before.len() && (#[trigger] before[i]).components == more[m].components;
        assert(before[i] == all[i]);
        lemma_listed_dir_is_posix(start, extras, i);
        assert(posix_dirs(dirs.take(j))[i].components == more[m].components);
    }
    k
}

proof fn lemma_listed_dir_is_posix(start: Seq<Seq<char>>, extras: Seq<Seq<char>>, i: int)
    requires
        0 <= i < with_missing(posix_dirs(start), posix_dirs(extras)).len(),
    ensures
        with_missing(posix_dirs(start), posix_dirs(extras))[i].components == posix::components(
            with_missing(posix_dirs(start), posix_dirs(extras))[i].text,
        ),
{
    let dirs = posix_dirs(start);
    let more = posix_dirs(extras);
    let all = with_missing(dirs, more);
    law_append_keeps_path(dirs, more);
    law_append_adds_no_duplicate(dirs, more);
    if i < dirs.len() {
        assert(all[i] == all.take(dirs.len() as int)[i]);
    } else {
        assert(more.contains(all[i]));
    }
}

proof fn lemma_child_path_dirs(
    path: Option<Seq<char>>,
    home: Option<Seq<char>>,
    versions: Seq<Seq<char>>,
    fallback: Seq<char>,
)
    requires
        home matches Some(h) ==> !h.contains(':'),
        forall|i: int| 0 <= i < versions.len() ==> !(#[trigger] versions[i]).contains(':'),
    ensures
        text::split(child_path(path, home, versions, fallback), ':') == dir_texts(
            with_missing(
                posix_dirs(path_dirs(path)),
                posix_dirs(location::posix_paths(unix_extras(home, versions))),
            ),
        ),
{
    law_augmented_path_can_be_written(path, home, versions);
    let start = posix_dirs(path_dirs(path));
    let more = posix_dirs(location::posix_paths(unix_extras(home, versions)));
    let list = dir_texts(with_missing(start, more));
    assert(more.len() > 0);
    law_append_lists_every_extra(start, more);
    assert(listed(with_missing(start, more), more[0]));
    assert forall|i: int| 0 <= i < list.len() implies !(#[trigger] list[i]).contains(':') by {}
    text::law_split_undoes_join(list, ':');
}

/// The search path that a child process gets lists nothing but the directories of `PATH` and
/// those that it is completed with, in their order: each directory behind those of `PATH` is one
/// to complete it with, and what comes before that one is listed before it.
pub proof fn law_child_path_adds_in_order(
    path: Option<Seq<char>>,
    home: Option<Seq<char>>,
    versions: Seq<Seq<char>>,
    fallback: Seq<char>,
    dirs: Seq<Seq<char>>,
    extras: Seq<Seq<char>>,
    j: int,
) -> (k: int)
    requires
        home matches Some(h) ==> !h.contains(':'),
        forall|i: int| 0 <= i < versions.len() ==> !(#[trigger] versions[i]).contains(':'),
        path matches Some(value) ==> text::split(value, ':').len() <= j,
        dirs == text::split(child_path(path, home, versions, fallback), ':'),
        extras == location::posix_paths(unix_extras(home, versions)),
        0 <= j < dirs.len(),
    ensures
        0 <= k < extras.len(),
        extras[k] == dirs[j],
        forall|m: int|
            0 <= m < k ==> listed(posix_dirs(dirs.take(j)), #[trigger] posix_dirs(extras)[m]),
{
    lemma_child_path_dirs(path, home, versions, fallback);
    lemma_added_in_order(path_dirs(path), extras, dirs, j)
}

/// The search path that a child process gets lists no directory behind those of `PATH` that is
/// listed before it, under whichever text.
pub proof fn law_child_path_adds_no_duplicate(
    path: Option<Seq<char>>,
    home: Option<Seq<char>>,
    versions: Seq<Seq<char>>,
    fallback: Seq<char>,
    i: int,
    j: int,
)
    requires
        home matches Some(h) ==> !h.contains(':'),
        forall|i: int| 0 <= i < versions.len() ==> !(#[trigger] versions[i]).contains(':'),
        path matches Some(value) ==> text::split(value, ':').len() <= j,
        0 <= i < j < text::split(child_path(path, home, versions, fallback), ':').len(),
    ensures
        posix::components(text::split(child_path(path, home, versions, fallback), ':')[i])
            != posix::components(
            text::split(child_path(path, home, versions, fallback), ':')[j],
        ),
{
    law_augmented_path_can_be_written(path, home, versions);
    law_augmented_path_lists(path, home, versions);
}

proof fn lemma_colon_is_in_a_name(pieces: Seq<Seq<char>>, i: int)
    requires
        0 <= i < pieces.len(),
        pieces[i].contains(':'),
    ensures
        names_hold_colon(posix::names(pieces)),
    decreases pieces.len(),
{
    let before = posix::names(pieces.drop_last());
    let piece = pieces.last();
    if i == pieces.len() - 1 {
        assert(piece != seq!['.']) by {
            let k = choose|k: int| 0 <= k < piece.len() && piece[k] == ':';
            if piece == seq!['.'] {
                assert(piece[0] == '.');
            }
        }
        assert(posix::names(pieces) == before.push(piece));
        assert(before.push(piece)[before.len() as int] == piece);
    } else {
        lemma_colon_is_in_a_name(pieces.drop_last(), i);
        let k = choose|k: int| 0 <= k < before.len() && (#[trigger] before[k]).contains(':');
        assert(posix::names(pieces)[k] == before[k]);
    }
}

spec fn names_hold_colon(list: Seq<Seq<char>>) -> bool {
    exists|k: int| 0 <= k < list.len() && (#[trigger] list[k]).contains(':')
}

proof fn lemma_components_hold_colon(path: Seq<char>)
    ensures
        path.contains(':') ==> names_hold_colon(posix::components(path)),
        !path.contains(':') ==> !names_hold_colon(posix::components(path)),
{
    let pieces = text::split(path, '/');
    let named = posix::names(pieces);
    let all = posix::components(path);
    text::law_join_undoes_split(path, '/');
    if path.contains(':') {
        let i = lemma_colon_in_piece(path);
        lemma_colon_is_in_a_name(pieces, i);
        let k = choose|k: int| 0 <= k < named.len() && (#[trigger] named[k]).contains(':');
        assert(all[all.len() - named.len() + k] == named[k]);
    } else {
        lemma_names_without_colon(path);
        assert forall|k: int| 0 <= k < all.len() implies !(#[trigger] all[k]).contains(':') by {
            let at = k - (all.len() - named.len());
            if at >= 0 {
                assert(all[k] == named[at]);
            } else {
                assert(all[k] == seq!['/']);
                assert(seq!['/'][0] == '/');
            }
        }
    }
}

proof fn lemma_colon_in_piece(path: Seq<char>) -> (i: int)
    requires
        path.contains(':'),
    ensures
        0 <= i < text::split(path, '/').len(),
        text::split(path, '/')[i].contains(':'),
    decreases path.len(),
{
    let head = path.drop_last();
    let before = text::split(head, '/');
    let after = text::split(path, '/');
    text::law_split_pieces(head, '/');
    if path.last() == ':' {
        let piece = before.last().push(':');
        assert(after.last() == piece);
        assert(piece[piece.len() - 1] == ':');
        after.len() - 1
    } else {
        let at = choose|at: int| 0 <= at < path.len() && path[at] == ':';
        assert(head[at] == ':');
        let i = lemma_colon_in_piece(head);
        let k = choose|k: int| 0 <= k < before[i].len() && before[i][k] == ':';
        assert(after[i][k] == ':');
        i
    }
}

proof fn lemma_names_without_colon(path: Seq<char>)
    requires
        !path.contains(':'),
    ensures
        forall|k: int|
            0 <= k < posix::names(text::split(path, '/')).len() ==> !(#[trigger] posix::names(
                text::split(path, '/'),
            )[k]).contains(':'),
{
    let pieces = text::split(path, '/');
    assert forall|i: int| 0 <= i < pieces.len() implies !(#[trigger] pieces[i]).contains(':') by {
        lemma_piece_without_colon(path, i);
    }
    lemma_names_are_pieces(pieces);
    let named = posix::names(pieces);
    assert forall|k: int| 0 <= k < named.len() implies !(#[trigger] named[k]).contains(':') by {
        let i = choose|i: int| 0 <= i < pieces.len() && pieces[i] == named[k];
        assert(pieces.contains(named[k]));
        assert(!pieces[i].contains(':'));
    }
}

proof fn lemma_piece_without_colon(path: Seq<char>, i: int)
    requires
        !path.contains(':'),
        0 <= i < text::split(path, '/').len(),
    ensures
        !text::split(path, '/')[i].contains(':'),
    decreases path.len(),
{
    if path.len() > 0 {
        let head = path.drop_last();
        let before = text::split(head, '/');
        let piece = text::split(path, '/')[i];
        text::law_split_pieces(head, '/');
        assert(path.last() == path[path.len() - 1]);
        assert(!head.contains(':')) by {
            if head.contains(':') {
                let at = choose|at: int| 0 <= at < head.len() && head[at] == ':';
                assert(path[at] == ':');
            }
        }
        if i < before.len() {
            lemma_piece_without_colon(head, i);
            assert forall|k: int| 0 <= k < piece.len() implies piece[k] != ':' by {
                if k < before[i].len() {
                    assert(piece[k] == before[i][k]);
                }
            }
        }
    }
}

proof fn lemma_names_are_pieces(pieces: Seq<Seq<char>>)
    ensures
        forall|k: int|
            0 <= k < posix::names(pieces).len() ==> pieces.contains(
                #[trigger] posix::names(pieces)[k],
            ),
    decreases pieces.len(),
{
    if pieces.len() > 0 {
        let shorter = pieces.drop_last();
        let before = posix::names(shorter);
        lemma_names_are_pieces(shorter);
        assert forall|k: int| 0 <= k < posix::names(pieces).len() implies pieces.contains(
            #[trigger] posix::names(pieces)[k],
        ) by {
            if k < before.len() {
                assert(shorter.contains(before[k]));
                let i = choose|i: int| 0 <= i < shorter.len() && shorter[i] == before[k];
                assert(pieces[i] == before[k]);
            } else {
                assert(pieces[pieces.len() - 1] == posix::names(pieces)[k]);
            }
        }
    }
}

proof fn lemma_unlistable_extra(
    path: Option<Seq<char>>,
    home: Option<Seq<char>>,
    versions: Seq<Seq<char>>,
    fallback: Seq<char>,
    k: int,
)
    requires
        0 <= k < unix_extras(home, versions).len(),
        location::posix_path(
            unix_extras(home, versions)[k].base,
            unix_extras(home, versions)[k].parts,
        ).contains(':'),
    ensures
        child_path(path, home, versions, fallback) == fallback,
{
    let start = posix_dirs(path_dirs(path));
    let extras = location::posix_paths(unix_extras(home, versions));
    let more = posix_dirs(extras);
    let all = with_missing(start, more);
    lemma_components_hold_colon(extras[k]);
    law_append_lists_every_extra(start, more);
    assert(listed(all, more[k]));
    let i = choose|i: int|
        0 <= i < all.len() && (#[trigger] all[i]).components == more[k].components;
    lemma_listed_dir_is_posix(path_dirs(path), extras, i);
    lemma_components_hold_colon(all[i].text);
    assert(dir_texts(all)[i].contains(':'));
}

/// A child process gets the fallback where the home directory or a node version in it holds a
/// colon: its directory cannot be listed. Without a home directory no node version counts.
pub proof fn law_child_path_falls_back(
    path: Option<Seq<char>>,
    home: Seq<char>,
    versions: Seq<Seq<char>>,
    fallback: Seq<char>,
    i: int,
)
    ensures
        home.contains(':') ==> child_path(path, Some(home), versions, fallback) == fallback,
        0 <= i < versions.len() && versions[i].contains(':') ==> child_path(
            path,
            Some(home),
            versions,
            fallback,
        ) == fallback,
        child_path(path, None, versions, fallback) == child_path(
            path,
            None,
            Seq::empty(),
            fallback,
        ),
{
    if home.contains(':') {
        lemma_npm_bin_path(home);
        assert(unix_extras(Some(home), versions)[6] == npm_bin(home));
        let wanted = posix::pushed(home, ".omp/agent/npm/node_modules/.bin"@);
        reveal_strlit(".omp/agent/npm/node_modules/.bin");
        let at = choose|at: int| 0 <= at < home.len() && home[at] == ':';
        assert(wanted[at] == ':');
        lemma_unlistable_extra(path, Some(home), versions, fallback, 6);
    }
    if 0 <= i < versions.len() && versions[i].contains(':') {
        let version = versions[i];
        let place = unix_extras(Some(home), versions)[12 + i];
        assert(place == nvm_bin(home, version));
        let one = place.parts.take(1);
        let two = place.parts.take(2);
        assert(one.drop_last() =~= Seq::empty());
        assert(two.drop_last() =~= one);
        assert(place.parts.drop_last() =~= two);
        reveal_with_fuel(location::posix_path, 4);
        reveal_strlit("bin");
        let root = posix::pushed(home, ".nvm/versions/node"@);
        let dir = posix::pushed(root, version);
        let bin = posix::pushed(dir, "bin"@);
        assert(location::posix_path(place.base, place.parts) == bin);
        let at = choose|at: int| 0 <= at < version.len() && version[at] == ':';
        let from = dir.len() - version.len();
        assert(dir[from + at] == ':');
        assert(bin[from + at] == ':');
        lemma_unlistable_extra(path, Some(home), versions, fallback, 12 + i);
    }
}

/// The commands of a node version of nvm are in `bin` of its directory, part by part.
pub proof fn law_nvm_bin_is_in_home(home: Seq<char>, version: Seq<char>)
    ensures
        nvm_bin(home, version) == (Place {
            base: home,
            parts: seq![".nvm/versions/node"@, version, "bin"@],
        }),
{
    assert(nvm_bin(home, version).parts =~= seq![".nvm/versions/node"@, version, "bin"@]);
}

/// `PATH` lists what is between its colons, and nothing if it is not set. A list of directories
/// cannot be written for a colon anywhere in one of them, and for that alone.
pub proof fn law_colons_separate_directories(
    value: Seq<char>,
    front: Seq<Seq<char>>,
    dir: Seq<char>,
    rest: Seq<Seq<char>>,
)
    ensures
        path_dirs(Some(value)) == text::split(value, ':'),
        path_dirs(None) == Seq::<Seq<char>>::empty(),
        dir.contains(':') ==> unlistable(front.push(dir) + rest),
        !dir.contains(':') ==> (unlistable(front.push(dir) + rest) <==> unlistable(front + rest)),
        !unlistable(Seq::empty()),
{
    let whole = front.push(dir) + rest;
    let without = front + rest;
    assert(whole[front.len() as int] == dir);
    if !dir.contains(':') {
        if unlistable(whole) {
            let i = choose|i: int| 0 <= i < whole.len() && (#[trigger] whole[i]).contains(':');
            let k = if i < front.len() {
                i
            } else {
                i - 1
            };
            assert(without[k] == whole[i]);
        }
        if unlistable(without) {
            let i = choose|i: int|
                0 <= i < without.len() && (#[trigger] without[i]).contains(':');
            let k = if i < front.len() {
                i
            } else {
                i + 1
            };
            assert(whole[k] == without[i]);
        }
    }
}

/// The line about a search path names what it is for, what was found and the search path, whole
/// and in this order.
pub proof fn law_diagnostics_line_names_what_was_found(
    context: Seq<char>,
    path: Seq<char>,
    found: PathFindings,
)
    ensures
        diagnostics_line(context, path, None) == "[ompcot] child PATH diagnostics: context="@
            + context + " home=<unset>"@ + " path="@ + path,
        diagnostics_line(context, path, Some(found)) == "[ompcot] child PATH diagnostics: context="@
            + context + " omp_extension_bin="@ + found.omp_extension_bin@ + " exists="@ + (
        if found.exists {
            "true"@
        } else {
            "false"@
        }) + " hypa_bin="@ + found.hypa_bin@ + " hypa_exists="@ + (if found.hypa_exists {
            "true"@
        } else {
            "false"@
        }) + " contains_omp_extension_bin="@ + (if found.contains_omp_extension_bin {
            "true"@
        } else {
            "false"@
        }) + " path="@ + path,
{
    let start = "[ompcot] child PATH diagnostics: context="@ + context;
    let p1 = " omp_extension_bin="@ + found.omp_extension_bin@;
    let p2 = p1 + " exists="@;
    let p3 = p2 + truth(found.exists);
    let p4 = p3 + " hypa_bin="@;
    let p5 = p4 + found.hypa_bin@;
    let p6 = p5 + " hypa_exists="@;
    let p7 = p6 + truth(found.hypa_exists);
    let p8 = p7 + " contains_omp_extension_bin="@;
    let p9 = p8 + truth(found.contains_omp_extension_bin);
    lemma_behind(start, " omp_extension_bin="@, found.omp_extension_bin@);
    lemma_behind(start, p1, " exists="@);
    lemma_behind(start, p2, truth(found.exists));
    lemma_behind(start, p3, " hypa_bin="@);
    lemma_behind(start, p4, found.hypa_bin@);
    lemma_behind(start, p5, " hypa_exists="@);
    lemma_behind(start, p6, truth(found.hypa_exists));
    lemma_behind(start, p7, " contains_omp_extension_bin="@);
    lemma_behind(start, p8, truth(found.contains_omp_extension_bin));
    assert(diagnostics_line(context, path, Some(found)) == start + p9 + " path="@ + path);
}

proof fn lemma_behind(a: Seq<char>, b: Seq<char>, c: Seq<char>)
    ensures
        a + (b + c) == a + b + c,
{
    assert(a + (b + c) =~= a + b + c);
}

} // verus!
