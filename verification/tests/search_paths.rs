use omp_manager::platform::Platform;
use omp_manager::search_path::{
    append_missing, build_augmented_path, child_path_diagnostics, child_path_line, lists,
    nvm_bin_dir, nvm_root, omp_extension_npm_bin_dir, posix_path_lists, posix_search_path,
    unix_extra_dirs, windows_extra_dirs, PathFindings, SearchDir,
};
use std::path::{Path, PathBuf};

const SYSTEM: &str =
    "/opt/homebrew/bin:/opt/homebrew/sbin:/usr/local/bin:/usr/local/sbin:/usr/bin:/bin";

fn none() -> Vec<String> {
    Vec::new()
}

fn augmented(path: Option<&str>, home: Option<&str>, node_versions: &Vec<String>) -> String {
    build_augmented_path(path, home, node_versions, path.unwrap_or_default())
}

fn versions(names: &[&str]) -> Vec<String> {
    names.iter().map(|name| name.to_string()).collect()
}

fn dirs(paths: &[&str]) -> Vec<SearchDir> {
    paths.iter().map(|path| SearchDir::posix(path.to_string())).collect()
}

fn texts(list: &Vec<SearchDir>) -> Vec<String> {
    list.iter().map(|dir| dir.text.clone()).collect()
}

#[test]
fn augmented_path_includes_omp_extension_npm_bin() {
    for path in [None, Some(""), Some("/usr/bin:/bin"), Some("/a:/b/:/c")] {
        for home in ["/home/user", "/root", "/", "relative/home", ""] {
            let expected = Path::new(home)
                .join(".omp")
                .join("agent")
                .join("npm")
                .join("node_modules")
                .join(".bin");

            let path = augmented(path, Some(home), &none());
            let dirs: Vec<PathBuf> = path.split(':').map(PathBuf::from).collect();

            assert!(
                dirs.iter().any(|dir| dir == &expected),
                "expected augmented PATH to include {}",
                expected.display()
            );
        }
    }
}

#[test]
fn augmented_path_without_anything_lists_the_system() {
    let path = augmented(None, None, &versions(&["v20"]));
    assert_eq!(path, SYSTEM);
}

#[test]
fn augmented_path_lists_the_tools_of_the_home_directory() {
    let path = augmented(Some("/x"), Some("/home/u"), &versions(&["v18.1.0", "v20"]));
    let expected = format!(
        "/x:{}:{}",
        SYSTEM,
        "/home/u/.omp/agent/npm/node_modules/.bin:/home/u/.local/bin:/home/u/.bun/bin:\
         /home/u/.volta/bin:/home/u/.cargo/bin:/home/u/.local/share/mise/shims:\
         /home/u/.nvm/versions/node/v18.1.0/bin:/home/u/.nvm/versions/node/v20/bin"
    );
    assert_eq!(path, expected);
}

#[test]
fn augmented_path_does_not_repeat_directories() {
    let path = augmented(
        Some("/bin/:/usr/./bin://usr//local/bin:/opt/homebrew/bin:/opt/homebrew/sbin:/usr/local/sbin"),
        None,
        &none(),
    );
    assert_eq!(
        path,
        "/bin/:/usr/./bin://usr//local/bin:/opt/homebrew/bin:/opt/homebrew/sbin:/usr/local/sbin"
    );
    let twice = augmented(Some("/a:/a"), None, &none());
    assert!(twice.starts_with("/a:/a:/opt/homebrew/bin"));
}

#[test]
fn augmented_path_is_stable() {
    let once = augmented(Some("/a"), Some("/home/u"), &versions(&["v20"]));
    let again = augmented(Some(&once), Some("/home/u"), &versions(&["v20"]));
    assert_eq!(once, again);
}

#[test]
fn an_empty_path_variable_lists_one_empty_directory() {
    let path = augmented(Some(""), None, &none());
    assert_eq!(path, format!(":{}", SYSTEM));
}

#[test]
fn a_directory_with_a_colon_cannot_be_listed() {
    assert_eq!(augmented(Some("/a"), Some("/home/a:b"), &none()), "/a");
    assert_eq!(augmented(None, Some("/home/u"), &versions(&["v:1"])), "");
    assert_eq!(
        build_augmented_path(Some("/\u{fffd}"), Some("/home/a:b"), &none(), ""),
        ""
    );
    assert_eq!(posix_search_path(&dirs(&["/a", "/b:c"])), None);
    assert_eq!(posix_search_path(&dirs(&["/a", "/b"])).as_deref(), Some("/a:/b"));
}

#[test]
fn missing_directories_are_appended_in_order() {
    let all = append_missing(dirs(&["/a", "/b/"]), &dirs(&["/c", "/b", "/c/.", "/d"]));
    assert_eq!(texts(&all), vec!["/a", "/b/", "/c", "/d"]);
    assert!(lists(&all, &SearchDir::posix("/d/".to_string())));
    assert!(!lists(&all, &SearchDir::posix("d".to_string())));
}

#[test]
fn extra_directories_of_unix() {
    let extras: Vec<String> = unix_extra_dirs(Some("/h"), &versions(&["v1"]))
        .iter()
        .map(|dir| dir.posix())
        .collect();
    assert_eq!(extras.len(), 13);
    assert_eq!(extras[0], "/opt/homebrew/bin");
    assert_eq!(extras[6], "/h/.omp/agent/npm/node_modules/.bin");
    assert_eq!(extras[12], "/h/.nvm/versions/node/v1/bin");
    assert_eq!(unix_extra_dirs(None, &versions(&["v1"])).len(), 6);
    assert_eq!(nvm_root("/h").posix(), "/h/.nvm/versions/node");
    assert_eq!(nvm_bin_dir("/h", "v1").posix(), "/h/.nvm/versions/node/v1/bin");
    assert_eq!(
        omp_extension_npm_bin_dir("/h").posix(),
        "/h/.omp/agent/npm/node_modules/.bin"
    );
}

#[test]
fn extra_directories_of_windows() {
    let extras = windows_extra_dirs(Some("C:\\D"), Some("C:\\P"), Some("C:\\H"));
    let found: Vec<(String, Vec<String>)> = extras
        .iter()
        .map(|dir| (dir.base.clone(), dir.parts.clone()))
        .collect();
    let at = |base: &str, parts: &[&str]| {
        (
            base.to_string(),
            parts.iter().map(|part| part.to_string()).collect::<Vec<String>>(),
        )
    };
    assert_eq!(
        found,
        vec![
            at("C:\\D", &["npm"]),
            at("C:\\P", &[".omp", "agent", "npm", "node_modules", ".bin"]),
            at("C:\\P", &[".cargo", "bin"]),
            at("C:\\P", &[".bun", "bin"]),
            at("C:\\P", &["scoop", "shims"]),
        ]
    );
    assert_eq!(windows_extra_dirs(None, None, Some("C:\\H"))[0].base, "C:\\H");
    assert_eq!(windows_extra_dirs(Some("C:\\D"), None, None).len(), 1);
    assert_eq!(windows_extra_dirs(None, None, None).len(), 0);
}

#[test]
fn diagnostics_name_the_commands_of_omp() {
    let report = child_path_diagnostics(Some("/h"), Some("/p"), Platform::Unix).unwrap();
    assert_eq!(report.omp_extension_bin.posix(), "/h/.omp/agent/npm/node_modules/.bin");
    assert_eq!(report.hypa_bin.posix(), "/h/.omp/agent/npm/node_modules/.bin/hypa");
    let report = child_path_diagnostics(None, Some("C:\\P"), Platform::Windows).unwrap();
    assert_eq!(report.hypa_bin.base, "C:\\P");
    assert_eq!(report.hypa_bin.parts.last().unwrap(), "hypa.cmd");
    assert!(child_path_diagnostics(None, None, Platform::Unix).is_none());
}

#[test]
fn diagnostics_find_a_directory_under_any_text() {
    assert!(posix_path_lists("/a:/h/bin/", "/h/bin"));
    assert!(posix_path_lists("/a:/h//bin", "/h/./bin"));
    assert!(!posix_path_lists("/a:/h/bin", "/h"));
    assert!(!posix_path_lists("", "/h"));
}

#[test]
fn diagnostics_are_reported_in_one_line() {
    let found = Some(PathFindings {
        omp_extension_bin: "/h/.bin".to_string(),
        exists: true,
        hypa_bin: "/h/.bin/hypa".to_string(),
        hypa_exists: false,
        contains_omp_extension_bin: true,
    });
    assert_eq!(
        child_path_line("spawn", "/a:/h/.bin", &found),
        "[ompcot] child PATH diagnostics: context=spawn omp_extension_bin=/h/.bin exists=true \
         hypa_bin=/h/.bin/hypa hypa_exists=false contains_omp_extension_bin=true path=/a:/h/.bin"
    );
    assert_eq!(
        child_path_line("run_pi_command", "/a", &None),
        "[ompcot] child PATH diagnostics: context=run_pi_command home=<unset> path=/a"
    );
}
