use omp_manager::platform::Platform;
use omp_manager::windows::{
    mirror_is_up_to_date, mirror_to_space_free_dir, needs_mirror, sanitize_extension_path_for_omp,
    strip_verbatim_prefix, FileStamp,
};

#[test]
fn verbatim_prefixes_are_stripped_on_windows() {
    let strip = |path: &str| strip_verbatim_prefix(path, Platform::Windows);
    assert_eq!(strip("\\\\?\\C:\\Users\\me\\omp.exe"), "C:\\Users\\me\\omp.exe");
    assert_eq!(strip("\\\\?\\UNC\\server\\share"), "\\\\server\\share");
    assert_eq!(strip("C:\\Users\\me"), "C:\\Users\\me");
    assert_eq!(strip("\\\\server\\share"), "\\\\server\\share");
    assert_eq!(strip("\\\\?\\UNCLE\\x"), "UNCLE\\x");
    assert_eq!(strip("\\\\?\\"), "");
    assert_eq!(strip(""), "");
}

#[test]
fn nothing_is_stripped_on_unix() {
    for path in ["/usr/bin/omp", "\\\\?\\C:\\x", "\\\\?\\UNC\\s"] {
        assert_eq!(strip_verbatim_prefix(path, Platform::Unix), path);
    }
}

#[test]
fn stripping_undoes_putting_the_prefix_before() {
    for path in ["C:\\a b", "D:", "\\\\?\\C:\\x"] {
        let verbatim = format!("\\\\?\\{}", path);
        assert_eq!(strip_verbatim_prefix(&verbatim, Platform::Windows), path);
    }
}

#[test]
fn only_windows_paths_with_spaces_are_mirrored() {
    let spaced = "C:\\Users\\Shi Xin\\embedded-server.mjs";
    let plain = "C:\\Ompcot\\embedded-server.mjs";
    assert!(needs_mirror(spaced, Platform::Windows));
    assert!(!needs_mirror(plain, Platform::Windows));
    assert!(!needs_mirror("/a b/c", Platform::Unix));

    let mirror = Some("C:\\Temp\\ompcot-ext\\embedded-server.mjs");
    let safe = |path: &str, platform: Platform, mirrored: Option<&str>| {
        sanitize_extension_path_for_omp(path, platform, mirrored)
    };
    assert_eq!(safe(spaced, Platform::Windows, mirror), mirror.unwrap());
    assert_eq!(safe(spaced, Platform::Windows, None), spaced);
    assert_eq!(safe(plain, Platform::Windows, mirror), plain);
    assert_eq!(safe("/a b/c", Platform::Unix, mirror), "/a b/c");
}

#[test]
fn mirrors_are_kept_in_a_directory_without_spaces() {
    let plan = mirror_to_space_free_dir("C:\\Temp", Some("server.mjs")).unwrap_or_else(|e| panic!("{}", e));
    assert_eq!(plan.dir.base, "C:\\Temp");
    assert_eq!(plan.dir.parts, vec!["ompcot-ext"]);
    assert_eq!(plan.file.base, "C:\\Temp");
    assert_eq!(plan.file.parts, vec!["ompcot-ext", "server.mjs"]);

    let plan = mirror_to_space_free_dir("C:\\Users\\Shi Xin\\Temp", Some("server.mjs"))
        .unwrap_or_else(|e| panic!("{}", e));
    assert_eq!(plan.dir.base, "C:\\ProgramData\\ompcot");
    assert_eq!(plan.file.parts, vec!["ompcot-ext", "server.mjs"]);
}

#[test]
fn a_path_without_a_file_name_cannot_be_mirrored() {
    match mirror_to_space_free_dir("C:\\Temp", None) {
        Ok(_) => panic!("a plan without a file name"),
        Err(message) => assert_eq!(message, "extension path has no file name"),
    }
}

#[test]
fn mirrors_are_written_again_when_the_source_changes() {
    let stamp = |len: u64, modified: Option<i128>| Some(FileStamp { len, modified });
    let source = stamp(10, Some(100));
    assert!(mirror_is_up_to_date(source, stamp(10, Some(100))));
    assert!(!mirror_is_up_to_date(source, stamp(10, Some(101))));
    assert!(!mirror_is_up_to_date(source, stamp(10, Some(99))));
    assert!(!mirror_is_up_to_date(source, stamp(11, Some(100))));
    assert!(!mirror_is_up_to_date(source, stamp(10, None)));
    assert!(!mirror_is_up_to_date(stamp(10, None), stamp(10, Some(100))));
    assert!(!mirror_is_up_to_date(source, None));
    assert!(!mirror_is_up_to_date(None, source));
    assert!(mirror_is_up_to_date(stamp(10, Some(-5)), stamp(10, Some(-5))));
}
