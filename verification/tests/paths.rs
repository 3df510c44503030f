use omp_manager::location::Location;
use omp_manager::posix::{components_of, parent_of, push_part};
use std::path::{Path, PathBuf};

/// All texts over a few characters, up to a length.
fn all_texts(longest: usize) -> Vec<String> {
    let mut all = vec![String::new()];
    let mut last = vec![String::new()];
    for _ in 0..longest {
        let mut next = Vec::new();
        for text in &last {
            for c in ['a', '.', '/'] {
                let mut longer = text.clone();
                longer.push(c);
                next.push(longer);
            }
        }
        all.extend(next.clone());
        last = next;
    }
    all
}

#[test]
fn components_are_those_of_unix_paths() {
    for text in all_texts(8) {
        let expected: Vec<String> = Path::new(&text)
            .components()
            .map(|component| component.as_os_str().to_string_lossy().to_string())
            .collect();
        assert_eq!(components_of(&text), expected, "{:?}", text);
    }
}

#[test]
fn paths_with_the_same_components_are_the_same() {
    let texts = all_texts(4);
    let components: Vec<Vec<String>> = texts.iter().map(|text| components_of(text)).collect();
    for (i, a) in texts.iter().enumerate() {
        for (j, b) in texts.iter().enumerate() {
            assert_eq!(
                components[i] == components[j],
                PathBuf::from(a) == PathBuf::from(b),
                "{:?} {:?}",
                a,
                b
            );
        }
    }
}

#[test]
fn parents_are_those_of_unix_paths() {
    for text in all_texts(8) {
        let expected = Path::new(&text).parent().map(|path| path.to_str().unwrap());
        assert_eq!(parent_of(&text), expected, "{:?}", text);
    }
    assert_eq!(parent_of("/opt/ompcot/public"), Some("/opt/ompcot"));
    assert_eq!(parent_of("/"), None);
    assert_eq!(parent_of("public"), Some(""));
}

#[test]
fn parent_drops_the_last_component() {
    for text in all_texts(6) {
        let mut components = components_of(&text);
        match parent_of(&text) {
            Some(parent) => {
                components.pop();
                assert_eq!(components_of(parent), components);
            }
            None => assert!(components.is_empty() || components == vec!["/".to_string()]),
        }
    }
}

#[test]
fn parts_are_pushed_as_on_unix() {
    let texts = all_texts(4);
    for base in &texts {
        for part in &texts {
            let expected = Path::new(base).join(part);
            assert_eq!(push_part(base, part), expected.to_str().unwrap(), "{:?} {:?}", base, part);
        }
    }
    assert_eq!(push_part("/home/u", ".omp"), "/home/u/.omp");
}

#[test]
fn locations_are_written_part_by_part() {
    let location = Location::at("/srv/").join("extensions").join("embedded-server.ts");
    assert_eq!(location.base, "/srv/");
    assert_eq!(location.parts, vec!["extensions", "embedded-server.ts"]);
    assert_eq!(location.posix(), "/srv/extensions/embedded-server.ts");
    assert_eq!(Location::at("/srv").posix(), "/srv");
}
