use omp_manager::manager::OmpManager;
use omp_manager::packages::{
    install_command, list_command, package_sources, read_package_listing, strip_source_scheme,
    uninstall_command,
};
use serde_json::Value;

fn object(members: Vec<(&str, Value)>) -> Value {
    let mut map = serde_json::Map::new();
    for (key, value) in members {
        map.insert(key.to_string(), value);
    }
    Value::Object(map)
}

fn text(value: &str) -> Value {
    Value::String(value.to_string())
}

#[test]
fn sources_are_listed_by_origin() {
    let listing = object(vec![
        (
            "marketplace",
            Value::Array(vec![object(vec![("id", text("m1")), ("scope", text("user"))])]),
        ),
        (
            "npm",
            Value::Array(vec![
                object(vec![("name", text("a")), ("version", text("1.0.0"))]),
                object(vec![("name", text("@s/b"))]),
            ]),
        ),
    ]);
    assert_eq!(package_sources(&listing), vec!["npm:a", "npm:@s/b", "m1"]);
}

#[test]
fn entries_without_a_name_are_passed_over() {
    let listing = object(vec![
        (
            "npm",
            Value::Array(vec![
                Value::Null,
                text("a"),
                object(vec![("id", text("x"))]),
                object(vec![("name", Value::Bool(true))]),
                object(vec![("name", text("kept"))]),
            ]),
        ),
        ("marketplace", object(vec![("id", text("no array"))])),
    ]);
    assert_eq!(package_sources(&listing), vec!["npm:kept"]);
    assert!(package_sources(&Value::Null).is_empty());
    assert!(package_sources(&Value::Array(vec![listing])).is_empty());
}

#[test]
fn listings_are_read_from_text() {
    let output = "\n {\"npm\": [{\"name\": \"pkg\", \"version\": \"1.0.0\"}], \
                  \"marketplace\": [{\"id\": \"pkg2\", \"scope\": \"user\"}]} \n";
    let expected = vec!["npm:pkg".to_string(), "pkg2".to_string()];
    assert_eq!(read_package_listing(output), Ok(expected.clone()));
    let manager = OmpManager::new("/s".to_string());
    assert_eq!(
        manager.list_configured_package_sources(Ok(output.to_string())),
        Ok(expected)
    );
    assert_eq!(
        manager.list_configured_package_sources(Ok("{}".to_string())),
        Ok(Vec::new())
    );
}

#[test]
fn unreadable_listings_are_reported() {
    let error = serde_json::from_str::<Value>("not json").unwrap_err().to_string();
    let message = format!("Failed to parse `omp plugin list --json` output: {}", error);
    assert_eq!(read_package_listing(" not json\n"), Err(message.clone()));
    let manager = OmpManager::new("/s".to_string());
    assert_eq!(
        manager.list_configured_package_sources(Ok("not json".to_string())),
        Err(message)
    );
    assert_eq!(
        manager.list_configured_package_sources(Err("omp failed".to_string())),
        Err("omp failed".to_string())
    );
}

#[test]
fn sources_of_npm_lose_their_scheme() {
    assert_eq!(strip_source_scheme("npm:left-pad"), "left-pad");
    assert_eq!(strip_source_scheme("left-pad"), "left-pad");
    assert_eq!(strip_source_scheme("npm:npm:x"), "npm:x");
    assert_eq!(strip_source_scheme("npm:"), "");
}

#[test]
fn commands_name_the_bare_package() {
    assert_eq!(install_command("npm:a"), vec!["install", "a"]);
    assert_eq!(uninstall_command("npm:a"), vec!["plugin", "uninstall", "a"]);
    assert_eq!(list_command(), vec!["plugin", "list", "--json"]);
    let manager = OmpManager::new("/s".to_string());
    assert_eq!(manager.install_package_source("b"), vec!["install", "b"]);
    assert_eq!(manager.remove_package_source("npm:b"), vec!["plugin", "uninstall", "b"]);
}

#[test]
fn listed_npm_sources_can_be_installed() {
    let listing = object(vec![(
        "npm",
        Value::Array(vec![object(vec![("name", text("@scope/pkg"))])]),
    )]);
    for source in package_sources(&listing) {
        assert_eq!(install_command(&source)[1], "@scope/pkg");
    }
}
