use dsh_desktop::plugins::{bundles_of, get, list_plugins, plugins_of_manifest_text, Json};

fn s(x: &str) -> Json {
    Json::Str(x.to_string())
}

fn obj(entries: Vec<(&str, Json)>) -> Json {
    Json::Object(entries.into_iter().map(|(k, v)| (k.to_string(), v)).collect())
}

fn manifest() -> Json {
    obj(vec![
        ("name", s("web-profile")),
        (
            "dsh",
            obj(vec![(
                "profile",
                obj(vec![("bundles", Json::Array(vec![s("zeta-plugin"), Json::Number, s("alpha")]))]),
            )]),
        ),
        (
            "dependencies",
            obj(vec![
                ("zeta-plugin", s("^1.2.0")),
                ("alpha", s("~^0.3.1")),
                ("github:owner/repo", s("github:owner/repo")),
                ("mid", Json::Number),
            ]),
        ),
    ])
}

#[test]
fn plugins_listed_sorted_with_versions() {
    let list = list_plugins(&manifest());
    let names: Vec<&str> = list.iter().map(|p| p.name.as_str()).collect();
    assert_eq!(names, vec!["alpha", "github:owner/repo", "mid", "zeta-plugin"]);
    assert_eq!(list[0].version, "^0.3.1");
    assert!(list[0].is_bundle);
    assert_eq!(list[1].version, "github:owner/repo");
    assert!(!list[1].is_bundle);
    assert_eq!(list[2].version, "");
    assert_eq!(list[3].version, "1.2.0");
    assert!(list[3].is_bundle);
}

#[test]
fn plugins_without_dependencies() {
    assert!(list_plugins(&obj(vec![("name", s("x"))])).is_empty());
    assert!(list_plugins(&Json::Null).is_empty());
    assert!(list_plugins(&obj(vec![("dependencies", Json::Array(vec![]))])).is_empty());
}

#[test]
fn bundles_need_an_array() {
    assert_eq!(bundles_of(&manifest()), vec!["zeta-plugin", "alpha"]);
    let m = obj(vec![("dsh", obj(vec![("profile", obj(vec![("bundles", s("a"))]))]))]);
    assert!(bundles_of(&m).is_empty());
}

#[test]
fn member_lookup() {
    let m = manifest();
    assert!(matches!(get(&m, "name"), Some(Json::Str(x)) if x == "web-profile"));
    assert!(get(&m, "missing").is_none());
    assert!(get(&Json::Bool(true), "name").is_none());
}

#[test]
fn versions_lose_leading_caret_then_tilde() {
    let m = obj(vec![("dependencies", obj(vec![("a", s("^^~~1")), ("b", s("~^2"))]))]);
    let list = list_plugins(&m);
    assert_eq!(list[0].version, "1");
    assert_eq!(list[1].version, "^2");
}

#[test]
fn plugins_from_manifest_text() {
    let text = r#"{
        "name": "web",
        "dsh": { "profile": { "bundles": ["b-plugin", 3] } },
        "dependencies": { "z-plugin": "^2.0.0", "b-plugin": "~1.0.1", "n": 5 }
    }"#;
    let list = plugins_of_manifest_text(false, text).unwrap();
    let rows: Vec<(&str, &str, bool)> =
        list.iter().map(|p| (p.name.as_str(), p.version.as_str(), p.is_bundle)).collect();
    assert_eq!(rows, vec![("b-plugin", "1.0.1", true), ("n", "", false), ("z-plugin", "2.0.0", false)]);
}

#[test]
fn manifest_text_without_dependencies() {
    assert!(plugins_of_manifest_text(false, "{}").unwrap().is_empty());
    assert!(plugins_of_manifest_text(false, "[1, 2]").unwrap().is_empty());
}

#[test]
fn manifest_text_that_is_not_json() {
    let e = plugins_of_manifest_text(false, "{ not json").err().unwrap();
    assert!(e.starts_with("Failed to parse package.json: "), "{}", e);
    assert!(e.len() > "Failed to parse package.json: ".len());
    let z = plugins_of_manifest_text(true, "").err().unwrap();
    assert!(z.starts_with("解析 package.json 失败: "), "{}", z);
}

#[test]
fn repeated_key_keeps_one_entry() {
    let text = r#"{"dependencies": {"b": "1", "a": "2", "b": "^3"}}"#;
    let list = plugins_of_manifest_text(false, text).unwrap();
    let rows: Vec<(&str, &str)> = list.iter().map(|p| (p.name.as_str(), p.version.as_str())).collect();
    assert_eq!(rows, vec![("a", "2"), ("b", "3")]);
}
