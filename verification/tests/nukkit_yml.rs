//! The `plugin.yml` scenarios. The serde parse itself belongs to the command line (a
//! derive cannot stand in the library), so each YAML text is read here with `serde_yaml`
//! into the library's `NukkitPluginYml`, field by field as the serde definition maps it;
//! what these tests check is the library's side: `ApiVersion` and `Authors` (single or
//! list), `primary`, `as_vec` and `all_dependencies`.
use allayindexer::nukkit::{ApiVersion, Authors, NukkitPluginYml};

fn strings(v: &serde_yaml::Value) -> Vec<String> {
    v.as_sequence()
        .map(|s| s.iter().filter_map(|x| x.as_str().map(|t| t.to_string())).collect())
        .unwrap_or_default()
}

fn text(m: &serde_yaml::Mapping, key: &str) -> Option<String> {
    m.get(key).and_then(|v| match v {
        serde_yaml::Value::String(s) => Some(s.clone()),
        serde_yaml::Value::Number(n) => Some(n.to_string()),
        _ => None,
    })
}

/// Reads a plugin.yml the way its serde definition does, into the library's type.
fn from_str(yaml: &str) -> NukkitPluginYml {
    let v: serde_yaml::Value = serde_yaml::from_str(yaml).unwrap();
    let m = v.as_mapping().unwrap();
    let api = match m.get("api") {
        Some(serde_yaml::Value::String(s)) => ApiVersion::Single(s.clone()),
        Some(other) => ApiVersion::Multiple(strings(other)),
        None => ApiVersion::default(),
    };
    let authors = match m.get("authors") {
        Some(serde_yaml::Value::String(s)) => Authors::Single(s.clone()),
        Some(other) => Authors::Multiple(strings(other)),
        None => Authors::default(),
    };
    NukkitPluginYml {
        name: text(m, "name").unwrap(),
        version: text(m, "version").unwrap(),
        main: text(m, "main").unwrap(),
        api,
        authors,
        description: text(m, "description"),
        website: text(m, "website"),
        depend: m.get("depend").map(strings).unwrap_or_default(),
        softdepend: m.get("softdepend").map(strings).unwrap_or_default(),
        load: text(m, "load"),
    }
}

#[test]
fn test_parse_basic_plugin_yml() {
    let yaml = r#"
name: ExamplePlugin
version: 1.0.0
main: com.example.ExamplePlugin
api: ["1.0.0"]
authors: ["Author1"]
description: An example plugin
"#;

    let plugin = from_str(yaml);
    assert_eq!(plugin.name, "ExamplePlugin");
    assert_eq!(plugin.version, "1.0.0");
    assert_eq!(plugin.main, "com.example.ExamplePlugin");
}

#[test]
fn test_parse_single_author() {
    let yaml = r#"
name: TestPlugin
version: 1.0.0
main: com.test.TestPlugin
authors: SingleAuthor
"#;

    let plugin = from_str(yaml);
    assert_eq!(plugin.authors.as_vec(), vec!["SingleAuthor"]);
}

#[test]
fn test_parse_multiple_authors() {
    let yaml = r#"
name: TestPlugin
version: 1.0.0
main: com.test.TestPlugin
authors: ["Author1", "Author2"]
"#;

    let plugin = from_str(yaml);
    assert_eq!(plugin.authors.as_vec(), vec!["Author1", "Author2"]);
}

#[test]
fn test_parse_dependencies() {
    let yaml = r#"
name: TestPlugin
version: 1.0.0
main: com.test.TestPlugin
depend: ["PluginA"]
softdepend: ["PluginB", "PluginC"]
"#;

    let plugin = from_str(yaml);
    assert_eq!(plugin.depend, vec!["PluginA"]);
    assert_eq!(plugin.softdepend, vec!["PluginB", "PluginC"]);
    assert_eq!(plugin.all_dependencies(), vec!["PluginA", "PluginB", "PluginC"]);
}

#[test]
fn test_api_version_single() {
    let yaml = r#"
name: TestPlugin
version: 1.0.0
main: com.test.TestPlugin
api: "1.0.0"
"#;

    let plugin = from_str(yaml);
    assert_eq!(plugin.api.primary(), Some("1.0.0".to_string()));
    assert_eq!(plugin.api.as_vec(), vec!["1.0.0"]);
}

#[test]
fn test_api_version_multiple() {
    let yaml = r#"
name: TestPlugin
version: 1.0.0
main: com.test.TestPlugin
api: ["1.0.0", "1.0.1"]
"#;

    let plugin = from_str(yaml);
    assert_eq!(plugin.api.primary(), Some("1.0.0".to_string()));
    assert_eq!(plugin.api.as_vec(), vec!["1.0.0", "1.0.1"]);
}

#[test]
fn api_version_default_is_empty() {
    let api = ApiVersion::default();
    assert_eq!(api.as_vec(), Vec::<String>::new());
    assert_eq!(api.primary(), None);
    let authors = Authors::default();
    assert!(authors.as_vec().is_empty());
}

#[test]
fn all_dependencies_without_soft_ones() {
    let yml = NukkitPluginYml {
        name: "P".to_string(),
        version: "1".to_string(),
        main: "a.B".to_string(),
        api: ApiVersion::Multiple(vec![]),
        authors: Authors::Multiple(vec![]),
        description: None,
        website: None,
        depend: vec!["X".to_string()],
        softdepend: vec![],
        load: None,
    };
    assert_eq!(yml.all_dependencies(), vec!["X"]);
}
