use allayindexer::plugin::{
    normalize_field_key, plugin_file_name, preserved_field_names, stored_field_key, Author, License,
    Plugin,
};

#[test]
fn field_keys_read_and_written() {
    assert_eq!(normalize_field_key("!summary"), ("summary".to_string(), true));
    assert_eq!(normalize_field_key("summary"), ("summary".to_string(), false));
    assert_eq!(normalize_field_key("!"), ("".to_string(), true));
    let preserved = vec!["summary".to_string()];
    assert_eq!(stored_field_key("summary", &preserved), "!summary");
    assert_eq!(stored_field_key("name", &preserved), "name");
}

#[test]
fn field_key_roundtrip() {
    let preserved = vec!["icon_url".to_string(), "categories".to_string()];
    for name in ["icon_url", "categories", "name", "id"] {
        let stored = stored_field_key(name, &preserved);
        let (back, marked) = normalize_field_key(&stored);
        assert_eq!(back, name);
        assert_eq!(marked, preserved.iter().any(|p| p == name));
    }
}

#[test]
fn preserved_names_from_keys() {
    let keys: Vec<String> = ["id", "!summary", "name", "!gallery"].iter().map(|s| s.to_string()).collect();
    assert_eq!(preserved_field_names(&keys), vec!["summary", "gallery"]);
}

#[test]
fn entry_file_name() {
    assert_eq!(plugin_file_name("AllayMC/Example"), "AllayMC/Example.json");
}

#[test]
fn author_name_of_plugin() {
    let mut p = Plugin {
        id: String::new(),
        name: String::new(),
        source: String::new(),
        summary: String::new(),
        description: String::new(),
        authors: vec![],
        categories: vec![],
        license: License::default(),
        links: None,
        downloads: 0,
        stars: 0,
        created_at: 0,
        updated_at: 0,
        icon_url: String::new(),
        gallery: vec![],
        versions: vec![],
        api_version: String::new(),
        server_version: String::new(),
        dependencies: vec![],
        preserved_fields: vec![],
    };
    assert_eq!(p.get_author_name(), "");
    p.authors.push(Author { name: "Ann".to_string(), url: String::new(), avatar_url: String::new() });
    p.authors.push(Author { name: "Bob".to_string(), url: String::new(), avatar_url: String::new() });
    assert_eq!(p.get_author_name(), "Ann");
}
