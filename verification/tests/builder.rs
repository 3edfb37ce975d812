use allayindexer::github::types::{
    GitTreeEntry, Owner, Release, ReleaseAsset, Repository, RepositoryLicense,
};
use allayindexer::nukkit::{ApiVersion, Authors, NukkitPluginYml};
use allayindexer::plugin::{GalleryItem, License};
use allayindexer::sync::builder::image::{process_html_images, process_md_images};
use allayindexer::sync::builder::link::{process_html_links, process_md_links};
use allayindexer::sync::builder::{
    build_license, categories_from_topics, default_branch, find_gallery_items, find_logo_url,
    nukkit_yml_to_plugin, parse_github_url, parse_timestamp, plugins_from_parts, process_readme,
    repo_owner_and_name, to_raw_url, PostProcessContext,
};

fn ctx() -> PostProcessContext<'static> {
    PostProcessContext { owner: "o", repo: "r", branch: "main" }
}

fn repo() -> Repository {
    Repository {
        id: 1,
        full_name: "o/r".to_string(),
        name: "r".to_string(),
        description: None,
        html_url: "https://github.com/o/r".to_string(),
        stargazers_count: 42,
        forks_count: 3,
        created_at: "2020-01-01T00:00:00Z".to_string(),
        updated_at: "2024-05-06T07:08:09Z".to_string(),
        pushed_at: String::new(),
        owner: Owner {
            login: "o".to_string(),
            avatar_url: "https://avatars/o.png".to_string(),
            html_url: String::new(),
        },
        license: None,
        topics: vec![],
        is_template: false,
        fork: false,
        archived: false,
        default_branch: Some("main".to_string()),
        contributors_url: String::new(),
    }
}

fn entry(path: &str, kind: &str) -> GitTreeEntry {
    GitTreeEntry { path: path.to_string(), entry_type: kind.to_string(), sha: String::new(), size: None }
}

fn yml() -> NukkitPluginYml {
    NukkitPluginYml {
        name: "Example".to_string(),
        version: "1.0.0".to_string(),
        main: "com.example.Main".to_string(),
        api: ApiVersion::Multiple(vec!["1.0.9".to_string(), "1.0.10".to_string()]),
        authors: Authors::Multiple(vec!["Ann".to_string(), "Bob".to_string()]),
        description: Some("Does things".to_string()),
        website: Some("https://example.org".to_string()),
        depend: vec!["EconomyAPI".to_string()],
        softdepend: vec!["LuckPerms".to_string()],
        load: None,
    }
}

#[test]
fn raw_url_format() {
    assert_eq!(
        to_raw_url("o", "r", "main", "a/b.png"),
        "https://raw.githubusercontent.com/o/r/main/a/b.png"
    );
}

#[test]
fn html_image_relative_src_rewritten() {
    let mut gallery: Vec<GalleryItem> = Vec::new();
    let out = process_html_images(r#"x <img src="./img/a.png" alt="Shot"> y"#, &ctx(), &mut gallery);
    assert_eq!(
        out,
        r#"x <img src="https://raw.githubusercontent.com/o/r/main/img/a.png" alt="Shot"> y"#
    );
    assert_eq!(gallery.len(), 1);
    assert_eq!(gallery[0].url, "https://raw.githubusercontent.com/o/r/main/img/a.png");
    assert_eq!(gallery[0].title, "Shot");
    assert_eq!(gallery[0].description, "");
    assert_eq!(gallery[0].created.len(), 10);
}

#[test]
fn html_image_absolute_src_kept() {
    let mut gallery: Vec<GalleryItem> = Vec::new();
    let text = r#"<img src="https://x.org/a.png"> <img src='data:image/png;base64,AA'>"#;
    let out = process_html_images(text, &ctx(), &mut gallery);
    assert_eq!(out, text);
    assert!(gallery.is_empty());
}

#[test]
fn html_image_without_alt_has_empty_title() {
    let mut gallery: Vec<GalleryItem> = Vec::new();
    let out = process_html_images("<img src='pic.png'>", &ctx(), &mut gallery);
    assert_eq!(out, "<img src='https://raw.githubusercontent.com/o/r/main/pic.png'>");
    assert_eq!(gallery[0].title, "");
}

#[test]
fn md_image_rewritten_and_added() {
    let mut gallery: Vec<GalleryItem> = Vec::new();
    gallery.push(GalleryItem {
        url: "u".to_string(),
        title: "t".to_string(),
        description: "d".to_string(),
        created: "c".to_string(),
    });
    let out = process_md_images("see ![Logo](./docs/logo.png) and ![](http://a/b.png)", &ctx(), &mut gallery);
    assert_eq!(
        out,
        "see ![Logo](https://raw.githubusercontent.com/o/r/main/docs/logo.png) and ![](http://a/b.png)"
    );
    assert_eq!(gallery.len(), 2);
    assert_eq!(gallery[0].url, "u");
    assert_eq!(gallery[1].title, "Logo");
}

#[test]
fn md_link_rewritten_but_not_images() {
    let out = process_md_links("[Docs](./docs/README.md) ![Pic](pic.png) [Site](https://a.b) [Top](#top)", &ctx());
    assert_eq!(
        out,
        "[Docs](https://github.com/o/r/blob/main/docs/README.md) ![Pic](pic.png) [Site](https://a.b) [Top](#top)"
    );
}

#[test]
fn md_link_mailto_kept() {
    let t = "[Mail](mailto:a@b.c)";
    assert_eq!(process_md_links(t, &ctx()), t);
}

#[test]
fn html_link_rewritten() {
    let out = process_html_links(r#"<a href="LICENSE">License</a> <a href="https://x">x</a>"#, &ctx());
    assert_eq!(
        out,
        r#"<a href="https://github.com/o/r/blob/main/LICENSE">License</a> <a href="https://x">x</a>"#
    );
}

#[test]
fn readme_processing_pipeline() {
    let readme = "# T\n<img src=\"a.png\">\n![B](b.png)\n[C](c.md)\n<a href='d.txt'>d</a>\n";
    let (out, gallery) = process_readme(readme, &ctx());
    assert_eq!(
        out,
        "# T\n<img src=\"https://raw.githubusercontent.com/o/r/main/a.png\">\n![B](https://raw.githubusercontent.com/o/r/main/b.png)\n[C](https://github.com/o/r/blob/main/c.md)\n<a href='https://github.com/o/r/blob/main/d.txt'>d</a>\n"
    );
    assert_eq!(gallery.len(), 2);
    assert_eq!(gallery[0].url, "https://raw.githubusercontent.com/o/r/main/a.png");
    assert_eq!(gallery[1].url, "https://raw.githubusercontent.com/o/r/main/b.png");
    assert_eq!(gallery[1].title, "B");
}

#[test]
fn logo_found_in_priority_order() {
    let tree = vec![entry("logo.png", "blob"), entry(".github/img/icon.png", "blob")];
    assert_eq!(
        find_logo_url(&tree, "o", "r", "dev"),
        Some("https://raw.githubusercontent.com/o/r/dev/.github/img/icon.png".to_string())
    );
    let tree = vec![entry("icon.png", "blob")];
    assert_eq!(
        find_logo_url(&tree, "o", "r", "dev"),
        Some("https://raw.githubusercontent.com/o/r/dev/icon.png".to_string())
    );
    assert_eq!(find_logo_url(&[entry("README.md", "blob")], "o", "r", "dev"), None);
}

#[test]
fn gallery_items_from_tree() {
    let tree = vec![
        entry(".github/img/logo.png", "blob"),
        entry(".github/img/shot1.png", "blob"),
        entry(".github/img/icon.png", "blob"),
        entry(".github/img/shot2.jpg", "blob"),
        entry(".github/img/sub", "tree"),
        entry("img/shot3.png", "blob"),
        entry(".github/img/shot4.png", "blob"),
    ];
    let items = find_gallery_items(&tree, "o", "r", "main");
    let urls: Vec<&str> = items.iter().map(|i| i.url.as_str()).collect();
    assert_eq!(
        urls,
        vec![
            "https://raw.githubusercontent.com/o/r/main/.github/img/shot1.png",
            "https://raw.githubusercontent.com/o/r/main/.github/img/shot4.png"
        ]
    );
    assert!(items.iter().all(|i| i.title.is_empty() && i.created.is_empty()));
}

#[test]
fn license_without_detection_is_arr() {
    let l = build_license(&repo(), "main");
    assert_eq!(l, License { id: "ARR".to_string(), name: "All Rights Reserved".to_string(), url: String::new() });
}

fn with_license(spdx: &str, html: Option<&str>) -> Repository {
    let mut r = repo();
    r.license = Some(RepositoryLicense {
        key: "k".to_string(),
        name: "Some License".to_string(),
        spdx_id: spdx.to_string(),
        url: None,
        html_url: html.map(|h| h.to_string()),
    });
    r
}

#[test]
fn license_urls() {
    let l = build_license(&with_license("MIT", Some("https://h/l")), "main");
    assert_eq!(l.url, "https://h/l");
    assert_eq!(l.id, "MIT");
    assert_eq!(l.name, "Some License");
    let l = build_license(&with_license("GPL-3.0", None), "main");
    assert_eq!(l.url, "https://spdx.org/licenses/GPL-3.0.html");
    let l = build_license(&with_license("NOASSERTION", None), "dev");
    assert_eq!(l.url, "https://github.com/o/r/blob/dev/LICENSE");
    let l = build_license(&with_license("LicenseRef-custom", None), "main");
    assert_eq!(l.url, "https://github.com/o/r/blob/main/LICENSE");
    let l = build_license(&with_license("", None), "main");
    assert_eq!(l.url, "https://github.com/o/r/blob/main/LICENSE");
}

#[test]
fn timestamps() {
    assert_eq!(parse_timestamp("2020-01-01T00:00:00Z"), 1577836800);
    assert_eq!(parse_timestamp("2020-01-01T01:00:00+01:00"), 1577836800);
    assert_eq!(parse_timestamp(""), 0);
    assert_eq!(parse_timestamp("yesterday"), 0);
    assert_eq!(parse_timestamp("1969-12-31T23:59:59Z"), u64::MAX);
}

#[test]
fn categories_from_repository_topics() {
    let topics: Vec<String> = ["nukkit-economy", "minigame", "nukkit", "nukkit-plugin", "world-generation", "games"]
        .iter()
        .map(|s| s.to_string())
        .collect();
    assert_eq!(categories_from_topics(&topics), vec!["economy", "minigame", "world-generation"]);
}

#[test]
fn github_url_parts() {
    assert_eq!(parse_github_url("https://github.com/a/b/"), Some(("a".to_string(), "b".to_string())));
    assert_eq!(parse_github_url("http://github.com/a/b"), None);
}

#[test]
fn owner_and_name_split_at_first_slash() {
    assert_eq!(repo_owner_and_name("a/b"), Some(("a".to_string(), "b".to_string())));
    assert_eq!(repo_owner_and_name("a/b/c"), Some(("a".to_string(), "b/c".to_string())));
    assert_eq!(repo_owner_and_name("ab"), None);
    let mut r = repo();
    assert_eq!(default_branch(&r), "main");
    r.default_branch = None;
    assert_eq!(default_branch(&r), "main");
    r.default_branch = Some("dev".to_string());
    assert_eq!(default_branch(&r), "dev");
}

fn release(tag: &str, name: Option<&str>) -> Release {
    Release {
        id: 7,
        tag_name: tag.to_string(),
        name: name.map(|n| n.to_string()),
        body: Some("notes".to_string()),
        prerelease: true,
        draft: false,
        created_at: String::new(),
        published_at: "2021-06-01T00:00:00Z".to_string(),
        assets: vec![
            ReleaseAsset {
                id: 1,
                name: "Example.jar".to_string(),
                size: 1234,
                download_count: 9,
                browser_download_url: "https://dl/Example.jar".to_string(),
                content_type: String::new(),
            },
            ReleaseAsset {
                id: 2,
                name: "source.zip".to_string(),
                size: 1,
                download_count: 0,
                browser_download_url: "https://dl/source.zip".to_string(),
                content_type: String::new(),
            },
        ],
    }
}

#[test]
fn plugin_from_yml() {
    let mut r = repo();
    r.topics = vec!["nukkit-utility".to_string(), "noise".to_string()];
    let license = License { id: "MIT".to_string(), name: "MIT License".to_string(), url: "u".to_string() };
    let repo_gallery = vec![GalleryItem {
        url: "g".to_string(),
        title: String::new(),
        description: String::new(),
        created: String::new(),
    }];
    let releases = vec![release("v1.0", None), release("v2.0", Some("Second"))];
    let p = nukkit_yml_to_plugin(
        yml(),
        &r,
        &releases,
        "![S](s.png)",
        &license,
        &[],
        "o",
        "r",
        "main",
        "https://icon",
        repo_gallery,
    )
    .unwrap();
    assert_eq!(p.id, "o/r");
    assert_eq!(p.name, "Example");
    assert_eq!(p.source, "https://github.com/o/r");
    assert_eq!(p.summary, "Does things");
    assert_eq!(p.description, "![S](https://raw.githubusercontent.com/o/r/main/s.png)");
    assert_eq!(p.authors.iter().map(|a| a.name.as_str()).collect::<Vec<_>>(), vec!["Ann", "Bob"]);
    assert_eq!(p.categories, vec!["utility"]);
    assert_eq!(p.license, license);
    assert_eq!(p.links.as_ref().unwrap().homepage, "https://example.org");
    assert_eq!(p.downloads, 0);
    assert_eq!(p.stars, 42);
    assert_eq!(p.created_at, 1577836800);
    assert_eq!(p.updated_at, 1714979289);
    assert_eq!(p.icon_url, "https://icon");
    assert_eq!(p.gallery.len(), 2);
    assert_eq!(p.gallery[0].url, "https://raw.githubusercontent.com/o/r/main/s.png");
    assert_eq!(p.gallery[1].url, "g");
    assert_eq!(p.versions.len(), 2);
    assert_eq!(p.versions[0].version, "v1.0");
    assert_eq!(p.versions[0].name, "v1.0");
    assert_eq!(p.versions[1].name, "Second");
    assert_eq!(p.versions[0].changelog, "notes");
    assert!(p.versions[0].prerelease);
    assert_eq!(p.versions[0].files.len(), 1);
    assert_eq!(p.versions[0].files[0].filename, "Example.jar");
    assert_eq!(p.versions[0].files[0].url, "https://dl/Example.jar");
    assert_eq!(p.versions[0].files[0].size, 1234);
    assert!(p.versions[0].files[0].primary);
    assert_eq!(p.versions[0].published_at, 1622505600);
    assert_eq!(p.api_version, "1.0.9");
    assert_eq!(p.server_version, "");
    assert_eq!(p.dependencies.len(), 2);
    assert_eq!(p.dependencies[0].plugin_id, "EconomyAPI");
    assert_eq!(p.dependencies[0].dependency_type, "required");
    assert_eq!(p.dependencies[1].plugin_id, "LuckPerms");
    assert_eq!(p.dependencies[1].dependency_type, "optional");
    assert!(p.preserved_fields.is_empty());
}

#[test]
fn plugin_without_optional_fields() {
    let mut y = yml();
    y.api = ApiVersion::Multiple(vec![]);
    y.description = None;
    y.website = None;
    let p = nukkit_yml_to_plugin(y, &repo(), &[], "", &License::default(), &[], "o", "r", "main", "i", vec![]).unwrap();
    assert_eq!(p.api_version, "");
    assert_eq!(p.summary, "");
    assert!(p.links.is_none());
    assert!(p.versions.is_empty());
    assert!(p.gallery.is_empty());
}

#[test]
fn plugins_from_fetched_parts() {
    let mut r = repo();
    r.default_branch = Some("dev".to_string());
    let tree = vec![entry(".github/img/logo.png", "blob"), entry(".github/img/a.png", "blob")];
    let ps = plugins_from_parts(&r, "o", "r", yml(), &[], "", &[], &tree);
    assert_eq!(ps.len(), 1);
    let p = &ps[0];
    assert_eq!(p.icon_url, "https://raw.githubusercontent.com/o/r/dev/.github/img/logo.png");
    assert_eq!(p.license.id, "ARR");
    assert_eq!(p.gallery.len(), 1);
    assert_eq!(p.gallery[0].url, "https://raw.githubusercontent.com/o/r/dev/.github/img/a.png");
    let ps = plugins_from_parts(&repo(), "o", "r", yml(), &[], "", &[], &[]);
    assert_eq!(ps[0].icon_url, "https://avatars/o.png");
}
