use code_maven::{
    filter_words, process_liquid_include, process_liquid_tags_for_text,
    process_liquid_tags_youtube, topath, Config, ConfigArchive, ConfigNavbar, ConfigTag,
    FileEntry, Page,
};

fn demo_config() -> Config {
    Config {
        url: "https://rust.code-maven.com".to_string(),
        repo: "https://github.com/szabgab/code-maven.rs/".to_string(),
        branch: "main".to_string(),
        link_to_source: false,
        tags: ConfigTag { description: String::new(), title: String::new() },
        archive: ConfigArchive { title: String::new(), description: String::new() },
        from: None,
        authors: vec![],
        footer: String::new(),
        site_name: String::new(),
        author_name: String::new(),
        navbar: ConfigNavbar { start: vec![], end: vec![] },
        google_analytics: String::new(),
        show_related: false,
        related_pages_title: String::new(),
    }
}

fn item_page(title: &str, url_path: &str, tags: &[&str]) -> Page {
    let mut page = Page::new();
    page.title = title.to_string();
    page.url_path = url_path.to_string();
    page.tags = tags.iter().map(|t| t.to_string()).collect();
    page
}

fn items() -> Vec<Page> {
    vec![
        item_page("one", "1", &["web"]),
        item_page("two", "2", &["programming"]),
        item_page("three", "3", &["web"]),
        item_page("four", "4", &["programming"]),
        item_page("five", "5", &["web"]),
        item_page("six", "6", &["programming"]),
        item_page("seven", "7", &["web"]),
        item_page("eight", "8", &["programming"]),
        item_page("nine", "9", &["web"]),
        item_page("ten", "10", &["web"]),
    ]
}

#[test]
fn include_file() {
    let config = demo_config();
    let files = vec![FileEntry {
        path: "./test_cases/demo/examples/demo.yaml".to_string(),
        content: "field: value\n".to_string(),
    }];
    let output = process_liquid_include(
        &config,
        ".",
        r#"{% include file = "test_cases/demo/examples/demo.yaml" %}"#,
        &files,
    )
    .unwrap();
    assert_eq!(output, "**[test_cases/demo/examples/demo.yaml](https://github.com/szabgab/code-maven.rs//tree/main/test_cases/demo/examples/demo.yaml)**\n```yaml\nfield: value\n\n```\n");
}

#[test]
fn missing_include_file() {
    let config = demo_config();
    let files: Vec<FileEntry> = vec![];
    let result = process_liquid_include(
        &config,
        ".",
        r#"{% include file = "test_cases/other.txt" %}"#,
        &files,
    );
    assert!(result.is_err());
    let result = result.err().unwrap();
    assert_eq!(result, "Failed to read file \"./test_cases/other.txt\"");
}

#[test]
fn include_file_invalid_extension() {
    let config = demo_config();
    let files: Vec<FileEntry> = vec![];
    let result = process_liquid_include(
        &config,
        ".",
        r#"{% include file = "test_cases/other.qqrq" %}"#,
        &files,
    );
    assert!(result.is_err());
    let result = result.err().unwrap();
    assert_eq!(result, "Unhandled extension 'qqrq' in test_cases/other.qqrq");
}

#[test]
fn latest_5_none() {
    let pages = items();
    let output = process_liquid_tags_for_text(r#"{% latest limit=5 %}"#, &pages).unwrap();
    assert_eq!(
        output,
        "* [one](/1)\n* [two](/2)\n* [three](/3)\n* [four](/4)\n* [five](/5)\n"
    );
}

#[test]
fn latest_5_web() {
    let pages = items();
    let output =
        process_liquid_tags_for_text(r#"{% latest limit=5   tag="web" %}"#, &pages).unwrap();
    assert_eq!(
        output,
        "* [one](/1)\n* [three](/3)\n* [five](/5)\n* [seven](/7)\n* [nine](/9)\n"
    );
}

#[test]
fn youtube_id_only() {
    let output = process_liquid_tags_youtube(r#"{% youtube id="R2_D2" %}"#);
    assert_eq!(
        output,
        format!(
            "{}\n",
            r#"<iframe width="560" height="315" src="https://www.youtube.com/embed/R2_D2" title="YouTube video player" frameborder="0" allow="accelerometer; autoplay; clipboard-write; encrypted-media; gyroscope; picture-in-picture; web-share" allowfullscreen></iframe>"#
        )
    );
}

#[test]
fn test_topath() {
    let cases = vec![("hello", "hello"), ("#", "number-sign")];
    for entry in cases {
        assert_eq!(topath(entry.0), entry.1.to_string());
    }
}

#[test]
fn test_filter_words() {
    let original = vec![
        "hello".to_string(),
        "one 2 three".to_string(),
        "'".to_string(),
    ];
    let expected = vec!["hello".to_string(), "one 2 three".to_string()];

    let filtered = filter_words(&original);
    assert_eq!(filtered, expected);
}
