use code_maven::{
    assemble_pages, check_for_invalid_curly_code, check_unique_dates, check_unique_nicknames,
    collect_backlinks, collect_tags, get_files_to_copy, get_pages_path, get_recent, language_for,
    markdown_pages, process_liquid_tags, read_languages, read_md_text, resolve_author,
    select_drafts, select_todo_pages, Author, BuildError, Config, ConfigArchive, ConfigNavbar,
    ConfigTag, FileEntry, Page,
};

fn plain_config() -> Config {
    Config {
        url: "https://rust.code-maven.com".to_string(),
        repo: "https://github.com/szabgab/rust.code-maven.com".to_string(),
        branch: "main".to_string(),
        link_to_source: false,
        tags: ConfigTag { description: String::new(), title: String::new() },
        archive: ConfigArchive { title: String::new(), description: String::new() },
        from: None,
        authors: vec![Author {
            name: "Gabor Szabo".to_string(),
            nickname: "szabgab".to_string(),
            picture: "szabgab.png".to_string(),
            text: String::new(),
        }],
        footer: String::new(),
        site_name: String::new(),
        author_name: String::new(),
        navbar: ConfigNavbar { start: vec![], end: vec![] },
        google_analytics: String::new(),
        show_related: false,
        related_pages_title: String::new(),
    }
}

#[test]
fn read_index_content() {
    let text = "---\ntitle: \"Index page\"\ntimestamp: \"2015-10-11T12:30:01\"\ndescription: The text for the search engines\npublished: true\n---\n\nSome Text.\n\nSome more text after an empty row.\n";
    let page = read_md_text("pages/index.md", text).unwrap();
    assert_eq!(page.title, "Index page");
    assert_eq!(page.timestamp, "2015-10-11T12:30:01");
    assert_eq!(page.description, "The text for the search engines");
    assert_eq!(page.filename, "index.md");
    assert_eq!(page.url_path, "");
    assert!(page.published);
    assert_eq!(
        page.content,
        "\nSome Text.\n\nSome more text after an empty row.\n"
    );
}

#[test]
fn read_page_with_lists() {
    let text = "---\ntitle: Page with todos\ntimestamp: 2023-10-11T12:30:01\npublished: true\ntodo:\n  - Add another article extending on the topic\n  - Add an article describing a prerequisite\ntags:\n  - println!\n  - fn\n---\n\nSome Content.\n";
    let page = read_md_text("pages/with_todo.md", text).unwrap();
    assert_eq!(page.title, "Page with todos");
    assert_eq!(page.url_path, "with_todo");
    assert_eq!(page.filename, "with_todo.md");
    assert_eq!(
        page.todo,
        vec![
            "Add another article extending on the topic".to_string(),
            "Add an article describing a prerequisite".to_string(),
        ]
    );
    assert_eq!(page.tags, vec!["println!".to_string(), "fn".to_string()]);
    assert_eq!(page.content, "\nSome Content.\n");
}

#[test]
fn missing_title_without_front_matter() {
    let err = read_md_text("pages/bad.md", "Just text.\n").err().unwrap();
    assert_eq!(err.message(), "Missing title in 'pages/bad.md'");
    assert!(matches!(err, BuildError::MissingTitle { .. }));
}

#[test]
fn missing_title_empty_value() {
    let text = "---\ntitle: \"\"\ntimestamp: 2015-10-11T12:30:01\npublished: true\n---\nBody.\n";
    let err = read_md_text("pages/bad.md", text).err().unwrap();
    assert!(matches!(err, BuildError::MissingTitle { .. }));
}

#[test]
fn bad_timestamp_out_of_range() {
    let text = "---\ntitle: T\ntimestamp: 2015-02-30T12:30:01\npublished: true\n---\nBody.\n";
    let err = read_md_text("pages/ts.md", text).err().unwrap();
    assert_eq!(
        err.message(),
        "Invalid date '2015-02-30T12:30:01' in pages/ts.md: input is out of range"
    );
}

#[test]
fn bad_timestamp_shape() {
    let text = "---\ntitle: T\ntimestamp: 2015-02-03\npublished: true\n---\nBody.\n";
    let err = read_md_text("pages/ts.md", text).err().unwrap();
    assert_eq!(
        err.message(),
        "Invalid date '2015-02-03' in pages/ts.md: premature end of input"
    );
}

#[test]
fn leap_day_is_accepted() {
    let text = "---\ntitle: T\ntimestamp: 2016-02-29T00:00:00\npublished: true\n---\nBody.\n";
    assert!(read_md_text("pages/ts.md", text).is_ok());
    let text2 = "---\ntitle: T\ntimestamp: 2015-02-29T00:00:00\npublished: true\n---\nBody.\n";
    assert!(read_md_text("pages/ts.md", text2).is_err());
}

#[test]
fn unknown_field_is_fatal() {
    let text = "---\ntitle: T\ntimestamp: 2015-10-11T12:30:01\npublished: true\npassword: x\n---\nBody.\n";
    let err = read_md_text("pages/key.md", text).err().unwrap();
    assert!(matches!(err, BuildError::MetadataParseError { .. }));
    assert!(err.message().contains("unknown field `password`"));
    assert!(err.message().contains("pages/key.md"));
}

#[test]
fn empty_tag_is_fatal() {
    let text =
        "---\ntitle: T\ntimestamp: 2015-10-11T12:30:01\npublished: true\ntags:\n  - \"\"\n---\nBody.\n";
    let err = read_md_text("pages/tag.md", text).err().unwrap();
    assert_eq!(err.message(), "There is an empty tag in pages/tag.md");
}

#[test]
fn rendered_paragraph() {
    let text = "---\ntitle: \"Index page\"\ntimestamp: \"2015-10-11T12:30:01\"\npublished: true\n---\nSome Text.\n";
    let page = read_md_text("pages/index.md", text).unwrap();
    assert_eq!(page.content, "Some Text.\n");
    let rendered = markdown_pages(vec![page]);
    assert_eq!(rendered[0].content, "<p>Some Text.</p>\n");
}

#[test]
fn heading_classes_injected() {
    let mut page = Page::new();
    page.content = "# One\n\n## Two\n\n### Three\n".to_string();
    let rendered = markdown_pages(vec![page]);
    assert_eq!(
        rendered[0].content,
        "<h1 class=\"title\">One</h1>\n<h2 class=\"title is-4\">Two</h2>\n<h3 class=\"title is-5\">Three</h3>\n"
    );
}

#[test]
fn expansion_is_noop_without_macros() {
    let config = plain_config();
    let mut page = Page::new();
    page.content = "Plain text.\n\nMore text with [a link](/x).\n".to_string();
    page.filename = "p.md".to_string();
    let before = page.content.clone();
    let out = process_liquid_tags(&config, ".", vec![page], &vec![]).unwrap();
    assert_eq!(out[0].content, before);
}

#[test]
fn fenced_macro_is_not_expanded() {
    let config = plain_config();
    let mut target = Page::new();
    target.title = "t".to_string();
    target.url_path = "t".to_string();
    let mut page = Page::new();
    page.filename = "p.md".to_string();
    page.content =
        "```\n{% latest limit=1 %}\n```\n{% latest limit=1 %}\n".to_string();
    let all = vec![page, target];
    let out = process_liquid_tags(&config, ".", all, &vec![]).unwrap();
    assert_eq!(out[0].content, "```\n{% latest limit=1 %}\n```\n* [t](/t)\n\n");
}

#[test]
fn latest_limit_zero_is_unlimited() {
    let mut a = Page::new();
    a.title = "a".to_string();
    a.url_path = "a".to_string();
    let mut b = Page::new();
    b.title = "b".to_string();
    b.url_path = "b".to_string();
    let pages = vec![a, b];
    let out = code_maven::process_liquid_tags_for_text("{% latest limit=0 %}", &pages).unwrap();
    assert_eq!(out, "* [a](/a)\n* [b](/b)\n");
}

#[test]
fn latest_excludes_archive_and_root() {
    let mut root = Page::new();
    root.title = "root".to_string();
    root.url_path = String::new();
    let mut archive = Page::new();
    archive.title = "archive".to_string();
    archive.url_path = "archive".to_string();
    let mut a = Page::new();
    a.title = "a".to_string();
    a.url_path = "a".to_string();
    let pages = vec![archive, root, a];
    let out = code_maven::process_liquid_tags_for_text("{% latest limit=9 %}", &pages).unwrap();
    assert_eq!(out, "* [a](/a)\n");
}

#[test]
fn latest_bad_limit_is_fatal() {
    let config = plain_config();
    let mut page = Page::new();
    page.filename = "p.md".to_string();
    page.content = "{% latest limit=99999999999 %}\n".to_string();
    let err = process_liquid_tags(&config, ".", vec![page], &vec![]).err().unwrap();
    assert_eq!(
        err.message(),
        "Error while parsing 'p.md': Expected number"
    );
}

#[test]
fn invalid_curly_outside_fence() {
    let mut page = Page::new();
    page.filename = "p.md".to_string();
    page.content = "ok\n{% unknown thing %}\n".to_string();
    let err = check_for_invalid_curly_code(&vec![page]).err().unwrap();
    assert_eq!(
        err.message(),
        "Invalid curly code '{% unknown thing %}' in 'p.md'"
    );
}

#[test]
fn curly_inside_fence_is_fine() {
    let mut page = Page::new();
    page.filename = "p.md".to_string();
    page.content = "```\n{% latest limit=1 %}\n```\n".to_string();
    assert!(check_for_invalid_curly_code(&vec![page]).is_ok());
}

#[test]
fn backlinks_record_inbound_internal_links() {
    let mut s = Page::new();
    s.title = "Source".to_string();
    s.url_path = "source".to_string();
    s.content = "See [the target](/target) and [outside](https://example.com/).".to_string();
    let mut d = Page::new();
    d.title = "Target".to_string();
    d.url_path = "target".to_string();
    let out = collect_backlinks(vec![s, d]);
    assert_eq!(out[1].backlinks.len(), 1);
    assert_eq!(out[1].backlinks[0].from_path, "source");
    assert_eq!(out[1].backlinks[0].from_title, "Source");
    assert_eq!(out[1].backlinks[0].to_title, "the target");
    assert_eq!(out[0].backlinks.len(), 0);
}

#[test]
fn backlinks_sorted_by_origin_title_descending() {
    let mut a = Page::new();
    a.title = "Alpha".to_string();
    a.url_path = "alpha".to_string();
    a.content = "[t](/t)".to_string();
    let mut b = Page::new();
    b.title = "Beta".to_string();
    b.url_path = "beta".to_string();
    b.content = "[t](/t)".to_string();
    let mut t = Page::new();
    t.title = "T".to_string();
    t.url_path = "t".to_string();
    let out = collect_backlinks(vec![a, b, t]);
    assert_eq!(out[2].backlinks.len(), 2);
    assert_eq!(out[2].backlinks[0].from_title, "Beta");
    assert_eq!(out[2].backlinks[1].from_title, "Alpha");
}

#[test]
fn duplicate_timestamp_is_fatal() {
    let mut a = Page::new();
    a.timestamp = "2015-10-11T12:30:01".to_string();
    let mut b = Page::new();
    b.timestamp = "2015-10-11T12:30:01".to_string();
    let err = check_unique_dates(&vec![a, b]).err().unwrap();
    assert_eq!(err.message(), "duplicate timestamp '2015-10-11T12:30:01'");
}

#[test]
fn duplicate_nickname_is_fatal() {
    let author = |nick: &str| Author {
        name: "X".to_string(),
        nickname: nick.to_string(),
        picture: String::new(),
        text: String::new(),
    };
    let err = check_unique_nicknames(&vec![author("foobar"), author("foobar")])
        .err()
        .unwrap();
    assert_eq!(err.message(), "nickname 'foobar' appears twice in config.yaml");
    assert!(check_unique_nicknames(&vec![author("a"), author("b")]).is_ok());
}

#[test]
fn empty_corpus_still_has_archive() {
    let out = assemble_pages(vec![], "2024-01-02T03:04:05").unwrap();
    assert_eq!(out.len(), 1);
    assert_eq!(out[0].url_path, "archive");
    assert_eq!(out[0].timestamp, "2024-01-02T03:04:05");
    assert!(out[0].published);
}

#[test]
fn corpus_is_ordered_newest_first() {
    let stamped = |title: &str, ts: &str| {
        let mut page = Page::new();
        page.title = title.to_string();
        page.timestamp = ts.to_string();
        page
    };
    let out = assemble_pages(
        vec![
            stamped("old", "2020-01-01T00:00:00"),
            stamped("new", "2023-01-01T00:00:00"),
            stamped("mid", "2021-01-01T00:00:00"),
        ],
        "2024-01-02T03:04:05",
    )
    .unwrap();
    assert_eq!(out.len(), 4);
    assert_eq!(out[0].url_path, "archive");
    assert_eq!(out[0].timestamp, "2023-01-01T00:00:00");
    assert_eq!(out[1].title, "new");
    assert_eq!(out[2].title, "mid");
    assert_eq!(out[3].title, "old");
}

#[test]
fn unknown_author_fails_the_build() {
    let config = plain_config();
    let mut page = Page::new();
    page.author = "george".to_string();
    page.filename = "bad_author.md".to_string();
    let err = resolve_author(&config, &page).err().unwrap();
    assert_eq!(
        err.message(),
        "The nickname 'george' used in the file 'bad_author.md' is not in the config.yaml file."
    );
}

#[test]
fn known_author_resolves() {
    let config = plain_config();
    let mut page = Page::new();
    page.author = "szabgab".to_string();
    let author = resolve_author(&config, &page).unwrap();
    assert_eq!(author.name, "Gabor Szabo");
    let anon = resolve_author(&config, &Page::new()).unwrap();
    assert_eq!(anon.name, "");
}

#[test]
fn tags_are_lowercased_and_unique() {
    let mut a = Page::new();
    a.published = true;
    a.tags = vec!["Web".to_string(), "Rust".to_string()];
    let mut b = Page::new();
    b.published = true;
    b.tags = vec!["web".to_string()];
    let mut hidden = Page::new();
    hidden.published = false;
    hidden.tags = vec!["secret".to_string()];
    let tags = collect_tags(&vec![a, b, hidden]);
    assert_eq!(tags, vec!["web".to_string(), "rust".to_string()]);
}

#[test]
fn recent_selects_newer_documents() {
    let stamped = |title: &str, url: &str, ts: &str| {
        let mut page = Page::new();
        page.title = title.to_string();
        page.url_path = url.to_string();
        page.timestamp = ts.to_string();
        page
    };
    let pages = vec![
        stamped("archive", "archive", "2023-01-01T00:00:00"),
        stamped("new", "new", "2023-01-01T00:00:00"),
        stamped("old", "old", "2019-01-01T00:00:00"),
    ];
    let recent = get_recent(&pages, "2020-06-01T00:00:00");
    assert_eq!(recent.len(), 1);
    assert_eq!(recent[0].title, "new");
}

#[test]
fn drafts_and_todo_selection() {
    let mut published = Page::new();
    published.published = true;
    published.filename = "a.md".to_string();
    let mut draft = Page::new();
    draft.filename = "b.md".to_string();
    let mut noted = Page::new();
    noted.published = true;
    noted.filename = "c.md".to_string();
    noted.todo = vec!["write more".to_string()];
    let pages = vec![published, draft, noted];
    let drafts = select_drafts(&pages);
    assert_eq!(drafts.len(), 1);
    assert_eq!(drafts[0].filename, "b.md");
    let todo = select_todo_pages(&pages);
    assert_eq!(todo.len(), 1);
    assert_eq!(todo[0].filename, "c.md");
}

#[test]
fn image_files_are_collected() {
    let mut page = Page::new();
    page.content = "![a title](examples/files/code_maven_490_490.jpg)\n".to_string();
    let files = get_files_to_copy(&vec![page]).unwrap();
    assert_eq!(files, vec!["examples/files/code_maven_490_490.jpg".to_string()]);
}

#[test]
fn unknown_image_extension_is_fatal() {
    let mut page = Page::new();
    page.content = "![a title](files/archive.pdf)\n".to_string();
    let err = get_files_to_copy(&vec![page]).err().unwrap();
    assert_eq!(
        err.message(),
        "Unhandled extension for file to be copied 'archive.pdf'"
    );
}

#[test]
fn embedded_file_gets_rust_label() {
    let config = plain_config();
    let files = vec![FileEntry {
        path: "root/examples/hello_world.rs".to_string(),
        content: "fn main() {\n    println!(\"Hello World\");\n}\n".to_string(),
    }];
    let out = code_maven::process_liquid_include(
        &config,
        "root",
        "{% include file=\"examples/hello_world.rs\" %}",
        &files,
    )
    .unwrap();
    assert_eq!(out, "**[examples/hello_world.rs](https://github.com/szabgab/rust.code-maven.com/tree/main/examples/hello_world.rs)**\n```rust\nfn main() {\n    println!(\"Hello World\");\n}\n\n```\n");
}

#[test]
fn language_table_is_consistent() {
    assert_eq!(language_for("rs"), Some("rust".to_string()));
    assert_eq!(language_for("yaml"), Some("yaml".to_string()));
    assert_eq!(language_for("qqrq"), None);
    let table = read_languages();
    assert_eq!(table.len(), 15);
    for (ext, label) in &table {
        assert_eq!(language_for(ext), Some(label.clone()));
    }
}

#[test]
fn pages_path_defaults_under_root() {
    assert_eq!(get_pages_path("site", ""), "site/pages");
    assert_eq!(get_pages_path("site", "elsewhere"), "elsewhere");
}

#[test]
fn not_found_message() {
    let err = BuildError::NotFound { path: "test_cases/demo/pages/no_such_file.md".to_string() };
    assert_eq!(
        err.message(),
        "File 'test_cases/demo/pages/no_such_file.md' not found"
    );
}
