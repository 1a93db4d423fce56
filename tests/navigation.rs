use documents::navigation::{render_html_nav, NavNode, NavigationFromConfigBuilder};
use documents::pipeline::{
    FrontMatter, Heading, ProcessedDocument, ProcessingMetadata,
};
use documents::DocumentConfig;

fn doc(path: &str, headings: Vec<Heading>) -> ProcessedDocument {
    ProcessedDocument {
        file_path: path.to_string(),
        title: "T".to_string(),
        content: String::new(),
        frontmatter: FrontMatter::new(),
        word_count: 0,
        headings,
        links: vec![],
        images: vec![],
        code_blocks: vec![],
        last_modified: None,
        processing_metadata: ProcessingMetadata {
            processed_at: 0,
            processing_time_ms: 0,
            warnings: vec![],
            quality_score: 100,
        },
    }
}

fn entry(title: &str, path: Option<&str>, subs: Option<Vec<DocumentConfig>>) -> DocumentConfig {
    DocumentConfig { title: title.to_string(), path: path.map(|p| p.to_string()), sub_documents: subs }
}

#[test]
fn url_for_cases() {
    let b = NavigationFromConfigBuilder::default();
    assert_eq!(b.url_for("dir/index.md"), "/dir/");
    assert_eq!(b.url_for("dir/page.md"), "/dir/page");
    assert_eq!(b.url_for("index.md"), "/index/");
    assert_eq!(b.url_for("a//b.md"), "/a/b");
    let p = NavigationFromConfigBuilder { url_prefix: "/docs/".to_string(), include_headings_max_level: None };
    assert_eq!(p.url_for("guide.md"), "/docs/guide");
}

#[test]
fn missing_document_is_pruned_and_order_kept() {
    let b = NavigationFromConfigBuilder::default();
    let roots = vec![
        entry("Doc 1", Some("docs/one.md"), None),
        entry("Doc 2", Some("docs/missing.md"), None),
        entry("Doc 3", Some("docs/three.md"), None),
    ];
    let docs = vec![doc("docs/three.md", vec![]), doc("docs/one.md", vec![])];
    let nav = b.build(&roots, &docs);
    assert_eq!(nav.tree.title, "root");
    let titles: Vec<&str> = nav.tree.children.iter().map(|n| n.title.as_str()).collect();
    assert_eq!(titles, vec!["Doc 1", "Doc 3"]);
    assert_eq!(nav.tree.children[0].path, Some("/docs/one".to_string()));
}

#[test]
fn sections_keep_their_children_and_headings_are_listed() {
    let b = NavigationFromConfigBuilder { url_prefix: String::new(), include_headings_max_level: Some(3) };
    let roots = vec![entry(
        "Guide",
        None,
        Some(vec![entry("Intro", Some("guide/intro.md"), None), entry("Gone", Some("guide/gone.md"), None)]),
    )];
    let headings = vec![
        Heading { level: 1, text: "Intro".to_string(), anchor: "intro".to_string() },
        Heading { level: 2, text: "Setup".to_string(), anchor: "setup".to_string() },
        Heading { level: 4, text: "Deep".to_string(), anchor: "deep".to_string() },
    ];
    let docs = vec![doc("guide/intro.md", headings)];
    let nav = b.build(&roots, &docs);
    assert_eq!(nav.tree.children.len(), 1);
    let guide = &nav.tree.children[0];
    assert_eq!(guide.path, None);
    assert_eq!(guide.children.len(), 1);
    let intro = &guide.children[0];
    assert_eq!(intro.children.len(), 1);
    assert_eq!(intro.children[0].title, "Setup");
    assert_eq!(intro.children[0].path, Some("/guide/intro#setup".to_string()));
}

#[test]
fn renders_nested_list_with_escaping() {
    let mut root = NavNode::new("root".to_string(), None);
    let mut section = NavNode::new("A & B".to_string(), None);
    section.children.push(NavNode::new("<Page>".to_string(), Some("/p".to_string())));
    root.children.push(section);
    let html = render_html_nav(&root);
    assert!(html.starts_with("<nav class=\"docs-nav\">\n  <ul class=\"docs-nav__list\">\n"));
    assert!(html.contains("A &amp; B"));
    assert!(html.contains("&lt;Page&gt;"));
    assert!(html.ends_with("  </ul>\n</nav>\n"));
}

#[test]
fn rendered_links_and_closing_tags() {
    let mut root = NavNode::new("root".to_string(), None);
    let mut section = NavNode::new("S".to_string(), None);
    section.children.push(NavNode::new("P".to_string(), Some("/p".to_string())));
    root.children.push(section);
    let html = render_html_nav(&root);
    let expected = "<nav class=\"docs-nav\">\n  <ul class=\"docs-nav__list\">\n    <li class=\"docs-nav__section\"><span class=\"docs-nav__section-title\">S</span>\n\n      <ul class=\"docs-nav__list\">\n        <li class=\"docs-nav__item\"><a class=\"docs-nav__link\" href=\"/p\">P</a>\n</li>\n      </ul>\n    </li>\n  </ul>\n</nav>\n";
    assert_eq!(html, expected);
}
