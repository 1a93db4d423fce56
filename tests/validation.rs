use documents::pipeline::{DiscoveredFile, FrontMatter};
use documents::validation::ContentValidator;

#[test]
fn test_parse_frontmatter_no_frontmatter() {
    let validator = ContentValidator::new();
    let content = "# This is a document\nWith no frontmatter";
    let (frontmatter, markdown) = validator.parse_frontmatter(content);
    assert!(frontmatter.is_empty(), "Expected empty frontmatter");
    assert_eq!(markdown, content, "Expected the content to be returned unchanged");
}

#[test]
fn test_parse_frontmatter_with_valid_frontmatter() {
    let validator = ContentValidator::new();
    let content = "---\ntitle: Test Document\nauthor: Test Author\n---\n# Document content";
    let (frontmatter, markdown) = validator.parse_frontmatter(content);
    assert_eq!(frontmatter.len(), 2, "Expected 2 frontmatter items");
    assert_eq!(frontmatter.get("title"), Some(&"Test Document".to_string()));
    assert_eq!(frontmatter.get("author"), Some(&"Test Author".to_string()));
    assert_eq!(markdown, "# Document content", "Expected markdown content without frontmatter");
}

#[test]
fn test_parse_frontmatter_with_incomplete_frontmatter() {
    let validator = ContentValidator::new();
    let content = "---\ntitle: Test Document\nauthor: Test Author\n# Document content";
    let (frontmatter, markdown) = validator.parse_frontmatter(content);
    assert!(frontmatter.is_empty(), "Expected empty frontmatter for incomplete frontmatter");
    assert_eq!(markdown, content, "Expected the content to be returned unchanged");
}

#[test]
fn test_parse_yaml_frontmatter() {
    let validator = ContentValidator::new();
    let yaml_text = "title: Test Document\nauthor: Test Author\ntags: rust, testing";
    let frontmatter = validator.parse_yaml_frontmatter(yaml_text);
    assert_eq!(frontmatter.len(), 3, "Expected 3 frontmatter items");
    assert_eq!(frontmatter.get("title"), Some(&"Test Document".to_string()));
    assert_eq!(frontmatter.get("author"), Some(&"Test Author".to_string()));
    assert_eq!(frontmatter.get("tags"), Some(&"rust, testing".to_string()));
}

#[test]
fn test_parse_yaml_frontmatter_with_quotes() {
    let validator = ContentValidator::new();
    let yaml_text = "title: \"Test Document\"\nauthor: 'Test Author'\ntags: 'rust, testing'";
    let frontmatter = validator.parse_yaml_frontmatter(yaml_text);
    assert_eq!(frontmatter.len(), 3, "Expected 3 frontmatter items");
    assert_eq!(frontmatter.get("title"), Some(&"Test Document".to_string()));
    assert_eq!(frontmatter.get("author"), Some(&"Test Author".to_string()));
    assert_eq!(frontmatter.get("tags"), Some(&"rust, testing".to_string()));
}

#[test]
fn test_parse_yaml_frontmatter_empty() {
    let validator = ContentValidator::new();
    let frontmatter = validator.parse_yaml_frontmatter("");
    assert!(frontmatter.is_empty(), "Expected empty frontmatter for empty yaml");
}

#[test]
fn test_validate_content_missing_title() {
    let validator = ContentValidator::new();
    let markdown = "This is content w/o heading or frontmatter title";
    let warnings = validator.validate_content(markdown, &FrontMatter::new());
    assert_eq!(warnings.len(), 2, "Expected 2 warnings");
    assert!(warnings.contains(&"Missing title in frontmatter or as first heading".to_string()));
    assert!(warnings.contains(&"Content is too short, consider adding more information".to_string()));
}

#[test]
fn test_validate_content_with_title_in_frontmatter() {
    let validator = ContentValidator::new();
    let markdown = "This content is too short.";
    let mut frontmatter = FrontMatter::new();
    frontmatter.insert("title".to_string(), "Document Title".to_string());
    let warnings = validator.validate_content(markdown, &frontmatter);
    assert_eq!(warnings.len(), 1, "Expected 1 warning");
    assert!(warnings.contains(&"Content is too short, consider adding more information".to_string()));
}

#[test]
fn test_validate_content_with_heading_title() {
    let validator = ContentValidator::new();
    let markdown = "# Document Title\nThis isn't enough content.";
    let warnings = validator.validate_content(markdown, &FrontMatter::new());
    assert_eq!(warnings.len(), 1, "Expected 1 warning");
    assert!(warnings.contains(&"Content is too short, consider adding more information".to_string()));
}

#[test]
fn test_validate_content_with_broken_links() {
    let validator = ContentValidator::new();
    let markdown = "# Document Title\nThis is a document with [broken link]() and [another broken link](../path).\nThe content is long enough to avoid the short content warning. The content is long enough to avoid the short content warning.";
    let warnings = validator.validate_content(markdown, &FrontMatter::new());
    assert_eq!(warnings.len(), 1, "Expected 1 warning");
    assert!(warnings[0].contains("potentially broken links"), "Expected warning about broken links");
}

#[test]
fn test_validate_content_no_warnings() {
    let validator = ContentValidator::new();
    let markdown = "# Document Title\nThis is a document with proper content and no issues. The content is long enough to avoid the short content warning. The content is long enough to avoid the short content warning.";
    let warnings = validator.validate_content(markdown, &FrontMatter::new());
    assert!(warnings.is_empty(), "Expected no warnings for valid content");
}

#[test]
fn test_find_potentially_broken_links() {
    let validator = ContentValidator::new();
    let markdown = "# Document\n[Broken link]()\n[Another broken link](../path)\n[Valid link](https://example.com)";
    let broken_links = validator.find_potentially_broken_links(markdown);
    assert_eq!(broken_links.len(), 2, "Expected 2 broken links");
    assert!(broken_links.contains(&"[Broken link]()".to_string()));
    assert!(broken_links.contains(&"[Another broken link](../path)".to_string()));
}

#[test]
fn test_find_potentially_broken_links_no_links() {
    let validator = ContentValidator::new();
    let markdown = "# Document\nThis document has no links at all.";
    let broken_links = validator.find_potentially_broken_links(markdown);
    assert!(broken_links.is_empty(), "Expected no broken links");
}

#[test]
fn front_matter_scenario() {
    let validator = ContentValidator::new();
    let (fm, body) = validator.parse_frontmatter("---\ntitle: T\n---\nBody text");
    assert_eq!(fm.len(), 1);
    assert_eq!(fm.get("title"), Some(&"T".to_string()));
    assert_eq!(body, "Body text");
}

#[test]
fn two_broken_links_make_one_warning() {
    let validator = ContentValidator::new();
    let mut fm = FrontMatter::new();
    fm.insert("title".to_string(), "t".to_string());
    let warnings = validator.validate_content("[x]()\n[y](../z)", &fm);
    let broken: Vec<&String> = warnings.iter().filter(|w| w.contains("broken")).collect();
    assert_eq!(broken.len(), 1);
    assert!(broken[0].contains("2 potentially broken links"));
    assert_eq!(broken[0].as_str(), "Found 2 potentially broken links");
}

#[test]
fn later_key_wins_and_lines_without_colon_are_skipped() {
    let validator = ContentValidator::new();
    let fm = validator.parse_yaml_frontmatter("a: 1\nnot a pair\nb: \"two\"\na: 3");
    assert_eq!(fm.len(), 2);
    assert_eq!(fm.get("a"), Some(&"3".to_string()));
    assert_eq!(fm.get("b"), Some(&"two".to_string()));
    assert_eq!(fm.entries[0].0, "a");
}

#[test]
fn batch_drops_files_without_content() {
    let validator = ContentValidator::new();
    let file = |p: &str| DiscoveredFile { path: p.to_string(), pattern_source: "k".to_string(), estimated_size: None };
    let fetched = vec![
        ("a.md".to_string(), Some("# A\nbody".to_string())),
        ("b.md".to_string(), None),
    ];
    let out = validator.validate_batch(vec![file("a.md"), file("b.md"), file("c.md")], &fetched);
    assert_eq!(out.len(), 1);
    assert_eq!(out[0].discovered.path, "a.md");
    assert_eq!(out[0].markdown_content, "# A\nbody");
    assert_eq!(out[0].validation_warnings, vec!["Content is too short, consider adding more information".to_string()]);
}

#[test]
fn short_body_is_counted_in_characters() {
    let validator = ContentValidator::new();
    let mut fm = FrontMatter::new();
    fm.insert("title".to_string(), "t".to_string());
    // 25 characters, 50 bytes in UTF-8
    let body = "é".repeat(25);
    let warnings = validator.validate_content(&body, &fm);
    assert_eq!(warnings, vec!["Content is too short, consider adding more information".to_string()]);
    let body = "é".repeat(50);
    assert!(validator.validate_content(&body, &fm).is_empty());
}
