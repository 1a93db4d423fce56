use documents::pipeline::{DiscoveredFile, FrontMatter, Heading, Link, ValidatedFile};
use documents::processor::ContentProcessor;

#[test]
fn test_extract_title() {
    let processor = ContentProcessor::new();

    let mut frontmatter = FrontMatter::new();
    frontmatter.insert("title".to_string(), "Frontmatter Title".to_string());
    let headings = vec![];
    let title = processor.extract_title(&frontmatter, &headings);
    assert_eq!(title, "Frontmatter Title");

    let frontmatter = FrontMatter::new();
    let headings = vec![
        Heading { level: 1, text: "Heading Title".to_string(), anchor: "heading-title".to_string() },
        Heading { level: 2, text: "Subheading".to_string(), anchor: "subheading".to_string() },
    ];
    let title = processor.extract_title(&frontmatter, &headings);
    assert_eq!(title, "Heading Title");

    let frontmatter = FrontMatter::new();
    let headings = vec![];
    let title = processor.extract_title(&frontmatter, &headings);
    assert_eq!(title, "Untitled Document");
}

#[test]
fn test_count_words() {
    let processor = ContentProcessor::new();
    assert_eq!(processor.count_words(""), 0);
    assert_eq!(processor.count_words("one"), 1);
    assert_eq!(processor.count_words("one two three"), 3);
    assert_eq!(processor.count_words("one\ntwo\nthree"), 3);
    assert_eq!(processor.count_words("one  two   three"), 3);
}

#[test]
fn test_create_anchor() {
    let processor = ContentProcessor::new();
    assert_eq!(processor.create_anchor("Hello World"), "hello-world");
    assert_eq!(processor.create_anchor("Hello, World!"), "hello--world");
    assert_eq!(processor.create_anchor("  Spaces  "), "spaces");
    assert_eq!(processor.create_anchor("Multiple--Dashes"), "multiple--dashes");
    assert_eq!(processor.create_anchor("-trim-dashes-"), "trim-dashes");
}

#[test]
fn test_is_internal_link() {
    let processor = ContentProcessor::new();
    assert!(processor.is_internal_link("page.md"));
    assert!(processor.is_internal_link("/docs/page.md"));
    assert!(processor.is_internal_link("#section"));
    assert!(!processor.is_internal_link("https://example.com"));
    assert!(!processor.is_internal_link("http://example.com"));
}

#[test]
fn test_extract_headings() {
    let processor = ContentProcessor::new();

    let headings = processor.extract_headings("");
    assert!(headings.is_empty());

    let headings = processor.extract_headings("This is a paragraph without headings.");
    assert!(headings.is_empty());

    let content = "# Heading 1\nSome content\n## Heading 2\nMore content\n### Heading 3";
    let headings = processor.extract_headings(content);
    assert_eq!(headings.len(), 3);
    assert_eq!(headings[0].level, 1);
    assert_eq!(headings[0].text, "Heading 1");
    assert_eq!(headings[0].anchor, "heading-1");
    assert_eq!(headings[1].level, 2);
    assert_eq!(headings[1].text, "Heading 2");
    assert_eq!(headings[1].anchor, "heading-2");
    assert_eq!(headings[2].level, 3);
    assert_eq!(headings[2].text, "Heading 3");
    assert_eq!(headings[2].anchor, "heading-3");

    let content = "####### Invalid Heading";
    let headings = processor.extract_headings(content);
    assert!(headings.is_empty());
}

#[test]
fn test_parse_link() {
    let processor = ContentProcessor::new();

    let link = processor.parse_link("[Link Text](https://example.com)");
    assert!(link.is_some());
    let link = link.unwrap();
    assert_eq!(link.text, "Link Text");
    assert_eq!(link.url, "https://example.com");
    assert!(!link.is_internal);

    let link = processor.parse_link("[Internal Link](/docs/page.md)");
    assert!(link.is_some());
    let link = link.unwrap();
    assert_eq!(link.text, "Internal Link");
    assert_eq!(link.url, "/docs/page.md");
    assert!(link.is_internal);

    let link = processor.parse_link("[Broken Link](missing closing paren");
    assert!(link.is_none());

    let link = processor.parse_link("Not a link at all");
    assert!(link.is_none());
}

#[test]
fn test_extract_links() {
    let processor = ContentProcessor::new();

    let links = processor.extract_links("");
    assert!(links.is_empty());

    let links = processor.extract_links("This is a paragraph without links.");
    assert!(links.is_empty());

    let content = "This is a [link](https://example.com) and another [internal link](/docs/page.md).";
    let links = processor.extract_links(content);
    assert_eq!(links.len(), 2);
    assert_eq!(links[0].text, "link");
    assert_eq!(links[0].url, "https://example.com");
    assert!(!links[0].is_internal);
    assert_eq!(links[1].text, "internal link");
    assert_eq!(links[1].url, "/docs/page.md");
    assert!(links[1].is_internal);

    let content = "Line 1 with [link1](url1)\nLine 2 with [link2](url2)";
    let links = processor.extract_links(content);
    assert_eq!(links.len(), 2);
}

#[test]
fn test_parse_image() {
    let processor = ContentProcessor::new();

    let image = processor.parse_image("![Alt Text](https://example.com/image.png)");
    assert!(image.is_some());
    let image = image.unwrap();
    assert_eq!(image.alt_text, "Alt Text");
    assert_eq!(image.url, "https://example.com/image.png");
    assert!(!image.is_internal);

    let image = processor.parse_image("![Internal Image](/images/local.png)");
    assert!(image.is_some());
    let image = image.unwrap();
    assert_eq!(image.alt_text, "Internal Image");
    assert_eq!(image.url, "/images/local.png");
    assert!(image.is_internal);

    let image = processor.parse_image("![Broken Image](missing closing paren");
    assert!(image.is_none());

    let image = processor.parse_image("Not an image at all");
    assert!(image.is_none());
}

#[test]
fn test_extract_images() {
    let processor = ContentProcessor::new();

    let images = processor.extract_images("");
    assert!(images.is_empty());

    let images = processor.extract_images("This is a paragraph without images.");
    assert!(images.is_empty());

    let content = "This is an ![image](https://example.com/image.png) and another ![internal image](/images/local.png).";
    let images = processor.extract_images(content);
    assert_eq!(images.len(), 1);
    assert_eq!(images[0].alt_text, "image");
    assert_eq!(images[0].url, "https://example.com/image.png");
    assert!(!images[0].is_internal);

    let content = "Line 1 with ![image1](url1)\nLine 2 with ![image2](url2)";
    let images = processor.extract_images(content);
    assert_eq!(images.len(), 2);
}

#[test]
fn test_extract_code_blocks() {
    let processor = ContentProcessor::new();

    let code_blocks = processor.extract_code_blocks("");
    assert!(code_blocks.is_empty());

    let code_blocks = processor.extract_code_blocks("This is a paragraph without code blocks.");
    assert!(code_blocks.is_empty());

    let content = "Some text\n```rust\nfn main() {\n    println!(\"Hello, world!\");\n}\n```\nMore text";
    let code_blocks = processor.extract_code_blocks(content);
    assert_eq!(code_blocks.len(), 1);
    assert_eq!(code_blocks[0].language, Some("rust".to_string()));
    assert_eq!(code_blocks[0].content, "fn main() {\n    println!(\"Hello, world!\");\n}");
    assert_eq!(code_blocks[0].line_count, 3);

    let content = "Some text\n```\ncode without language\n```\nMore text";
    let code_blocks = processor.extract_code_blocks(content);
    assert_eq!(code_blocks.len(), 1);
    assert_eq!(code_blocks[0].language, None);
    assert_eq!(code_blocks[0].content, "code without language");
    assert_eq!(code_blocks[0].line_count, 1);

    let content = "```rust\nlet x = 1;\n```\nSome text\n```python\nprint('hello')\n```";
    let code_blocks = processor.extract_code_blocks(content);
    assert_eq!(code_blocks.len(), 2);
    assert_eq!(code_blocks[0].language, Some("rust".to_string()));
    assert_eq!(code_blocks[1].language, Some("python".to_string()));

    let content = "```rust\nlet x = 1;\nSome text";
    let code_blocks = processor.extract_code_blocks(content);
    assert!(code_blocks.is_empty());
}

fn validated(warnings: Vec<String>, body: &str) -> ValidatedFile {
    ValidatedFile {
        discovered: DiscoveredFile {
            path: "test.md".to_string(),
            pattern_source: "test".to_string(),
            estimated_size: None,
        },
        content: body.to_string(),
        frontmatter: FrontMatter::new(),
        markdown_content: body.to_string(),
        validation_warnings: warnings,
    }
}

fn link(url: &str, internal: bool) -> Link {
    Link { text: "Link".to_string(), url: url.to_string(), is_internal: internal, is_valid: None }
}

#[test]
fn test_calculate_quality_score() {
    let processor = ContentProcessor::new();
    let none: Vec<Heading> = vec![];
    let no_links: Vec<Link> = vec![];

    let file = validated(vec![], "Test content");
    assert_eq!(processor.calculate_quality_score(&file, &none, &no_links), 100);

    let file = validated(vec!["Warning 1".to_string(), "Warning 2".to_string()], "Test content");
    assert_eq!(processor.calculate_quality_score(&file, &none, &no_links), 80);

    let one_heading = vec![Heading { level: 1, text: "Heading 1".to_string(), anchor: "heading-1".to_string() }];
    let file = validated(vec![], "Test content");
    assert_eq!(processor.calculate_quality_score(&file, &one_heading, &no_links), 100);

    let links = vec![link("/internal1.md", true), link("/internal2.md", true), link("https://example.com", false)];
    assert_eq!(processor.calculate_quality_score(&file, &none, &links), 100);

    let file = validated(vec!["Warning".to_string()], "Test content");
    let links = vec![link("/internal1.md", true)];
    assert_eq!(processor.calculate_quality_score(&file, &one_heading, &links), 100);
}

#[test]
fn quality_score_formula_values() {
    let processor = ContentProcessor::new();
    let none: Vec<Heading> = vec![];
    let one_heading = vec![Heading { level: 1, text: "H".to_string(), anchor: "h".to_string() }];
    let w = |n: usize| validated((0..n).map(|i| format!("w{}", i)).collect(), "x");

    // 100 - 30 + 10 + 10 = 90
    let links = vec![link("a.md", true), link("b.md", true)];
    assert_eq!(processor.calculate_quality_score(&w(3), &one_heading, &links), 90);
    // the link bonus stops at 20: 100 - 50 + 20 = 70
    let many: Vec<Link> = (0..20).map(|_| link("x.md", true)).collect();
    assert_eq!(processor.calculate_quality_score(&w(5), &none, &many), 70);
    // ten warnings bring it to zero and no lower
    assert_eq!(processor.calculate_quality_score(&w(10), &none, &vec![]), 0);
    assert_eq!(processor.calculate_quality_score(&w(12), &none, &vec![]), 0);
    // twenty internal links and a heading still give at most 100
    assert_eq!(processor.calculate_quality_score(&w(0), &one_heading, &many), 100);
}

#[test]
fn heading_level_six_is_kept_and_seven_dropped() {
    let processor = ContentProcessor::new();
    let h = processor.extract_headings("###### Six");
    assert_eq!(h.len(), 1);
    assert_eq!(h[0].level, 6);
    assert_eq!(h[0].text, "Six");
    assert!(processor.extract_headings("####### Seven").is_empty());
}

#[test]
fn process_file_builds_the_record() {
    let processor = ContentProcessor::new();
    let body = "# Test Document\n\nThis is a test paragraph with [a link](https://example.com).\n\n## Section 1\n\nHere's an ![image](/images/test.png).\n\n```rust\nfn main() {\n    println!(\"Hello, world!\");\n}\n```";
    let mut frontmatter = FrontMatter::new();
    frontmatter.insert("title".to_string(), "Frontmatter Title".to_string());
    let file = ValidatedFile {
        discovered: DiscoveredFile {
            path: "test-doc.md".to_string(),
            pattern_source: "test".to_string(),
            estimated_size: Some(500),
        },
        content: format!("---\ntitle: Frontmatter Title\n---\n{}", body),
        frontmatter,
        markdown_content: body.to_string(),
        validation_warnings: vec!["Test warning".to_string()],
    };
    let doc = match processor.process_file(file, 1_700_000_000, 3) {
        Ok(d) => d,
        Err(_) => panic!("processing failed"),
    };
    assert_eq!(doc.file_path, "test-doc.md");
    assert_eq!(doc.title, "Frontmatter Title");
    assert_eq!(doc.content, body);
    assert_eq!(doc.word_count, 25);
    assert_eq!(doc.headings.len(), 2);
    assert_eq!(doc.headings[0].text, "Test Document");
    assert_eq!(doc.headings[1].text, "Section 1");
    assert_eq!(doc.links.len(), 2);
    assert_eq!(doc.links[0].text, "a link");
    assert_eq!(doc.links[0].url, "https://example.com");
    assert_eq!(doc.images.len(), 1);
    assert_eq!(doc.images[0].alt_text, "image");
    assert_eq!(doc.images[0].url, "/images/test.png");
    assert_eq!(doc.code_blocks.len(), 1);
    assert_eq!(doc.code_blocks[0].language, Some("rust".to_string()));
    assert_eq!(doc.processing_metadata.warnings, vec!["Test warning".to_string()]);
    assert_eq!(doc.processing_metadata.processed_at, 1_700_000_000);
    assert_eq!(doc.processing_metadata.processing_time_ms, 3);
    // 100 - 10 + 10 + 5 (one internal link: the image's "[image](/images/test.png)")
    assert_eq!(doc.processing_metadata.quality_score, 100);
}

#[test]
fn processing_twice_gives_the_same_structure() {
    let processor = ContentProcessor::new();
    let body = "# A\n[x](y)\n![i](j)\n```\nc\n```\nwords here";
    let a = processor.process_file(validated(vec![], body), 1, 1).ok().unwrap();
    let b = processor.process_file(validated(vec![], body), 2, 9).ok().unwrap();
    assert_eq!(a.word_count, b.word_count);
    assert_eq!(a.headings.len(), b.headings.len());
    assert_eq!(a.headings[0].anchor, b.headings[0].anchor);
    assert_eq!(a.links.len(), b.links.len());
    assert_eq!(a.links[0].url, b.links[0].url);
    assert_eq!(a.images[0].url, b.images[0].url);
    assert_eq!(a.code_blocks[0].content, b.code_blocks[0].content);
    assert_eq!(a.processing_metadata.quality_score, b.processing_metadata.quality_score);
}

#[test]
fn title_from_front_matter_or_leading_heading() {
    let processor = ContentProcessor::new();
    let mut fm = FrontMatter::new();
    fm.insert("title".to_string(), "X".to_string());
    let headings = processor.extract_headings("no headings here");
    assert_eq!(processor.extract_title(&fm, &headings), "X");
    let headings = processor.extract_headings("# X\nbody");
    assert_eq!(processor.extract_title(&FrontMatter::new(), &headings), "X");
}
