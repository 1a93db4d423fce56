use documents::path_normalization::{PathNormalizationError, PathNormalizer};

#[test]
fn test_basic_normalization() {
    let normalizer = PathNormalizer::default();
    assert_eq!(normalizer.normalize_path("docs/readme.md").ok().unwrap(), "docs/readme.md");
    assert_eq!(normalizer.normalize_path("./docs/readme.md").ok().unwrap(), "docs/readme.md");
    assert_eq!(normalizer.normalize_path("docs//readme.md").ok().unwrap(), "docs/readme.md");
}

#[test]
fn test_path_traversal_detection() {
    let normalizer = PathNormalizer::default();
    assert!(normalizer.normalize_path("../../../etc/passwd").is_err());
    assert!(normalizer.normalize_path("docs/../../readme.md").is_err());
    assert!(normalizer.normalize_path("/etc/passwd").is_err());
}

#[test]
fn test_relative_path_resolution() {
    let normalizer = PathNormalizer::default();
    assert_eq!(normalizer.normalize_path("docs/sub/../readme.md").ok().unwrap(), "docs/readme.md");
    assert_eq!(normalizer.normalize_path("docs/./sub/readme.md").ok().unwrap(), "docs/sub/readme.md");
}

#[test]
fn test_extension_validation() {
    let normalizer = PathNormalizer::default();
    assert!(normalizer.normalize_path("readme.md").is_ok());
    assert!(normalizer.normalize_path("guide.mdx").is_ok());
    assert!(normalizer.normalize_path("notes.markdown").is_ok());
    assert!(normalizer.normalize_path("information.txt").is_ok());
    assert!(normalizer.normalize_path("script.js").is_err());
    assert!(normalizer.normalize_path("image.png").is_err());
    assert!(normalizer.normalize_path("no_extension").is_err());
}

#[test]
fn test_invalid_characters() {
    let normalizer = PathNormalizer::default();
    assert!(normalizer.normalize_path("docs\0readme.md").is_err());
    assert!(normalizer.normalize_path("docs\nreadme.md").is_err());
    assert!(normalizer.normalize_path("docs\rreadme.md").is_err());
}

#[test]
fn test_empty_and_whitespace_paths() {
    let normalizer = PathNormalizer::default();
    assert!(normalizer.normalize_path("").is_err());
    assert!(normalizer.normalize_path("     ").is_err());
    assert!(normalizer.normalize_path("\t\n").is_err());
}

#[test]
fn test_path_length_limit() {
    let normalizer = PathNormalizer::with_settings(vec!["md".to_string()], 10);
    assert!(normalizer.normalize_path("short.md").is_ok());
    assert!(normalizer.normalize_path("very_long_filename_that_exceeds_limit.md").is_err());
}

#[test]
fn test_custom_extensions() {
    let normalizer = PathNormalizer::new(vec!["rst".to_string(), "asciidoc".to_string()]);
    assert!(normalizer.normalize_path("readme.rst").is_ok());
    assert!(normalizer.normalize_path("guide.asciidoc").is_ok());
    assert!(normalizer.normalize_path("readme.md").is_err());
}

#[test]
fn test_windows_paths() {
    let normalizer = PathNormalizer::default();
    assert_eq!(normalizer.normalize_path("docs\\readme.md").ok().unwrap(), "docs/readme.md");
    assert_eq!(normalizer.normalize_path("docs\\sub\\..\\readme.md").ok().unwrap(), "docs/readme.md");
}

#[test]
fn test_multiple_paths() {
    let normalizer = PathNormalizer::default();
    let paths = vec![
        "docs/readme.md".to_string(),
        "./guides/setup.md".to_string(),
        "tutorials/../faq.md".to_string(),
    ];
    let normalized = normalizer.normalize_paths(&paths).ok().unwrap();
    assert_eq!(normalized, vec!["docs/readme.md", "guides/setup.md", "faq.md"]);
}

#[test]
fn each_refusal_has_its_error() {
    let normalizer = PathNormalizer::default();
    assert!(matches!(normalizer.normalize_path("  "), Err(PathNormalizationError::EmptyOrInvalidPathError)));
    match normalizer.normalize_path("../x.md") {
        Err(PathNormalizationError::PathTraversalError { path }) => assert_eq!(path, "../x.md"),
        _ => panic!("expected a traversal error"),
    }
    match normalizer.normalize_path("a\nb.md") {
        Err(PathNormalizationError::InvalidCharacterError { path }) => assert_eq!(path, "a\nb.md"),
        _ => panic!("expected an invalid character error"),
    }
    match normalizer.normalize_path("image.PNG") {
        Err(PathNormalizationError::InvalidExtensionError { extension, allowed }) => {
            assert_eq!(extension, "png");
            assert_eq!(allowed.len(), 4);
        }
        _ => panic!("expected an extension error"),
    }
    match normalizer.normalize_path(".md") {
        Err(PathNormalizationError::InvalidExtensionError { extension, .. }) => assert_eq!(extension, "none"),
        _ => panic!("expected an extension error"),
    }
    let short = PathNormalizer::with_settings(vec!["md".to_string()], 5);
    match short.normalize_path("abcdef.md") {
        Err(PathNormalizationError::PathTooLongError { length, max }) => {
            assert_eq!(length, 9);
            assert_eq!(max, 5);
        }
        _ => panic!("expected a length error"),
    }
}

#[test]
fn upper_case_extension_is_lowered() {
    let normalizer = PathNormalizer::default();
    assert_eq!(normalizer.normalize_path("/Docs/Guide.MD/").ok().unwrap(), "Docs/Guide.MD");
    assert!(normalizer.is_valid_path("a/b/c.txt"));
    assert!(!normalizer.is_valid_path("a/b/c"));
}

#[test]
fn allowed_extensions_are_distinct() {
    let normalizer = PathNormalizer::new(vec!["md".to_string(), "md".to_string(), "txt".to_string()]);
    let mut exts = normalizer.allowed_extensions();
    exts.sort();
    assert_eq!(exts, vec!["md".to_string(), "txt".to_string()]);
}
