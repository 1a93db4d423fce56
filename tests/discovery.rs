use documents::access::RepositoryFile;
use documents::discovery::{DirectoryWalk, FileDiscoverer, PatternType};
use documents::{DocumentConfig, ProjectConfig, ProjectDetails};

#[test]
fn test_pattern_type_from_string() {
    assert!(matches!(PatternType::from_string("README.md"), PatternType::Exact(_)));
    assert!(matches!(PatternType::from_string("*.md"), PatternType::Glob(_)));
    assert!(matches!(PatternType::from_string("docs/**/*.md"), PatternType::Glob(_)));
    assert!(matches!(PatternType::from_string("regex:^[A-Z]+\\.md$"), PatternType::Regex(_)));
}

#[test]
fn regex_marker_is_removed_and_shown_again() {
    match PatternType::from_string("regex:^[A-Z]+\\.md$") {
        PatternType::Regex(r) => assert_eq!(r, "^[A-Z]+\\.md$"),
        _ => panic!("expected a regex"),
    }
    let p = PatternType::from_string("regex:^a$");
    assert_eq!(p.pattern_to_string(), "regex:^a$");
}

fn entry(path: &str, kind: &str) -> RepositoryFile {
    RepositoryFile {
        path: path.to_string(),
        name: path.rsplit('/').next().unwrap().to_string(),
        size: None,
        file_type: kind.to_string(),
    }
}

/// A small tree: each directory with its listing.
fn listing(dir: &str) -> Vec<RepositoryFile> {
    match dir {
        "" => vec![entry("README.md", "file"), entry("CHANGELOG.md", "file"), entry("docs", "dir")],
        "docs" => vec![
            entry("docs/guide.md", "file"),
            entry("docs/api.md", "file"),
            entry("docs/tutorials", "dir"),
            entry("docs", "dir"),
        ],
        "docs/tutorials" => vec![entry("docs/tutorials/getting-started.md", "file"), entry("docs/notes.txt", "file")],
        _ => vec![],
    }
}

fn walk(pattern: &str) -> Vec<String> {
    let mut w = DirectoryWalk::start(&PatternType::from_string(pattern)).ok().unwrap();
    let mut listed = 0;
    while let Some(dir) = w.next_directory() {
        listed += 1;
        assert!(listed < 10, "a directory was handed out twice");
        w.record_listing(&dir, &listing(&dir));
    }
    let mut m = w.into_matches();
    m.sort();
    m
}

#[test]
fn glob_walk_finds_nested_files() {
    assert_eq!(
        walk("docs/**/*.md"),
        vec!["docs/api.md", "docs/guide.md", "docs/tutorials/getting-started.md"]
    );
}

#[test]
fn regex_walk_finds_capitalised_root_files() {
    assert_eq!(walk("regex:^[A-Z]+\\.md$"), vec!["CHANGELOG.md", "README.md"]);
}

#[test]
fn invalid_patterns_are_refused() {
    assert!(DirectoryWalk::start(&PatternType::Glob("[".to_string())).is_err());
    assert!(DirectoryWalk::start(&PatternType::Regex("(".to_string())).is_err());
}

fn config_with(docs: Vec<(&str, DocumentConfig)>) -> ProjectConfig {
    ProjectConfig {
        project: ProjectDetails { name: "Test Project".to_string(), description: "A test project".to_string() },
        documents: docs.into_iter().map(|(k, d)| (k.to_string(), d)).collect(),
    }
}

#[test]
fn discovery_scenario_has_no_duplicates() {
    let config = config_with(vec![(
        "doc1",
        DocumentConfig { title: "Doc 1".to_string(), path: Some("docs/a.md".to_string()), sub_documents: None },
    )]);
    let discoverer = FileDiscoverer::new(config);
    // the remote tree holds docs/a.md and README.md
    let readme_exists = true;
    let mut w = DirectoryWalk::start(&PatternType::from_string("*.md")).ok().unwrap();
    while let Some(dir) = w.next_directory() {
        let entries = match dir.as_str() {
            "" => vec![entry("README.md", "file"), entry("docs", "dir")],
            "docs" => vec![entry("docs/a.md", "file")],
            _ => vec![],
        };
        w.record_listing(&dir, &entries);
    }
    let results = vec![
        (PatternType::from_string("README.md"), if readme_exists { vec!["README.md".to_string()] } else { vec![] }),
        (PatternType::from_string("*.md"), w.into_matches()),
    ];
    let found = discoverer.discover(&results);
    let paths: Vec<&str> = found.iter().map(|f| f.path.as_str()).collect();
    assert_eq!(paths, vec!["README.md", "docs/a.md"]);
    assert_eq!(found[1].pattern_source, "doc1");
    assert_eq!(found[0].pattern_source, "pattern:README.md");
}

#[test]
fn nested_entries_are_tagged_with_parent_key() {
    let config = config_with(vec![(
        "guide",
        DocumentConfig {
            title: "Guide".to_string(),
            path: None,
            sub_documents: Some(vec![
                DocumentConfig { title: "Intro".to_string(), path: Some("guide/intro.md".to_string()), sub_documents: None },
                DocumentConfig { title: "Setup".to_string(), path: Some("guide/setup.md".to_string()), sub_documents: None },
            ]),
        },
    )]);
    let files = FileDiscoverer::new(config).configured_files();
    assert_eq!(files.len(), 2);
    assert_eq!(files[0].path, "guide/intro.md");
    assert_eq!(files[0].pattern_source, "guide:Intro");
    assert_eq!(files[1].pattern_source, "guide:Setup");
}

#[test]
fn empty_config_discovers_only_pattern_matches() {
    let found = FileDiscoverer::new(config_with(vec![])).discover(&vec![]);
    assert!(found.is_empty());
}

#[test]
fn exact_pattern_follows_the_existence_check() {
    use_exact();
}

fn use_exact() {
    let p = "README.md".to_string();
    assert_eq!(FileDiscoverer::find_files_by_exact(&p, Ok(true)), vec!["README.md".to_string()]);
    assert!(FileDiscoverer::find_files_by_exact(&p, Ok(false)).is_empty());
    assert!(FileDiscoverer::find_files_by_exact(&p, Err(documents::access::GitHubError::RateLimitExceeded)).is_empty());
}

#[test]
fn a_directory_listed_twice_is_walked_once() {
    let mut w = DirectoryWalk::start(&PatternType::from_string("*.md")).ok().unwrap();
    let mut handed = vec![];
    while let Some(dir) = w.next_directory() {
        handed.push(dir.clone());
        let entries = match dir.as_str() {
            "" => vec![entry("a", "dir"), entry("a", "dir"), entry("x.md", "file")],
            "a" => vec![entry("a/y.md", "file")],
            _ => vec![],
        };
        w.record_listing(&dir, &entries);
    }
    assert_eq!(handed, vec!["".to_string(), "a".to_string()]);
    let mut m = w.into_matches();
    m.sort();
    assert_eq!(m, vec!["a/y.md", "x.md"]);
}
