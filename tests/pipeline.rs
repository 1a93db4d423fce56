use documents::access::GitHubError;
use documents::pipeline::{DiscoveredFile, DocumentProcessingPipeline, PipelineError, PipelineStage};

fn file(p: &str) -> DiscoveredFile {
    DiscoveredFile { path: p.to_string(), pattern_source: "k".to_string(), estimated_size: None }
}

#[test]
fn run_goes_through_its_stages() {
    let mut run = DocumentProcessingPipeline::new("test-repo".to_string());
    assert!(matches!(run.stage, PipelineStage::Discovering));
    let paths = run.on_discovered(Ok(vec![file("docs/a.md"), file("docs/missing.md")])).ok().unwrap();
    assert_eq!(paths, vec!["docs/a.md".to_string(), "docs/missing.md".to_string()]);
    assert!(matches!(run.stage, PipelineStage::Validating));
    let fetched = vec![
        ("docs/a.md".to_string(), Some("---\ntitle: A\n---\n# Heading\n[x](b.md)".to_string())),
        ("docs/missing.md".to_string(), None),
    ];
    let docs = run.on_fetched(Ok(fetched), 10, 2).ok().unwrap();
    assert!(matches!(run.stage, PipelineStage::Done));
    assert_eq!(docs.len(), 1);
    assert_eq!(docs[0].file_path, "docs/a.md");
    assert_eq!(docs[0].title, "A");
    assert_eq!(docs[0].headings.len(), 1);
    assert_eq!(docs[0].links[0].url, "b.md");
    // 100 - 10 (short body) + 10 (heading) + 5 (one internal link), held to 100
    assert_eq!(docs[0].processing_metadata.quality_score, 100);
}

#[test]
fn host_errors_stop_the_run() {
    let mut run = DocumentProcessingPipeline::new("r".to_string());
    match run.on_discovered(Err(GitHubError::RateLimitExceeded)) {
        Err(PipelineError::GitHub(GitHubError::RateLimitExceeded)) => {}
        _ => panic!("expected the host error"),
    }
    assert!(matches!(run.stage, PipelineStage::Failed));

    let mut run = DocumentProcessingPipeline::new("r".to_string());
    run.on_discovered(Ok(vec![file("a.md")])).ok().unwrap();
    assert!(matches!(run.on_fetched(Err(GitHubError::QueryComplexityExceeded), 0, 0), Err(PipelineError::GitHub(GitHubError::QueryComplexityExceeded))));
    assert!(matches!(run.stage, PipelineStage::Failed));
}

#[test]
fn cancelled_run_fails() {
    let mut run = DocumentProcessingPipeline::new("r".to_string());
    assert!(matches!(run.cancel(), PipelineError::Cancelled));
    assert!(matches!(run.stage, PipelineStage::Failed));
}
