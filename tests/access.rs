use documents::access::{
    classify_errors, create_file_batches, GitHubError, QueryOutcome, QuotaAction, RateLimitGuard,
    RetryAction, RetryPolicy, RATE_LIMIT_BUFFER,
};
use documents::access::{Page, PageAction, Pagination};

#[test]
fn low_quota_waits_for_reset() {
    let mut guard = RateLimitGuard::new(RATE_LIMIT_BUFFER);
    let now = 1_000_000;
    match guard.next_action(50, now + 10, now) {
        QuotaAction::WaitForReset(s) => assert_eq!(s, 11),
        _ => panic!("expected to wait for the reset"),
    }
}

#[test]
fn quota_above_buffer_proceeds() {
    let mut guard = RateLimitGuard::new(100);
    assert!(matches!(guard.next_action(500, 10, 0), QuotaAction::Proceed));
    // at or below the buffer, but the reset is more than an hour away
    assert!(matches!(guard.next_action(50, 10_000, 0), QuotaAction::Proceed));
}

#[test]
fn spent_quota_backs_off_then_gives_up() {
    let mut guard = RateLimitGuard::new(100);
    let mut delays = vec![];
    loop {
        match guard.next_action(0, 0, 100) {
            QuotaAction::Backoff(s) => delays.push(s),
            QuotaAction::Exhausted => break,
            _ => panic!("unexpected action"),
        }
    }
    assert_eq!(delays, vec![2, 4, 8]);
}

#[test]
fn retries_follow_the_policy() {
    let mut p = RetryPolicy::new();
    assert!(matches!(p.after(QueryOutcome::Transport("down".to_string())), RetryAction::Retry(2)));
    assert!(matches!(p.after(QueryOutcome::RateLimited), RetryAction::Retry(4)));
    assert!(matches!(p.after(QueryOutcome::RateLimited), RetryAction::Retry(8)));
    assert!(matches!(p.after(QueryOutcome::RateLimited), RetryAction::Fail(GitHubError::RateLimitExceeded)));
    let mut q = RetryPolicy::new();
    assert!(matches!(q.after(QueryOutcome::TooComplex), RetryAction::Fail(GitHubError::QueryComplexityExceeded)));
    assert!(matches!(q.after(QueryOutcome::Success), RetryAction::Done));
}

#[test]
fn error_text_is_classified() {
    assert!(matches!(classify_errors("[{\"type\":\"RATE_LIMITED\"}]".to_string()), QueryOutcome::RateLimited));
    assert!(matches!(classify_errors("you hit the rate limit".to_string()), QueryOutcome::RateLimited));
    assert!(matches!(classify_errors("query complexity too high".to_string()), QueryOutcome::TooComplex));
    match classify_errors("bad field".to_string()) {
        QueryOutcome::Failed(m) => assert_eq!(m, "bad field"),
        _ => panic!("expected a plain failure"),
    }
}

#[test]
fn batches_of_fifty() {
    let paths: Vec<String> = (0..120).map(|i| format!("f{}.md", i)).collect();
    let batches = create_file_batches(&paths, 50);
    assert_eq!(batches.len(), 3);
    assert_eq!(batches[0].len(), 50);
    assert_eq!(batches[2].len(), 20);
    assert_eq!(batches[2][19], "f119.md");
    assert!(create_file_batches(&vec![], 50).is_empty());
}

#[test]
fn pagination_follows_pages_and_aborts_on_failure() {
    let mut p = Pagination::new();
    let first = Page { items: vec!["a".to_string(), "b".to_string()], has_next_page: true, end_cursor: Some("c1".to_string()) };
    match p.on_page(Ok(first)) {
        Ok(PageAction::FetchAfter(Some(c))) => assert_eq!(c, "c1"),
        _ => panic!("expected another page"),
    }
    let last = Page { items: vec!["c".to_string()], has_next_page: false, end_cursor: None };
    match p.on_page(Ok(last)) {
        Ok(PageAction::Complete(all)) => assert_eq!(all, vec!["a", "b", "c"]),
        _ => panic!("expected the full listing"),
    }
    let mut q = Pagination::new();
    let first = Page { items: vec!["a".to_string()], has_next_page: true, end_cursor: None };
    assert!(q.on_page(Ok(first)).is_ok());
    assert!(matches!(q.on_page(Err(GitHubError::ApiError("down".to_string()))), Err(GitHubError::ApiError(_))));
}

#[test]
fn batch_query_names_each_file_by_alias() {
    use_query();
}

fn use_query() {
    let batch = vec!["README.md".to_string(), "docs/a.md".to_string()];
    let q = documents::access::build_files_query("org", "repo", &batch);
    let item = |i: usize, p: &str| {
        format!(
            "file{}: object(expression: \"HEAD:{}\") {{\n                      ... on Blob {{\n                        id\n                        text\n                      }}\n                    }}",
            i, p
        )
    };
    let expected = format!(
        "\n                query {{\n                  repository(owner: \"org\", name: \"repo\") {{\n                    {}\n                  }}\n                }}\n                ",
        vec![item(0, "README.md"), item(1, "docs/a.md")].join("\n                      ")
    );
    assert_eq!(q, expected);
    assert_eq!(documents::access::file_alias_of(12), "file12");
    let paired = documents::access::pair_contents(&batch, vec![Some("# R".to_string()), None]);
    assert_eq!(paired, vec![("README.md".to_string(), Some("# R".to_string())), ("docs/a.md".to_string(), None)]);
}

#[test]
fn other_failures_are_not_retried() {
    let mut p = RetryPolicy::new();
    match p.after(QueryOutcome::Failed("bad field".to_string())) {
        RetryAction::Fail(GitHubError::GraphQLError(m)) => assert_eq!(m, "bad field"),
        _ => panic!("expected a query error"),
    }
    let mut t = RetryPolicy::new();
    for _ in 0..3 {
        assert!(matches!(t.after(QueryOutcome::Transport("x".to_string())), RetryAction::Retry(_)));
    }
    assert!(matches!(t.after(QueryOutcome::Transport("x".to_string())), RetryAction::Fail(GitHubError::ApiError(_))));
}

#[test]
fn each_round_starts_with_no_backoffs() {
    let mut guard = RateLimitGuard::new(100);
    assert!(matches!(guard.next_action(0, 0, 100), QuotaAction::Backoff(2)));
    assert!(matches!(guard.next_action(0, 0, 100), QuotaAction::Backoff(4)));
    assert!(matches!(guard.next_action(500, 0, 100), QuotaAction::Proceed));
    assert_eq!(guard.retries, 0);
    assert!(matches!(guard.next_action(0, 0, 100), QuotaAction::Backoff(2)));
    let mut p = RetryPolicy::new();
    assert!(matches!(p.after(QueryOutcome::RateLimited), RetryAction::Retry(2)));
    assert!(matches!(p.after(QueryOutcome::Success), RetryAction::Done));
    assert!(matches!(p.after(QueryOutcome::RateLimited), RetryAction::Retry(2)));
}
