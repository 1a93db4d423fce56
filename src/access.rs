use vstd::prelude::*;

use crate::text::{chars_of, contains, contains_chars};

verus! {

/// Failures of the remote repository host.
pub enum GitHubError {
    AuthenticationError(String),
    RateLimitExceeded,
    OrganizationNotFound(String),
    ApiError(String),
    RepositoryNotFound(String),
    ConfigFileNotFound(String),
    ConfigFileReadError(String),
    ConfigFileEmpty(String),
    RequestFailed(String),
    FileNotFound(String),
    InvalidFormat(String),
    GraphQLError(String),
    BatchOperationFailed(String),
    QueryComplexityExceeded,
}

/// An entry of a directory listing.
pub struct RepositoryFile {
    pub path: String,
    pub name: String,
    pub size: Option<u64>,
    pub file_type: String,
}

/// A repository and the content of its configuration file, where it has one.
pub struct RepositoryFileContent {
    pub repo_name: String,
    pub exists: bool,
    pub content: Option<String>,
}

/// How many times a rate-limited or failed call is tried again.
pub const MAX_RETRIES: u32 = 3;

/// Requests kept in reserve before the access layer waits for the quota to reset.
pub const RATE_LIMIT_BUFFER: u64 = 100;

/// Number of paths fetched in one batched call.
pub const FILE_BATCH_SIZE: usize = 50;

/// What the caller does next about the request quota.
pub enum QuotaAction {
    /// Go ahead with the call.
    Proceed,
    /// Sleep this many seconds, until just after the quota resets, then check again.
    WaitForReset(u64),
    /// The quota is spent: sleep this many seconds, then check again.
    Backoff(u64),
    /// The quota stayed spent through every retry.
    Exhausted,
}

/// `2` to the power `n`.
pub open spec fn pow2(n: nat) -> nat
    decreases n,
{
    if n == 0 {
        1
    } else {
        2 * pow2((n - 1) as nat)
    }
}

/// The action for a quota of `remaining` requests that resets at `reset_at`, seen at `now`
/// (both in seconds since the Unix epoch), after `retries` backoffs.
pub open spec fn quota_action(
    remaining: int,
    buffer: int,
    reset_at: int,
    now: int,
    retries: int,
) -> QuotaAction {
    if remaining <= buffer && 0 < reset_at - now < 3600 {
        QuotaAction::WaitForReset((reset_at - now + 1) as u64)
    } else if remaining > 0 {
        QuotaAction::Proceed
    } else if retries + 1 > MAX_RETRIES {
        QuotaAction::Exhausted
    } else {
        QuotaAction::Backoff(pow2((retries + 1) as nat) as u64)
    }
}

/// The check-then-sleep sequence run before each round of calls. One guard serves one client,
/// so that concurrent callers share its count of backoffs.
pub struct RateLimitGuard {
    pub buffer: u64,
    pub retries: u32,
}

impl RateLimitGuard {
    /// A guard that keeps `buffer` requests in reserve.
    pub fn new(buffer: u64) -> (r: RateLimitGuard)
        ensures
            r.buffer == buffer,
            r.retries == 0,
    {
        RateLimitGuard { buffer, retries: 0 }
    }

    /// Decides what to do about the quota just read: wait for a reset due within the hour when
    /// at or below the buffer, proceed while requests remain, and otherwise back off
    /// `2^attempt` seconds, giving up after the last retry. Proceeding or giving up ends the
    /// round, and the next round starts again with no backoffs counted.
    pub fn next_action(&mut self, remaining: u64, reset_at: i64, now: i64) -> (r: QuotaAction)
        requires
            old(self).retries <= MAX_RETRIES,
        ensures
            r == quota_action(
                remaining as int,
                old(self).buffer as int,
                reset_at as int,
                now as int,
                old(self).retries as int,
            ),
            final(self).buffer == old(self).buffer,
            final(self).retries <= MAX_RETRIES,
            r is Backoff ==> final(self).retries == old(self).retries + 1,
            r is WaitForReset ==> final(self).retries == old(self).retries,
            (r is Proceed || r is Exhausted) ==> final(self).retries == 0,
    {
        let diff: i128 = reset_at as i128 - now as i128;
        if remaining <= self.buffer && 0 < diff && diff < 3600 {
            return QuotaAction::WaitForReset((diff + 1) as u64);
        }
        if remaining > 0 {
            self.retries = 0;
            return QuotaAction::Proceed;
        }
        if self.retries + 1 > MAX_RETRIES {
            self.retries = 0;
            return QuotaAction::Exhausted;
        }
        self.retries = self.retries + 1;
        QuotaAction::Backoff(backoff_seconds(self.retries))
    }
}

/// `2^attempt` seconds of backoff.
pub fn backoff_seconds(attempt: u32) -> (r: u64)
    requires
        attempt <= MAX_RETRIES,
    ensures
        r == pow2(attempt as nat),
{
    let mut r: u64 = 1;
    let mut k: u32 = 0;
    while k < attempt
        invariant
            k <= attempt <= MAX_RETRIES,
            r == pow2(k as nat),
            r <= 8,
        decreases attempt - k,
    {
        k = k + 1;
        r = r * 2;
        proof {
            assert(pow2(k as nat) == 2 * pow2((k - 1) as nat));
        }
        assert(r <= 8) by {
            assert(pow2(0) == 1);
            assert(pow2(1) == 2);
            assert(pow2(2) == 4);
            assert(pow2(3) == 8);
        }
    }
    r
}

/// How one remote query came back.
pub enum QueryOutcome {
    /// A response without errors.
    Success,
    /// A response whose errors name a rate limit.
    RateLimited,
    /// A response whose errors say the query was too complex.
    TooComplex,
    /// A response with other errors; their text.
    Failed(String),
    /// The transport failed; the error's text.
    Transport(String),
}

/// What the caller does after a query.
pub enum RetryAction {
    /// Keep the response.
    Done,
    /// Sleep this many seconds, then send the query again.
    Retry(u64),
    /// Give up with this error.
    Fail(GitHubError),
}

/// The retry policy around one query: rate limits and transport failures are retried with
/// `2^attempt` seconds of backoff up to the retry bound; a query that is too complex, or that
/// failed otherwise, is not retried. Once a query is done or has failed for good, the count
/// starts again at zero for the next one.
pub struct RetryPolicy {
    pub retries: u32,
}

/// The model of a retry action, apart from the error text.
pub enum RetryModel {
    Done,
    Retry(int),
    RateLimitExceeded,
    QueryTooComplex,
    GraphQL(Seq<char>),
    Api(Seq<char>),
}

pub open spec fn retry_model(a: RetryAction) -> RetryModel {
    match a {
        RetryAction::Done => RetryModel::Done,
        RetryAction::Retry(d) => RetryModel::Retry(d as int),
        RetryAction::Fail(GitHubError::RateLimitExceeded) => RetryModel::RateLimitExceeded,
        RetryAction::Fail(GitHubError::QueryComplexityExceeded) => RetryModel::QueryTooComplex,
        RetryAction::Fail(GitHubError::GraphQLError(m)) => RetryModel::GraphQL(m@),
        RetryAction::Fail(GitHubError::ApiError(m)) => RetryModel::Api(m@),
        RetryAction::Fail(_) => RetryModel::Done,
    }
}

/// The action after `outcome` when `retries` retries have been made.
pub open spec fn retry_spec(outcome: QueryOutcome, retries: int) -> RetryModel {
    match outcome {
        QueryOutcome::Success => RetryModel::Done,
        QueryOutcome::TooComplex => RetryModel::QueryTooComplex,
        QueryOutcome::Failed(m) => RetryModel::GraphQL(m@),
        QueryOutcome::RateLimited => if retries + 1 > MAX_RETRIES {
            RetryModel::RateLimitExceeded
        } else {
            RetryModel::Retry(pow2((retries + 1) as nat) as int)
        },
        QueryOutcome::Transport(m) => if retries + 1 > MAX_RETRIES {
            RetryModel::Api(m@)
        } else {
            RetryModel::Retry(pow2((retries + 1) as nat) as int)
        },
    }
}

impl RetryPolicy {
    pub fn new() -> (r: RetryPolicy)
        ensures
            r.retries == 0,
    {
        RetryPolicy { retries: 0 }
    }

    /// Decides what follows a query that came back as `outcome`.
    pub fn after(&mut self, outcome: QueryOutcome) -> (r: RetryAction)
        requires
            old(self).retries <= MAX_RETRIES,
        ensures
            retry_model(r) == retry_spec(outcome, old(self).retries as int),
            final(self).retries <= MAX_RETRIES,
            r is Retry ==> final(self).retries == old(self).retries + 1,
            !(r is Retry) ==> final(self).retries == 0,
    {
        let r = match outcome {
            QueryOutcome::Success => RetryAction::Done,
            QueryOutcome::TooComplex => RetryAction::Fail(GitHubError::QueryComplexityExceeded),
            QueryOutcome::Failed(m) => RetryAction::Fail(GitHubError::GraphQLError(m)),
            QueryOutcome::RateLimited => {
                if self.retries + 1 > MAX_RETRIES {
                    RetryAction::Fail(GitHubError::RateLimitExceeded)
                } else {
                    self.retries = self.retries + 1;
                    RetryAction::Retry(backoff_seconds(self.retries))
                }
            },
            QueryOutcome::Transport(m) => {
                if self.retries + 1 > MAX_RETRIES {
                    RetryAction::Fail(GitHubError::ApiError(m))
                } else {
                    self.retries = self.retries + 1;
                    RetryAction::Retry(backoff_seconds(self.retries))
                }
            },
        };
        if !matches!(r, RetryAction::Retry(_)) {
            self.retries = 0;
        }
        r
    }
}

pub open spec fn rate_limit_text() -> Seq<char> {
    "rate limit"@
}

pub open spec fn rate_limited_text() -> Seq<char> {
    "RATE_LIMITED"@
}

pub open spec fn complexity_text() -> Seq<char> {
    "complexity"@
}

/// How a response's error text is read: a rate limit, a query too complex, or another failure.
pub open spec fn classify_spec(errors: Seq<char>) -> QueryOutcome {
    if contains(errors, rate_limit_text()) || contains(errors, rate_limited_text()) {
        QueryOutcome::RateLimited
    } else if contains(errors, complexity_text()) {
        QueryOutcome::TooComplex
    } else {
        QueryOutcome::Failed(arbitrary())
    }
}

/// Reads the error text of a response.
pub fn classify_errors(errors: String) -> (r: QueryOutcome)
    ensures
        match classify_spec(errors@) {
            QueryOutcome::Failed(_) => r matches QueryOutcome::Failed(m) && m@ == errors@,
            other => r == other,
        },
{
    let e = chars_of(errors.as_str());
    let a = chars_of("rate limit");
    let b = chars_of("RATE_LIMITED");
    let c = chars_of("complexity");
    if contains_chars(&e, &a) || contains_chars(&e, &b) {
        QueryOutcome::RateLimited
    } else if contains_chars(&e, &c) {
        QueryOutcome::TooComplex
    } else {
        QueryOutcome::Failed(errors)
    }
}

/// One page of a paginated listing: its items, and where the next page starts, if any.
pub struct Page {
    pub items: Vec<String>,
    pub has_next_page: bool,
    pub end_cursor: Option<String>,
}

/// What the caller does after a page.
pub enum PageAction {
    /// Fetch the page after this cursor.
    FetchAfter(Option<String>),
    /// The listing is complete: every item, in page order.
    Complete(Vec<String>),
}

/// A paginated listing followed to its end. A page that fails aborts the whole listing with
/// its error; nothing gathered so far is returned.
pub struct Pagination {
    pub collected: Vec<String>,
    pub finished: bool,
}

impl Pagination {
    pub fn new() -> (r: Pagination)
        ensures
            r.collected@.len() == 0,
            !r.finished,
    {
        Pagination { collected: Vec::new(), finished: false }
    }

    /// Takes the result of fetching one page.
    pub fn on_page(&mut self, page: Result<Page, GitHubError>) -> (r: Result<PageAction, GitHubError>)
        requires
            !old(self).finished,
        ensures
            match page {
                Err(e) => r == Err::<PageAction, GitHubError>(e) && final(self).finished,
                Ok(p) => if p.has_next_page {
                    r matches Ok(PageAction::FetchAfter(c)) && c == p.end_cursor
                        && !final(self).finished && final(self).collected@ == old(self).collected@
                        + p.items@
                } else {
                    r matches Ok(PageAction::Complete(all)) && all@ == old(self).collected@
                        + p.items@ && final(self).finished
                },
            },
    {
        match page {
            Err(e) => {
                self.finished = true;
                self.collected = Vec::new();
                Err(e)
            },
            Ok(p) => {
                let Page { items, has_next_page, end_cursor } = p;
                let mut items = items;
                self.collected.append(&mut items);
                if has_next_page {
                    Ok(PageAction::FetchAfter(end_cursor))
                } else {
                    self.finished = true;
                    let mut all: Vec<String> = Vec::new();
                    all.append(&mut self.collected);
                    Ok(PageAction::Complete(all))
                }
            },
        }
    }
}

pub open spec fn alias_tail() -> Seq<char> {
    ": object(expression: \"HEAD:"@
}

pub open spec fn blob_fields() -> Seq<char> {
    "\") {\n                      ... on Blob {\n                        id\n                        text\n                      }\n                    }"@
}

pub open spec fn query_head() -> Seq<char> {
    "\n                query {\n                  repository(owner: \""@
}

pub open spec fn query_name() -> Seq<char> {
    "\", name: \""@
}

pub open spec fn query_open() -> Seq<char> {
    "\") {\n                    "@
}

pub open spec fn query_tail() -> Seq<char> {
    "\n                  }\n                }\n                "@
}

pub open spec fn query_separator() -> Seq<char> {
    "\n                      "@
}

/// The alias under which the `i`-th file of a batch comes back.
pub open spec fn file_alias(i: nat) -> Seq<char> {
    "file"@ + crate::text::decimal(i)
}

/// The query part that fetches one file's text at `HEAD` under its alias.
pub open spec fn file_query(i: nat, path: Seq<char>) -> Seq<char> {
    file_alias(i) + alias_tail() + path + blob_fields()
}

/// The file query parts of a batch, separated as the query lays them out.
pub open spec fn joined_file_queries(paths: Seq<Seq<char>>) -> Seq<char>
    decreases paths.len(),
{
    if paths.len() == 0 {
        Seq::empty()
    } else if paths.len() == 1 {
        file_query(0, paths[0])
    } else {
        joined_file_queries(paths.drop_last()) + query_separator() + file_query(
            (paths.len() - 1) as nat,
            paths.last(),
        )
    }
}

/// The query that fetches a batch of files of one repository in one call.
pub open spec fn files_query(org: Seq<char>, repo: Seq<char>, paths: Seq<Seq<char>>) -> Seq<char> {
    query_head() + org + query_name() + repo + query_open() + joined_file_queries(paths)
        + query_tail()
}

/// The alias under which the `index`-th file of a batch comes back.
pub fn file_alias_of(index: usize) -> (r: String)
    ensures
        r@ == file_alias(index as nat),
{
    let mut v = chars_of("file");
    crate::text::push_decimal(&mut v, index);
    crate::text::string_of(&v)
}

/// The query that fetches the text of each file of `batch` at `HEAD`, the `i`-th under the
/// alias `file<i>`; a file that does not exist comes back as null.
pub fn build_files_query(organization: &str, repository: &str, batch: &Vec<String>) -> (r: String)
    ensures
        r@ == files_query(
            organization@,
            repository@,
            batch@.map_values(|p: String| p@),
        ),
{
    let ghost paths = batch@.map_values(|p: String| p@);
    let mut v = chars_of("\n                query {\n                  repository(owner: \"");
    crate::processor::push_all(&mut v, &chars_of(organization));
    crate::processor::push_all(&mut v, &chars_of("\", name: \""));
    crate::processor::push_all(&mut v, &chars_of(repository));
    crate::processor::push_all(&mut v, &chars_of("\") {\n                    "));
    let ghost head = v@;
    let mut k: usize = 0;
    assert(paths.take(0) =~= Seq::<Seq<char>>::empty());
    assert(v@ =~= head + joined_file_queries(paths.take(0)));
    while k < batch.len()
        invariant
            k <= batch@.len(),
            paths == batch@.map_values(|p: String| p@),
            v@ == head + joined_file_queries(paths.take(k as int)),
        decreases batch@.len() - k,
    {
        let ghost before = v@;
        if k > 0 {
            crate::processor::push_all(&mut v, &chars_of("\n                      "));
        }
        crate::processor::push_all(&mut v, &chars_of(file_alias_of(k).as_str()));
        crate::processor::push_all(&mut v, &chars_of(": object(expression: \"HEAD:"));
        crate::processor::push_all(&mut v, &chars_of(batch[k].as_str()));
        crate::processor::push_all(
            &mut v,
            &chars_of(
                "\") {\n                      ... on Blob {\n                        id\n                        text\n                      }\n                    }",
            ),
        );
        proof {
            let now = paths.take(k + 1);
            assert(now.drop_last() =~= paths.take(k as int));
            assert(now.last() == batch@[k as int]@);
            if k == 0 {
                assert(v@ =~= head + file_query(0, now[0]));
            } else {
                assert(v@ =~= head + (joined_file_queries(paths.take(k as int)) + query_separator()
                    + file_query(k as nat, now.last())));
            }
        }
        k = k + 1;
    }
    assert(paths.take(batch@.len() as int) =~= paths);
    crate::processor::push_all(&mut v, &chars_of("\n                  }\n                }\n                "));
    assert(v@ =~= files_query(organization@, repository@, paths));
    crate::text::string_of(&v)
}

/// Each path of a batch with the content that came back under its alias.
pub fn pair_contents(batch: &Vec<String>, contents: Vec<Option<String>>) -> (r: Vec<(String, Option<String>)>)
    requires
        contents@.len() == batch@.len(),
    ensures
        r@.len() == batch@.len(),
        forall|i: int|
            0 <= i < r@.len() ==> (#[trigger] r@[i]).0@ == batch@[i]@ && r@[i].1 == contents@[i],
{
    let ghost orig = contents@;
    let total = contents.len();
    let mut rest = contents;
    let mut r: Vec<(String, Option<String>)> = Vec::new();
    let mut k: usize = 0;
    while rest.len() > 0
        invariant
            k + rest@.len() == orig.len(),
            orig.len() == total,
            orig.len() == batch@.len(),
            rest@ == orig.skip(k as int),
            r@.len() == k,
            forall|i: int|
                0 <= i < k ==> (#[trigger] r@[i]).0@ == batch@[i]@ && r@[i].1 == orig[i],
        decreases rest@.len(),
    {
        let c = rest.remove(0);
        assert(c == orig[k as int]);
        assert(rest@ =~= orig.skip(k + 1));
        let path = batch[k].clone();
        r.push((path, c));
        k = k + 1;
    }
    r
}

/// The paths cut into consecutive batches of `batch_size`, the last one possibly shorter.
pub fn create_file_batches(file_paths: &Vec<String>, batch_size: usize) -> (r: Vec<Vec<String>>)
    requires
        batch_size > 0,
    ensures
        r@.len() == (file_paths@.len() + batch_size - 1) / batch_size as int,
        forall|i: int|
            0 <= i < r@.len() ==> #[trigger] r@[i]@.len() == if i < r@.len() - 1 {
                batch_size as int
            } else {
                file_paths@.len() - i * batch_size
            },
        forall|i: int, j: int|
            0 <= i < r@.len() && 0 <= j < r@[i]@.len() ==> #[trigger] r@[i]@[j]@ == file_paths@[i
                * batch_size + j]@,
{
    let mut r: Vec<Vec<String>> = Vec::new();
    let mut start: usize = 0;
    let n = file_paths.len();
    assert(r@.len() * batch_size == 0) by (nonlinear_arith)
        requires
            r@.len() == 0,
    ;
    while start < n
        invariant
            n == file_paths@.len(),
            start <= n,
            start == r@.len() * batch_size,
            batch_size > 0,
            forall|i: int| 0 <= i < r@.len() ==> #[trigger] r@[i]@.len() == batch_size,
            forall|i: int, j: int|
                0 <= i < r@.len() && 0 <= j < r@[i]@.len() ==> #[trigger] r@[i]@[j]@
                    == file_paths@[i * batch_size + j]@,
        decreases n - start,
    {
        let end = if n - start < batch_size {
            n
        } else {
            start + batch_size
        };
        let mut chunk: Vec<String> = Vec::new();
        let mut k: usize = start;
        while k < end
            invariant
                start <= k <= end <= n,
                n == file_paths@.len(),
                chunk@.len() == k - start,
                forall|j: int|
                    0 <= j < chunk@.len() ==> #[trigger] chunk@[j]@ == file_paths@[start + j]@,
            decreases end - k,
        {
            chunk.push(file_paths[k].clone());
            k = k + 1;
        }
        let ghost old_r = r@;
        r.push(chunk);
        proof {
            assert forall|i: int, j: int|
                0 <= i < r@.len() && 0 <= j < r@[i]@.len() implies #[trigger] r@[i]@[j]@
                == file_paths@[i * batch_size + j]@ by {
                if i < old_r.len() {
                    assert(r@[i] == old_r[i]);
                } else {
                    assert(i * batch_size == start) by (nonlinear_arith)
                        requires
                            i == old_r.len(),
                            start == old_r.len() * batch_size,
                    ;
                }
            }
        }
        if end == n && n - start < batch_size {
            assert(forall|i: int| 0 <= i < old_r.len() ==> #[trigger] r@[i]@.len() == batch_size);
            proof {
                lemma_batches_count(n as int, batch_size as int, r@.len() as int, start as int);
                assert forall|i: int| 0 <= i < r@.len() implies #[trigger] r@[i]@.len() == if i
                    < r@.len() - 1 {
                    batch_size as int
                } else {
                    file_paths@.len() - i * batch_size
                } by {
                    if i < r@.len() - 1 {
                        assert(r@[i] == old_r[i]);
                    } else {
                        assert(i * batch_size == start) by (nonlinear_arith)
                            requires
                                i == old_r.len(),
                                start == old_r.len() * batch_size,
                        ;
                    }
                }
            }
            return r;
        }
        assert(r@.len() * batch_size == start + batch_size) by (nonlinear_arith)
            requires
                r@.len() == old_r.len() + 1,
                start == old_r.len() * batch_size,
        ;
        start = end;
    }
    proof {
        lemma_batches_exact(n as int, batch_size as int, r@.len() as int);
        assert forall|i: int| 0 <= i < r@.len() implies #[trigger] r@[i]@.len() == if i < r@.len()
            - 1 {
            batch_size as int
        } else {
            file_paths@.len() - i * batch_size
        } by {
            if i == r@.len() - 1 {
                assert(i * batch_size == n - batch_size) by (nonlinear_arith)
                    requires
                        i == r@.len() - 1,
                        n == r@.len() * batch_size,
                ;
            }
        }
    }
    r
}

proof fn lemma_batches_count(n: int, b: int, count: int, start: int)
    requires
        b > 0,
        0 <= start,
        start == (count - 1) * b,
        n - start < b,
        start < n,
        count >= 1,
    ensures
        count == (n + b - 1) / b,
{
    assert((count - 1) * b + b == count * b) by (nonlinear_arith);
    assert(n + b - 1 >= count * b) by (nonlinear_arith)
        requires
            start == (count - 1) * b,
            start < n,
            (count - 1) * b + b == count * b,
    ;
    assert(n + b - 1 < (count + 1) * b) by (nonlinear_arith)
        requires
            n - start < b,
            start == (count - 1) * b,
            (count - 1) * b + b == count * b,
    ;
    vstd::arithmetic::div_mod::lemma_fundamental_div_mod_converse(
        n + b - 1,
        b,
        count,
        n + b - 1 - count * b,
    );
}

proof fn lemma_batches_exact(n: int, b: int, count: int)
    requires
        b > 0,
        n == count * b,
        count >= 0,
    ensures
        count == (n + b - 1) / b,
{
    vstd::arithmetic::div_mod::lemma_fundamental_div_mod_converse(n + b - 1, b, count, b - 1);
}

} // verus!
