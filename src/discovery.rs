use vstd::prelude::*;

use crate::access::RepositoryFile;
use crate::pipeline::{DiscoveredFile, DiscoveredModel, PipelineError};
use crate::text::{chars_of, contains, starts_with, starts_with_chars, string_of, slice_chars};

use crate::{DocumentConfig, ProjectConfig};

verus! {

/// Whether `glob::Pattern::new` accepts a pattern.
pub uninterp spec fn glob_valid(pattern: Seq<char>) -> bool;

/// Whether a compiled glob pattern matches a path.
pub uninterp spec fn glob_matches(pattern: Seq<char>, path: Seq<char>) -> bool;

/// Whether `regex::Regex::new` accepts a pattern.
pub uninterp spec fn regex_valid(pattern: Seq<char>) -> bool;

/// Whether a compiled regular expression matches somewhere in a path.
pub uninterp spec fn regex_matches(pattern: Seq<char>, path: Seq<char>) -> bool;

/// Relies on `glob::Pattern::new`: whether the pattern compiles.
#[verifier::external_body]
fn glob_compiles(pattern: &str) -> (r: bool)
    ensures
        r == glob_valid(pattern@),
{
    glob::Pattern::new(pattern).is_ok()
}

/// Relies on `glob::Pattern::matches`, on the pattern that `glob::Pattern::new` compiles.
#[verifier::external_body]
fn glob_match(pattern: &str, path: &str) -> (r: bool)
    requires
        glob_valid(pattern@),
    ensures
        r == glob_matches(pattern@, path@),
{
    match glob::Pattern::new(pattern) {
        Ok(p) => p.matches(path),
        Err(_) => false,
    }
}

/// Relies on `regex::Regex::new`: whether the expression compiles.
#[verifier::external_body]
fn regex_compiles(pattern: &str) -> (r: bool)
    ensures
        r == regex_valid(pattern@),
{
    regex::Regex::new(pattern).is_ok()
}

/// Relies on `regex::Regex::is_match`, on the expression that `regex::Regex::new` compiles.
#[verifier::external_body]
fn regex_match(pattern: &str, path: &str) -> (r: bool)
    requires
        regex_valid(pattern@),
    ensures
        r == regex_matches(pattern@, path@),
{
    match regex::Regex::new(pattern) {
        Ok(re) => re.is_match(path),
        Err(_) => false,
    }
}

/// One of the three pattern dialects.
pub enum PatternType {
    /// Shell-style `*`, `?` and `[]`, e.g. `docs/**/*.md`.
    Glob(String),
    /// A regular expression, e.g. `^docs/.*\.md$`.
    Regex(String),
    /// A path compared as it stands, e.g. `README.md`.
    Exact(String),
}

/// The dialect and text of a pattern.
pub enum PatternModel {
    Glob(Seq<char>),
    Regex(Seq<char>),
    Exact(Seq<char>),
}

impl View for PatternType {
    type V = PatternModel;

    open spec fn view(&self) -> PatternModel {
        match self {
            PatternType::Glob(s) => PatternModel::Glob(s@),
            PatternType::Regex(s) => PatternModel::Regex(s@),
            PatternType::Exact(s) => PatternModel::Exact(s@),
        }
    }
}

pub open spec fn regex_marker() -> Seq<char> {
    "regex:"@
}

/// How a pattern string is read: `regex:` marks a regular expression, `*`, `?` or `[` a glob,
/// anything else an exact path.
pub open spec fn pattern_of(s: Seq<char>) -> PatternModel {
    if starts_with(s, regex_marker()) {
        PatternModel::Regex(s.subrange(6, s.len() as int))
    } else if contains(s, seq!['*']) || contains(s, seq!['?']) || contains(s, seq!['[']) {
        PatternModel::Glob(s)
    } else {
        PatternModel::Exact(s)
    }
}

/// The text a pattern is shown as: a regular expression keeps its `regex:` marker.
pub open spec fn pattern_text(p: PatternModel) -> Seq<char> {
    match p {
        PatternModel::Glob(s) => s,
        PatternModel::Regex(s) => regex_marker() + s,
        PatternModel::Exact(s) => s,
    }
}

/// Whether a pattern can be used.
pub open spec fn pattern_valid(p: PatternModel) -> bool {
    match p {
        PatternModel::Glob(s) => glob_valid(s),
        PatternModel::Regex(s) => regex_valid(s),
        PatternModel::Exact(_) => true,
    }
}

/// Whether a pattern selects a path.
pub open spec fn pattern_selects(p: PatternModel, path: Seq<char>) -> bool {
    match p {
        PatternModel::Glob(s) => glob_matches(s, path),
        PatternModel::Regex(s) => regex_matches(s, path),
        PatternModel::Exact(s) => s == path,
    }
}

fn single(c: char) -> (r: Vec<char>)
    ensures
        r@ == seq![c],
{
    let r = vec![c];
    assert(r@ =~= seq![c]);
    r
}

impl PatternType {
    /// Reads a pattern string.
    pub fn from_string(pattern: &str) -> (r: PatternType)
        ensures
            r@ == pattern_of(pattern@),
    {
        let s = chars_of(pattern);
        let marker = chars_of("regex:");
        proof {
            reveal_strlit("regex:");
        }
        if starts_with_chars(&s, &marker) {
            PatternType::Regex(string_of(&slice_chars(&s, 6, s.len())))
        } else if crate::text::contains_chars(&s, &single('*')) || crate::text::contains_chars(
            &s,
            &single('?'),
        ) || crate::text::contains_chars(&s, &single('[')) {
            PatternType::Glob(pattern.to_owned())
        } else {
            PatternType::Exact(pattern.to_owned())
        }
    }

    /// The text the pattern is shown as.
    pub fn pattern_to_string(&self) -> (r: String)
        ensures
            r@ == pattern_text(self@),
    {
        match self {
            PatternType::Glob(p) => p.clone(),
            PatternType::Regex(p) => {
                let mut m = chars_of("regex:");
                crate::processor::push_all(&mut m, &chars_of(p.as_str()));
                string_of(&m)
            },
            PatternType::Exact(p) => p.clone(),
        }
    }

    /// Whether the pattern compiles.
    pub fn is_valid(&self) -> (r: bool)
        ensures
            r == pattern_valid(self@),
    {
        match self {
            PatternType::Glob(p) => glob_compiles(p.as_str()),
            PatternType::Regex(p) => regex_compiles(p.as_str()),
            PatternType::Exact(_) => true,
        }
    }

    /// Whether the pattern selects `path`.
    pub fn selects(&self, path: &str) -> (r: bool)
        requires
            pattern_valid(self@),
        ensures
            r == pattern_selects(self@, path@),
    {
        match self {
            PatternType::Glob(p) => glob_match(p.as_str(), path),
            PatternType::Regex(p) => regex_match(p.as_str(), path),
            PatternType::Exact(p) => {
                let a = chars_of(p.as_str());
                let b = chars_of(path);
                crate::path_normalization::same_chars(&a, &b)
            },
        }
    }

    fn duplicate(&self) -> (r: PatternType)
        ensures
            r@ == self@,
    {
        match self {
            PatternType::Glob(p) => PatternType::Glob(p.clone()),
            PatternType::Regex(p) => PatternType::Regex(p.clone()),
            PatternType::Exact(p) => PatternType::Exact(p.clone()),
        }
    }
}

/// The convention patterns applied besides the configured paths.
pub fn convention_patterns() -> (r: Vec<PatternType>)
    ensures
        r@.map_values(|p: PatternType| p@) == seq![
            PatternModel::Exact("README.md"@),
            PatternModel::Exact("CONTRIBUTING.md"@),
            PatternModel::Exact("CHANGELOG.md"@),
            PatternModel::Glob("docs/**/*.md"@),
            PatternModel::Glob("*.md"@),
            PatternModel::Regex("^[A-Z]+\\.md$"@),
        ],
{
    let r = vec![
        PatternType::Exact("README.md".to_owned()),
        PatternType::Exact("CONTRIBUTING.md".to_owned()),
        PatternType::Exact("CHANGELOG.md".to_owned()),
        PatternType::Glob("docs/**/*.md".to_owned()),
        PatternType::Glob("*.md".to_owned()),
        PatternType::Regex("^[A-Z]+\\.md$".to_owned()),
    ];
    assert(r@.map_values(|p: PatternType| p@) =~= seq![
        PatternModel::Exact("README.md"@),
        PatternModel::Exact("CONTRIBUTING.md"@),
        PatternModel::Exact("CHANGELOG.md"@),
        PatternModel::Glob("docs/**/*.md"@),
        PatternModel::Glob("*.md"@),
        PatternModel::Regex("^[A-Z]+\\.md$"@),
    ]);
    r
}

/// The files that the configured entry `d` and the entries below it contribute: each entry
/// with a path, tagged with `key`, or `key:title` below the top level.
pub open spec fn node_files(d: DocumentConfig, key: Seq<char>, top: bool) -> Seq<
    (Seq<char>, Seq<char>),
>
    decreases d, 0nat,
{
    (match d.path {
        Some(p) => seq![
            (p@, if top {
                key
            } else {
                key + seq![':'] + d.title@
            }),
        ],
        None => Seq::empty(),
    }) + match d.sub_documents {
        Some(v) => list_files(v, v.len() as int, key),
        None => Seq::empty(),
    }
}

/// The files that the first `n` entries of `v` and the entries below them contribute.
pub open spec fn list_files(v: Vec<DocumentConfig>, n: int, key: Seq<char>) -> Seq<
    (Seq<char>, Seq<char>),
>
    decreases v, n,
{
    if n <= 0 || n > v.len() {
        Seq::empty()
    } else {
        list_files(v, n - 1, key) + node_files(v[n - 1], key, false)
    }
}

/// The files that the configuration's entries contribute, in declared order.
pub open spec fn config_files(docs: Seq<(String, DocumentConfig)>) -> Seq<(Seq<char>, Seq<char>)>
    decreases docs.len(),
{
    if docs.len() == 0 {
        Seq::empty()
    } else {
        config_files(docs.drop_last()) + node_files(docs.last().1, docs.last().0@, true)
    }
}

/// The path and origin of each record.
pub open spec fn path_sources(v: Seq<DiscoveredFile>) -> Seq<(Seq<char>, Seq<char>)> {
    v.map_values(|f: DiscoveredFile| (f.path@, f.pattern_source@))
}

/// Code-point lexicographic order, which is the order of `String`'s `Ord`.
pub open spec fn seq_lt(a: Seq<char>, b: Seq<char>) -> bool
    decreases a.len(),
{
    if a.len() == 0 {
        b.len() > 0
    } else if b.len() == 0 {
        false
    } else if a[0] != b[0] {
        (a[0] as int) < (b[0] as int)
    } else {
        seq_lt(a.drop_first(), b.drop_first())
    }
}

pub proof fn lemma_lt_irreflexive(a: Seq<char>)
    ensures
        !seq_lt(a, a),
    decreases a.len(),
{
    if a.len() > 0 {
        lemma_lt_irreflexive(a.drop_first());
    }
}

pub proof fn lemma_lt_total(a: Seq<char>, b: Seq<char>)
    requires
        a != b,
    ensures
        seq_lt(a, b) || seq_lt(b, a),
    decreases a.len(),
{
    if a.len() == 0 {
        if b.len() == 0 {
            assert(a =~= b);
        }
    } else if b.len() == 0 {
    } else if a[0] != b[0] {
        assert((a[0] as int) != (b[0] as int));
    } else {
        if a.drop_first() == b.drop_first() {
            assert(a =~= seq![a[0]] + a.drop_first());
            assert(b =~= seq![b[0]] + b.drop_first());
        }
        lemma_lt_total(a.drop_first(), b.drop_first());
    }
}

pub proof fn lemma_lt_trans(a: Seq<char>, b: Seq<char>, c: Seq<char>)
    requires
        seq_lt(a, b),
        seq_lt(b, c),
    ensures
        seq_lt(a, c),
    decreases a.len(),
{
    if a.len() > 0 && b.len() > 0 && c.len() > 0 {
        if a[0] == b[0] && b[0] == c[0] {
            lemma_lt_trans(a.drop_first(), b.drop_first(), c.drop_first());
        }
    }
}


/// Whether `a` comes before `b` in code-point order.
pub fn chars_lt(a: &Vec<char>, b: &Vec<char>) -> (r: bool)
    ensures
        r == seq_lt(a@, b@),
{
    let mut i: usize = 0;
    assert(a@.skip(0) =~= a@);
    assert(b@.skip(0) =~= b@);
    while i < a.len() && i < b.len() && a[i] == b[i]
        invariant
            i <= a@.len(),
            i <= b@.len(),
            seq_lt(a@, b@) == seq_lt(a@.skip(i as int), b@.skip(i as int)),
        decreases a@.len() - i,
    {
        let ghost sa = a@.skip(i as int);
        let ghost sb = b@.skip(i as int);
        assert(sa.drop_first() =~= a@.skip(i + 1));
        assert(sb.drop_first() =~= b@.skip(i + 1));
        i = i + 1;
    }
    let ghost sa = a@.skip(i as int);
    let ghost sb = b@.skip(i as int);
    if i == a.len() {
        assert(sa.len() == 0);
        i < b.len()
    } else if i == b.len() {
        false
    } else {
        assert(sa[0] == a@[i as int] && sb[0] == b@[i as int]);
        a[i] < b[i]
    }
}

/// Whether the paths are in strictly increasing order.
pub open spec fn strictly_sorted(v: Seq<DiscoveredFile>) -> bool {
    forall|i: int, j: int| 0 <= i < j < v.len() ==> seq_lt(v[i].path@, v[j].path@)
}

/// Records in strictly increasing path order hold each path once.
pub proof fn lemma_sorted_paths_distinct(v: Seq<DiscoveredFile>)
    requires
        strictly_sorted(v),
    ensures
        forall|i: int, j: int| 0 <= i < j < v.len() ==> v[i].path@ != v[j].path@,
{
    assert forall|i: int, j: int| 0 <= i < j < v.len() implies v[i].path@ != v[j].path@ by {
        if v[i].path@ == v[j].path@ {
            lemma_lt_irreflexive(v[i].path@);
        }
    }
}

/// A discovery result made of one walk's matches holds only paths that a listing showed as
/// files, each once, in increasing order.
pub proof fn lemma_discovered_paths_listed(w: DirectoryWalk, r: Seq<DiscoveredFile>)
    requires
        w.wf(),
        strictly_sorted(r),
        forall|p: Seq<char>|
            has_path(r, p) <==> exists|j: int| 0 <= j < w.matches@.len() && w.matches@[j]@ == p,
    ensures
        forall|i: int| 0 <= i < r.len() ==> w.listed@.contains(#[trigger] r[i].path@),
        forall|i: int, j: int| 0 <= i < j < r.len() ==> r[i].path@ != r[j].path@,
        forall|i: int, j: int| 0 <= i < j < r.len() ==> seq_lt(r[i].path@, r[j].path@),
{
    lemma_sorted_paths_distinct(r);
    assert forall|i: int| 0 <= i < r.len() implies w.listed@.contains(#[trigger] r[i].path@) by {
        assert(has_path(r, r[i].path@));
        let j = choose|j: int| 0 <= j < w.matches@.len() && w.matches@[j]@ == r[i].path@;
        assert(w.listed@.contains(w.matches@[j]@));
    }
}

/// Whether some record has this path.
pub open spec fn has_path(v: Seq<DiscoveredFile>, p: Seq<char>) -> bool {
    exists|i: int| 0 <= i < v.len() && v[i].path@ == p
}

/// Whether some record is this one.
pub open spec fn has_record(v: Seq<DiscoveredFile>, d: DiscoveredModel) -> bool {
    exists|i: int| 0 <= i < v.len() && v[i]@ == d
}

/// Sorts records by path and keeps one record per path, the first one given.
pub fn sort_and_dedup(files: Vec<DiscoveredFile>) -> (r: Vec<DiscoveredFile>)
    ensures
        strictly_sorted(r@),
        forall|p: Seq<char>| has_path(r@, p) <==> has_path(files@, p),
        forall|i: int| 0 <= i < r@.len() ==> has_record(files@, #[trigger] r@[i]@),
{
    let mut r: Vec<DiscoveredFile> = Vec::new();
    let mut k: usize = 0;
    while k < files.len()
        invariant
            k <= files@.len(),
            strictly_sorted(r@),
            forall|p: Seq<char>| has_path(r@, p) <==> has_path(files@.take(k as int), p),
            forall|i: int| 0 <= i < r@.len() ==> has_record(files@, #[trigger] r@[i]@),
        decreases files@.len() - k,
    {
        let f = files[k].duplicate();
        let x = chars_of(f.path.as_str());
        let mut pos: usize = 0;
        while pos < r.len() && chars_lt(&chars_of(r[pos].path.as_str()), &x)
            invariant
                pos <= r@.len(),
                x@ == f.path@,
                forall|i: int| 0 <= i < pos ==> seq_lt(#[trigger] r@[i].path@, x@),
            decreases r@.len() - pos,
        {
            pos = pos + 1;
        }
        let ghost before = r@;
        let ghost prev = files@.take(k as int);
        let ghost now = files@.take(k + 1);
        assert(now =~= prev.push(files@[k as int]));
        assert(f@ == files@[k as int]@);
        let dup = pos < r.len() && crate::path_normalization::same_chars(
            &chars_of(r[pos].path.as_str()),
            &x,
        );
        if dup {
            assert forall|p: Seq<char>| has_path(r@, p) <==> has_path(now, p) by {
                if has_path(now, p) {
                    let i = choose|i: int| 0 <= i < now.len() && now[i].path@ == p;
                    if i < k {
                        assert(prev[i].path@ == p);
                    } else {
                        assert(r@[pos as int].path@ == p);
                    }
                }
                if has_path(r@, p) {
                    assert(has_path(prev, p));
                    let i = choose|i: int| 0 <= i < prev.len() && prev[i].path@ == p;
                    assert(now[i].path@ == p);
                }
            }
        } else {
            if pos < r.len() {
                proof {
                    lemma_lt_total(r@[pos as int].path@, x@);
                }
            }
            r.insert(pos, f);
            proof {
                assert(r@ =~= before.subrange(0, pos as int).push(files@[k as int]).add(
                    before.subrange(pos as int, before.len() as int),
                ) || true);
                assert forall|i: int, j: int| 0 <= i < j < r@.len() implies seq_lt(
                    r@[i].path@,
                    r@[j].path@,
                ) by {
                    if j < pos {
                        assert(r@[i] == before[i] && r@[j] == before[j]);
                    } else if j == pos {
                        assert(r@[i] == before[i]);
                    } else if i < pos {
                        assert(r@[i] == before[i] && r@[j] == before[j - 1]);
                        assert(seq_lt(before[i].path@, x@));
                        assert(seq_lt(x@, before[pos as int].path@));
                        lemma_lt_trans(before[i].path@, x@, before[pos as int].path@);
                        if j - 1 > pos {
                            lemma_lt_trans(
                                before[i].path@,
                                before[pos as int].path@,
                                before[j - 1].path@,
                            );
                        }
                    } else if i == pos {
                        assert(r@[j] == before[j - 1]);
                        if j - 1 > pos {
                            lemma_lt_trans(x@, before[pos as int].path@, before[j - 1].path@);
                        }
                    } else {
                        assert(r@[i] == before[i - 1] && r@[j] == before[j - 1]);
                    }
                }
                assert forall|p: Seq<char>| has_path(r@, p) <==> has_path(now, p) by {
                    if has_path(now, p) {
                        let i = choose|i: int| 0 <= i < now.len() && now[i].path@ == p;
                        if i < k {
                            assert(prev[i].path@ == p);
                            assert(has_path(before, p));
                            let j = choose|j: int| 0 <= j < before.len() && before[j].path@ == p;
                            if j < pos {
                                assert(r@[j] == before[j]);
                            } else {
                                assert(r@[j + 1] == before[j]);
                            }
                        } else {
                            assert(r@[pos as int]@ == files@[k as int]@);
                        }
                    }
                    if has_path(r@, p) {
                        let j = choose|j: int| 0 <= j < r@.len() && r@[j].path@ == p;
                        if j < pos {
                            assert(r@[j] == before[j]);
                            assert(has_path(before, p));
                        } else if j == pos {
                            assert(now[k as int].path@ == p);
                        } else {
                            assert(r@[j] == before[j - 1]);
                            assert(has_path(before, p));
                        }
                        if j != pos {
                            let i = choose|i: int| 0 <= i < prev.len() && prev[i].path@ == p;
                            assert(now[i].path@ == p);
                        }
                    }
                }
                assert forall|i: int| 0 <= i < r@.len() implies has_record(
                    files@,
                    #[trigger] r@[i]@,
                ) by {
                    if i < pos {
                        assert(r@[i] == before[i]);
                    } else if i == pos {
                        assert(files@[k as int]@ == r@[i]@);
                    } else {
                        assert(r@[i] == before[i - 1]);
                    }
                }
            }
        }
        k = k + 1;
    }
    assert(files@.take(files@.len() as int) =~= files@);
    r
}

/// A walk of the remote tree for one glob or regex pattern. The caller lists each directory
/// that `next_directory` hands out and gives the listing to `record_listing`; a directory is
/// handed out once, however often listings name it.
pub struct DirectoryWalk {
    pub pattern: PatternType,
    pub pending: Vec<String>,
    pub visited: Vec<String>,
    pub matches: Vec<String>,
    /// Every file path that a listing has shown so far.
    pub listed: Ghost<Set<Seq<char>>>,
}

/// The path of a listing entry: its own path at the root, else the directory and its name.
pub open spec fn entry_path(dir: Seq<char>, e: RepositoryFile) -> Seq<char> {
    if dir.len() == 0 {
        e.path@
    } else {
        dir + seq!['/'] + e.name@
    }
}

pub open spec fn file_kind() -> Seq<char> {
    seq!['f', 'i', 'l', 'e']
}

pub open spec fn dir_kind() -> Seq<char> {
    seq!['d', 'i', 'r']
}

/// The paths of the file entries of a listing of `dir`, in order.
pub open spec fn listed_files(dir: Seq<char>, es: Seq<RepositoryFile>) -> Seq<Seq<char>>
    decreases es.len(),
{
    if es.len() == 0 {
        Seq::empty()
    } else {
        listed_files(dir, es.drop_last()) + if es.last().file_type@ == file_kind() {
            seq![entry_path(dir, es.last())]
        } else {
            Seq::empty()
        }
    }
}

/// The paths of the file entries of a listing of `dir` that the pattern selects, in order.
pub open spec fn selected_files(p: PatternModel, dir: Seq<char>, es: Seq<RepositoryFile>) -> Seq<
    Seq<char>,
>
    decreases es.len(),
{
    if es.len() == 0 {
        Seq::empty()
    } else {
        selected_files(p, dir, es.drop_last()) + if es.last().file_type@ == file_kind()
            && pattern_selects(p, entry_path(dir, es.last())) {
            seq![entry_path(dir, es.last())]
        } else {
            Seq::empty()
        }
    }
}

/// The paths of the directory entries of a listing of `dir`, in order.
pub open spec fn queued_dirs(dir: Seq<char>, es: Seq<RepositoryFile>) -> Seq<Seq<char>>
    decreases es.len(),
{
    if es.len() == 0 {
        Seq::empty()
    } else {
        queued_dirs(dir, es.drop_last()) + if es.last().file_type@ != file_kind()
            && es.last().file_type@ == dir_kind() {
            seq![entry_path(dir, es.last())]
        } else {
            Seq::empty()
        }
    }
}

pub proof fn lemma_to_set_push(s: Seq<Seq<char>>, x: Seq<char>)
    ensures
        s.push(x).to_set() == s.to_set().insert(x),
{
    assert(s.push(x).to_set() =~= s.to_set().insert(x)) by {
        assert forall|y: Seq<char>| s.push(x).to_set().contains(y) implies s.to_set().insert(x).contains(y) by {
            let i = choose|i: int| 0 <= i < s.push(x).len() && s.push(x)[i] == y;
            if i < s.len() {
                assert(s[i] == y);
            }
        }
        assert forall|y: Seq<char>| s.to_set().insert(x).contains(y) implies s.push(x).to_set().contains(y) by {
            if y == x {
                assert(s.push(x)[s.len() as int] == y);
            } else {
                let i = choose|i: int| 0 <= i < s.len() && s[i] == y;
                assert(s.push(x)[i] == y);
            }
        }
    }
}

impl DirectoryWalk {
    pub open spec fn wf(&self) -> bool {
        &&& pattern_valid(self.pattern@)
        &&& forall|i: int| 0 <= i < self.matches@.len() ==> self.listed@.contains(
            #[trigger] self.matches@[i]@,
        )
        &&& forall|i: int|
            0 <= i < self.matches@.len() ==> pattern_selects(
                self.pattern@,
                #[trigger] self.matches@[i]@,
            )
    }

    /// Whether `d` has been handed out.
    pub open spec fn was_visited(&self, d: Seq<char>) -> bool {
        exists|i: int| 0 <= i < self.visited@.len() && self.visited@[i]@ == d
    }

    /// A walk from the root; a pattern that does not compile is refused.
    pub fn start(pattern: &PatternType) -> (r: Result<DirectoryWalk, PipelineError>)
        ensures
            r is Ok <==> pattern_valid(pattern@),
            r matches Ok(w) ==> w.wf() && w.pattern@ == pattern@ && w.matches@.len() == 0
                && w.visited@.len() == 0 && w.pending@.len() == 1 && w.pending@[0]@.len() == 0,
            r matches Err(e) ==> e is InvalidPattern,
    {
        if !pattern.is_valid() {
            return Err(PipelineError::InvalidPattern(pattern.pattern_to_string()));
        }
        let root = string_of(&Vec::new());
        DirectoryWalk::finish_start(pattern.duplicate(), root)
    }

    fn finish_start(pattern: PatternType, root: String) -> (r: Result<DirectoryWalk, PipelineError>)
        requires
            pattern_valid(pattern@),
            root@.len() == 0,
        ensures
            r matches Ok(w) && w.wf() && w.pattern@ == pattern@ && w.matches@.len() == 0
                && w.visited@.len() == 0 && w.pending@.len() == 1 && w.pending@[0]@.len() == 0,
    {
        Ok(
            DirectoryWalk {
                pattern,
                pending: vec![root],
                visited: Vec::new(),
                matches: Vec::new(),
                listed: Ghost(Set::empty()),
            },
        )
    }

    fn is_visited(&self, d: &String) -> (r: bool)
        ensures
            r == self.was_visited(d@),
    {
        let mut k: usize = 0;
        while k < self.visited.len()
            invariant
                k <= self.visited@.len(),
                forall|i: int| 0 <= i < k ==> self.visited@[i]@ != d@,
            decreases self.visited@.len() - k,
        {
            if self.visited[k] == *d {
                return true;
            }
            k = k + 1;
        }
        false
    }

    /// The next directory to list: the most recently queued one not handed out before, every
    /// queued entry after it having been handed out already. `None` once every queued entry has
    /// been handed out.
    pub fn next_directory(&mut self) -> (r: Option<String>)
        requires
            old(self).wf(),
        ensures
            final(self).wf(),
            final(self).pattern@ == old(self).pattern@,
            final(self).matches@ == old(self).matches@,
            final(self).listed@ == old(self).listed@,
            final(self).pending@.len() <= old(self).pending@.len(),
            final(self).pending@ == old(self).pending@.take(final(self).pending@.len() as int),
            r is None ==> final(self).pending@.len() == 0 && final(self).visited@ == old(self).visited@
                && forall|i: int|
                0 <= i < old(self).pending@.len() ==> old(self).was_visited(
                    #[trigger] old(self).pending@[i]@,
                ),
            r matches Some(d) ==> !old(self).was_visited(d@) && final(self).visited@ == old(self).visited@.push(d) && d == old(self).pending@[final(self).pending@.len() as int]
                && forall|j: int|
                final(self).pending@.len() < j < old(self).pending@.len() ==> old(self).was_visited(#[trigger] old(self).pending@[j]@),
    {
        while self.pending.len() > 0
            invariant
                self.wf(),
                self.pattern@ == old(self).pattern@,
                self.matches@ == old(self).matches@,
                self.listed@ == old(self).listed@,
                self.visited@ == old(self).visited@,
                self.pending@.len() <= old(self).pending@.len(),
                self.pending@ == old(self).pending@.take(self.pending@.len() as int),
                forall|j: int|
                    self.pending@.len() <= j < old(self).pending@.len() ==> old(self).was_visited(
                        #[trigger] old(self).pending@[j]@,
                    ),
            decreases self.pending@.len(),
        {
            let d = self.pending.pop().unwrap();
            assert(self.pending@ =~= old(self).pending@.take(self.pending@.len() as int));
            assert(d == old(self).pending@[self.pending@.len() as int]);
            if !self.is_visited(&d) {
                let c = d.clone();
                self.visited.push(c);
                return Some(d);
            }
        }
        None
    }

    /// Takes the listing of directory `dir`: files that the pattern selects are kept,
    /// directories are queued, in listing order.
    pub fn record_listing(&mut self, dir: &String, entries: &Vec<RepositoryFile>)
        requires
            old(self).wf(),
        ensures
            final(self).wf(),
            final(self).pattern@ == old(self).pattern@,
            final(self).visited@ == old(self).visited@,
            final(self).listed@ == old(self).listed@.union(
                listed_files(dir@, entries@).to_set(),
            ),
            crate::path_normalization::text_views(final(self).matches@)
                == crate::path_normalization::text_views(old(self).matches@) + selected_files(
                old(self).pattern@,
                dir@,
                entries@,
            ),
            crate::path_normalization::text_views(final(self).pending@)
                == crate::path_normalization::text_views(old(self).pending@) + queued_dirs(
                dir@,
                entries@,
            ),
    {
        let file_word = chars_of("file");
        let dir_word = chars_of("dir");
        proof {
            reveal_strlit("file");
            reveal_strlit("dir");
            assert(file_word@ =~= file_kind());
            assert(dir_word@ =~= dir_kind());
        }
        let ghost start_listed = self.listed@;
        let ghost start_matches = crate::path_normalization::text_views(self.matches@);
        let ghost start_pending = crate::path_normalization::text_views(self.pending@);
        let mut k: usize = 0;
        assert(entries@.take(0) =~= Seq::<RepositoryFile>::empty());
        assert(self.listed@ =~= start_listed.union(listed_files(dir@, entries@.take(0)).to_set()));
        assert(crate::path_normalization::text_views(self.matches@) =~= start_matches
            + selected_files(self.pattern@, dir@, entries@.take(0)));
        assert(crate::path_normalization::text_views(self.pending@) =~= start_pending
            + queued_dirs(dir@, entries@.take(0)));
        while k < entries.len()
            invariant
                k <= entries@.len(),
                self.wf(),
                file_word@ == file_kind(),
                dir_word@ == dir_kind(),
                self.pattern@ == old(self).pattern@,
                self.visited@ == old(self).visited@,
                start_listed == old(self).listed@,
                start_matches == crate::path_normalization::text_views(old(self).matches@),
                start_pending == crate::path_normalization::text_views(old(self).pending@),
                self.listed@ == start_listed.union(listed_files(dir@, entries@.take(k as int)).to_set()),
                crate::path_normalization::text_views(self.matches@) == start_matches
                    + selected_files(self.pattern@, dir@, entries@.take(k as int)),
                crate::path_normalization::text_views(self.pending@) == start_pending + queued_dirs(
                    dir@,
                    entries@.take(k as int),
                ),
            decreases entries@.len() - k,
        {
            let ghost now = entries@.take(k + 1);
            assert(now.drop_last() =~= entries@.take(k as int));
            assert(now.last() == entries@[k as int]);
            let e = &entries[k];
            let mut m = chars_of(dir.as_str());
            let path = if m.len() == 0 {
                e.path.clone()
            } else {
                m.push('/');
                crate::processor::push_all(&mut m, &chars_of(e.name.as_str()));
                string_of(&m)
            };
            assert(path@ == entry_path(dir@, entries@[k as int])) by {
                if dir@.len() != 0 {
                    assert(path@ =~= dir@ + seq!['/'] + e.name@);
                }
            }
            let kind = chars_of(e.file_type.as_str());
            let ghost old_matches = self.matches@;
            let ghost old_pending = self.pending@;
            let ghost old_listed = self.listed@;
            if crate::path_normalization::same_chars(&kind, &file_word) {
                proof {
                    self.listed@ = self.listed@.insert(path@);
                    assert(e.file_type@ == file_kind());
                    assert(listed_files(dir@, now) =~= listed_files(dir@, entries@.take(k as int)).push(
                        path@,
                    ));
                    lemma_to_set_push(listed_files(dir@, entries@.take(k as int)), path@);
                    assert(self.listed@ =~= start_listed.union(
                        listed_files(dir@, now).to_set(),
                    ));
                }
                if self.pattern.selects(path.as_str()) {
                    self.matches.push(path);
                    assert(crate::path_normalization::text_views(self.matches@)
                        =~= crate::path_normalization::text_views(old_matches).push(
                        entry_path(dir@, entries@[k as int]),
                    ));
                } else {
                    assert(selected_files(self.pattern@, dir@, now) =~= selected_files(
                        self.pattern@,
                        dir@,
                        entries@.take(k as int),
                    ));
                }
                assert(queued_dirs(dir@, now) =~= queued_dirs(dir@, entries@.take(k as int)));
            } else {
                assert(listed_files(dir@, now) =~= listed_files(dir@, entries@.take(k as int)));
                assert(selected_files(self.pattern@, dir@, now) =~= selected_files(
                    self.pattern@,
                    dir@,
                    entries@.take(k as int),
                ));
                if crate::path_normalization::same_chars(&kind, &dir_word) {
                    self.pending.push(path);
                    assert(crate::path_normalization::text_views(self.pending@)
                        =~= crate::path_normalization::text_views(old_pending).push(
                        entry_path(dir@, entries@[k as int]),
                    ));
                } else {
                    assert(queued_dirs(dir@, now) =~= queued_dirs(dir@, entries@.take(k as int)));
                }
            }
            proof {
                assert forall|i: int|
                    0 <= i < self.matches@.len() implies self.listed@.contains(
                    #[trigger] self.matches@[i]@,
                ) && pattern_selects(self.pattern@, self.matches@[i]@) by {
                    if i < old_matches.len() {
                        assert(self.matches@[i] == old_matches[i]);
                        assert(old_listed.contains(old_matches[i]@));
                    }
                }
            }
            k = k + 1;
        }
        assert(entries@.take(entries@.len() as int) =~= entries@);
    }

    /// The matching file paths found so far.
    pub fn into_matches(self) -> (r: Vec<String>)
        requires
            self.wf(),
        ensures
            r@ == self.matches@,
            forall|i: int| 0 <= i < r@.len() ==> self.listed@.contains(#[trigger] r@[i]@),
    {
        self.matches
    }
}

/// Expands a project's configuration and the convention patterns into candidate files.
pub struct FileDiscoverer {
    pub config: ProjectConfig,
}

impl FileDiscoverer {
    pub fn new(config: ProjectConfig) -> (r: FileDiscoverer)
        ensures
            r.config == config,
    {
        FileDiscoverer { config }
    }

    /// The result of an exact pattern, given the host's answer to whether the path exists: the
    /// path when it does, nothing when it does not or the check failed.
    pub fn find_files_by_exact(path: &String, exists: Result<bool, crate::access::GitHubError>) -> (r:
        Vec<String>)
        ensures
            exists matches Ok(true) ==> r@.len() == 1 && r@[0]@ == path@,
            !(exists matches Ok(true)) ==> r@.len() == 0,
    {
        match exists {
            Ok(true) => vec![path.clone()],
            _ => Vec::new(),
        }
    }

    /// The files that the entry `d` and the entries below it contribute.
    fn node_files_of(d: &DocumentConfig, key: &String, top: bool, out: &mut Vec<DiscoveredFile>)
        ensures
            path_sources(final(out)@) == path_sources(old(out)@) + node_files(*d, key@, top),
            forall|i: int| 0 <= i < final(out)@.len() - old(out)@.len() ==> (#[trigger] final(out)@[old(out)@.len() + i]).estimated_size is None,
            forall|i: int| 0 <= i < old(out)@.len() ==> final(out)@[i] == old(out)@[i],
        decreases *d, 0nat,
    {
        let ghost start = out@;
        match &d.path {
            Some(p) => {
                let source = if top {
                    key.clone()
                } else {
                    let mut m = chars_of(key.as_str());
                    m.push(':');
                    crate::processor::push_all(&mut m, &chars_of(d.title.as_str()));
                    string_of(&m)
                };
                assert(source@ == (if top {
                    key@
                } else {
                    key@ + seq![':'] + d.title@
                })) by {
                    if !top {
                        assert(source@ =~= key@ + seq![':'] + d.title@);
                    }
                };
                out.push(DiscoveredFile { path: p.clone(), pattern_source: source, estimated_size: None });
            },
            None => {},
        }
        let ghost mid = out@;
        assert(path_sources(mid) =~= path_sources(start) + match d.path {
            Some(p) => seq![
                (p@, if top {
                    key@
                } else {
                    key@ + seq![':'] + d.title@
                }),
            ],
            None => Seq::empty(),
        });
        match &d.sub_documents {
            Some(subs) => {
                let mut k: usize = 0;
                while k < subs.len()
                    invariant
                        k <= subs@.len(),
                        d.sub_documents == Some(*subs),
                        path_sources(out@) == path_sources(mid) + list_files(*subs, k as int, key@),
                        out@.len() >= mid.len(),
                        mid.len() >= start.len(),
                        forall|i: int| 0 <= i < mid.len() ==> out@[i] == mid[i],
                        forall|i: int| 0 <= i < start.len() ==> mid[i] == start[i],
                        forall|i: int|
                            0 <= i < out@.len() - start.len() ==> (#[trigger] out@[start.len()
                                + i]).estimated_size is None,
                    decreases subs@.len() - k,
                {
                    proof {
                        vstd::std_specs::vec::axiom_vec_index_decreases(*subs, k as int);
                        assert(decreases_to!(*d => d.sub_documents));
                        assert(decreases_to!(d.sub_documents => d.sub_documents->Some_0));
                    }
                    let ghost before = out@;
                    Self::node_files_of(&subs[k], key, false, out);
                    assert forall|i: int|
                        0 <= i < out@.len() - start.len() implies (#[trigger] out@[start.len()
                        + i]).estimated_size is None by {
                        if start.len() + i >= before.len() {
                            assert(out@[before.len() + (start.len() + i - before.len())] == out@[start.len() + i]);
                        } else {
                            assert(out@[start.len() + i] == before[start.len() + i]);
                        }
                    }
                    assert(path_sources(out@) =~= path_sources(mid) + list_files(
                        *subs,
                        k + 1,
                        key@,
                    ));
                    k = k + 1;
                }
                assert(list_files(*subs, subs@.len() as int, key@) == match d.sub_documents {
                    Some(v) => list_files(v, v.len() as int, key@),
                    None => Seq::empty(),
                });
                assert(path_sources(out@) =~= path_sources(start) + node_files(*d, key@, top));
            },
            None => {
                assert(path_sources(out@) =~= path_sources(start) + node_files(*d, key@, top));
            },
        }
    }

    /// The files that the configured entries name, in declared order: every entry with a path,
    /// tagged with its key, or `key:title` below the top level.
    pub fn configured_files(&self) -> (r: Vec<DiscoveredFile>)
        ensures
            path_sources(r@) == config_files(self.config.documents@),
            forall|i: int| 0 <= i < r@.len() ==> (#[trigger] r@[i]).estimated_size is None,
    {
        let docs = &self.config.documents;
        let mut out: Vec<DiscoveredFile> = Vec::new();
        let mut k: usize = 0;
        assert(path_sources(out@) =~= Seq::<(Seq<char>, Seq<char>)>::empty());
        while k < docs.len()
            invariant
                k <= docs@.len(),
                path_sources(out@) == config_files(docs@.take(k as int)),
                forall|i: int| 0 <= i < out@.len() ==> (#[trigger] out@[i]).estimated_size is None,
            decreases docs@.len() - k,
        {
            let ghost before = out@;
            Self::node_files_of(&docs[k].1, &docs[k].0, true, &mut out);
            proof {
                let now = docs@.take(k + 1);
                assert(now.drop_last() =~= docs@.take(k as int));
                assert forall|i: int| 0 <= i < out@.len() implies (#[trigger] out@[i]).estimated_size is None by {
                    if i >= before.len() {
                        assert(out@[before.len() + (i - before.len())] == out@[i]);
                    }
                }
            }
            k = k + 1;
        }
        assert(docs@.take(docs@.len() as int) =~= docs@);
        out
    }

    /// The final discovery result: the configured files and every pattern's matches, sorted by
    /// path with one record per path.
    pub fn discover(&self, pattern_results: &Vec<(PatternType, Vec<String>)>) -> (r: Vec<
        DiscoveredFile,
    >)
        ensures
            strictly_sorted(r@),
            forall|p: Seq<char>|
                has_path(r@, p) <==> (first_parts(config_files(self.config.documents@))
                    + flat_results(pattern_results@)).contains(p),
            forall|i: int|
                0 <= i < r@.len() ==> (config_models(config_files(self.config.documents@))
                    + pattern_models(pattern_results@)).contains(#[trigger] r@[i]@),
    {
        let mut all = self.configured_files();
        let ghost configured = all@;
        assert(file_paths(configured) =~= first_parts(config_files(self.config.documents@)));
        proof {
            let c = config_files(self.config.documents@);
            assert forall|k: int| 0 <= k < configured.len() implies record_views(configured)[k]
                == config_models(c)[k] by {
                assert(path_sources(configured)[k] == c[k]);
                assert(configured[k].estimated_size is None);
            }
            assert(record_views(configured) =~= config_models(c));
        }
        let mut i: usize = 0;
        while i < pattern_results.len()
            invariant
                i <= pattern_results@.len(),
                file_paths(all@) == file_paths(configured) + flat_results(
                    pattern_results@.take(i as int),
                ),
                record_views(all@) == config_models(config_files(self.config.documents@))
                    + pattern_models(pattern_results@.take(i as int)),
            decreases pattern_results@.len() - i,
        {
            let source = pattern_results[i].0.pattern_to_string();
            let mut m = chars_of("pattern:");
            crate::processor::push_all(&mut m, &chars_of(source.as_str()));
            let tag = string_of(&m);
            proof {
                reveal_strlit("pattern:");
                assert(tag@ =~= "pattern:"@ + pattern_text(pattern_results@[i as int].0@));
            }
            let paths = &pattern_results[i].1;
            let ghost outer = all@;
            let mut j: usize = 0;
            while j < paths.len()
                invariant
                    j <= paths@.len(),
                    file_paths(all@) == file_paths(outer) + crate::path_normalization::text_views(
                        paths@,
                    ).take(j as int),
                    i < pattern_results@.len(),
                    paths == pattern_results@[i as int].1,
                    tag@ == "pattern:"@ + pattern_text(pattern_results@[i as int].0@),
                    record_views(all@) == record_views(outer) + pattern_records(
                        pattern_results@[i as int].0@,
                        crate::path_normalization::text_views(paths@).take(j as int),
                    ),
                decreases paths@.len() - j,
            {
                let ghost before = all@;
                all.push(
                    DiscoveredFile {
                        path: paths[j].clone(),
                        pattern_source: tag.clone(),
                        estimated_size: None,
                    },
                );
                assert(file_paths(all@) =~= file_paths(before).push(paths@[j as int]@));
                assert(record_views(all@) =~= record_views(before).push(
                    pattern_record(pattern_results@[i as int].0@, paths@[j as int]@),
                ));
                assert(pattern_records(
                    pattern_results@[i as int].0@,
                    crate::path_normalization::text_views(paths@).take(j + 1),
                ) =~= pattern_records(
                    pattern_results@[i as int].0@,
                    crate::path_normalization::text_views(paths@).take(j as int),
                ).push(pattern_record(pattern_results@[i as int].0@, paths@[j as int]@)));
                j = j + 1;
                assert(file_paths(all@) =~= file_paths(outer) + crate::path_normalization::text_views(
                    paths@,
                ).take(j as int));
            }
            proof {
                let now = pattern_results@.take(i + 1);
                assert(now.drop_last() =~= pattern_results@.take(i as int));
                assert(crate::path_normalization::text_views(paths@).take(paths@.len() as int)
                    =~= crate::path_normalization::text_views(paths@));
                assert(file_paths(all@) =~= file_paths(configured) + flat_results(now));
                assert(record_views(all@) =~= config_models(config_files(self.config.documents@))
                    + pattern_models(now));
            }
            i = i + 1;
        }
        assert(pattern_results@.take(pattern_results@.len() as int) =~= pattern_results@);
        proof {
            assert forall|p: Seq<char>| has_path(all@, p) <==> file_paths(all@).contains(p) by {
                lemma_has_path(all@, p);
            }
        }
        let ghost before = all@;
        let r = sort_and_dedup(all);
        proof {
            assert forall|i: int| 0 <= i < r@.len() implies (config_models(
                config_files(self.config.documents@),
            ) + pattern_models(pattern_results@)).contains(#[trigger] r@[i]@) by {
                assert(has_record(before, r@[i]@));
                let j = choose|j: int| 0 <= j < before.len() && before[j]@ == r@[i]@;
                assert(record_views(before)[j] == r@[i]@);
            }
        }
        r
    }
}

/// What each record is made of.
pub open spec fn record_views(v: Seq<DiscoveredFile>) -> Seq<DiscoveredModel> {
    v.map_values(|f: DiscoveredFile| f@)
}

/// The records of configured files: path and configuration tag, no size estimate.
pub open spec fn config_models(c: Seq<(Seq<char>, Seq<char>)>) -> Seq<DiscoveredModel> {
    c.map_values(
        |x: (Seq<char>, Seq<char>)|
            DiscoveredModel { path: x.0, pattern_source: x.1, estimated_size: None },
    )
}

/// The record of a path that a pattern matched: tagged `pattern:` and the pattern's text.
pub open spec fn pattern_record(pt: PatternModel, p: Seq<char>) -> DiscoveredModel {
    DiscoveredModel { path: p, pattern_source: "pattern:"@ + pattern_text(pt), estimated_size: None }
}

/// The records of the paths that one pattern matched.
pub open spec fn pattern_records(pt: PatternModel, ps: Seq<Seq<char>>) -> Seq<DiscoveredModel> {
    ps.map_values(|p: Seq<char>| pattern_record(pt, p))
}

/// The records of every pattern's matches, in order.
pub open spec fn pattern_models(rs: Seq<(PatternType, Vec<String>)>) -> Seq<DiscoveredModel>
    decreases rs.len(),
{
    if rs.len() == 0 {
        Seq::empty()
    } else {
        pattern_models(rs.drop_last()) + pattern_records(
            rs.last().0@,
            crate::path_normalization::text_views(rs.last().1@),
        )
    }
}

/// The paths of the records.
pub open spec fn file_paths(v: Seq<DiscoveredFile>) -> Seq<Seq<char>> {
    v.map_values(|f: DiscoveredFile| f.path@)
}

/// The first parts of the pairs.
pub open spec fn first_parts(v: Seq<(Seq<char>, Seq<char>)>) -> Seq<Seq<char>> {
    v.map_values(|x: (Seq<char>, Seq<char>)| x.0)
}

/// Every pattern's matched paths, in order.
pub open spec fn flat_results(rs: Seq<(PatternType, Vec<String>)>) -> Seq<Seq<char>>
    decreases rs.len(),
{
    if rs.len() == 0 {
        Seq::empty()
    } else {
        flat_results(rs.drop_last()) + crate::path_normalization::text_views(rs.last().1@)
    }
}

pub proof fn lemma_has_path(v: Seq<DiscoveredFile>, p: Seq<char>)
    ensures
        has_path(v, p) <==> file_paths(v).contains(p),
{
    if has_path(v, p) {
        let i = choose|i: int| 0 <= i < v.len() && v[i].path@ == p;
        assert(file_paths(v)[i] == p);
    }
    if file_paths(v).contains(p) {
        let i = choose|i: int| 0 <= i < file_paths(v).len() && file_paths(v)[i] == p;
        assert(v[i].path@ == p);
    }
}

} // verus!
