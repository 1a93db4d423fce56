use vstd::prelude::*;

use crate::processor::{lower_of, to_lowercase};
use crate::text::{chars_of, slice_chars, string_of, trim, trim_chars, utf8_len, utf8_len_capped};

verus! {

/// Why a path was refused.
pub enum PathNormalizationError {
    InvalidExtensionError { extension: String, allowed: Vec<String> },
    PathTraversalError { path: String },
    EmptyOrInvalidPathError,
    InvalidCharacterError { path: String },
    PathTooLongError { length: usize, max: usize },
}

/// What normalizing a path comes to.
pub enum NormalizedModel {
    Normalized(Seq<char>),
    Empty,
    TooLong(int),
    InvalidCharacter(Seq<char>),
    Traversal(Seq<char>),
    InvalidExtension(Seq<char>),
}

/// The outcome that a result of `normalize_path` stands for.
pub open spec fn outcome(r: Result<String, PathNormalizationError>) -> NormalizedModel {
    match r {
        Ok(s) => NormalizedModel::Normalized(s@),
        Err(e) => error_outcome(e),
    }
}

/// The outcome that a refusal stands for.
pub open spec fn error_outcome(e: PathNormalizationError) -> NormalizedModel {
    match e {
        PathNormalizationError::EmptyOrInvalidPathError => NormalizedModel::Empty,
        PathNormalizationError::PathTooLongError { length, max: _ } => NormalizedModel::TooLong(
            length as int,
        ),
        PathNormalizationError::InvalidCharacterError { path } => NormalizedModel::InvalidCharacter(
            path@,
        ),
        PathNormalizationError::PathTraversalError { path } => NormalizedModel::Traversal(path@),
        PathNormalizationError::InvalidExtensionError {
            extension,
            allowed: _,
        } => NormalizedModel::InvalidExtension(extension@),
    }
}

/// A path separator: `'/'`, or `'\\'` read as one.
pub open spec fn is_sep(c: char) -> bool {
    c == '/' || c == '\\'
}

/// The finished segments and the segment in progress after reading `s`.
pub open spec fn split_state(s: Seq<char>) -> (Seq<Seq<char>>, Seq<char>)
    decreases s.len(),
{
    if s.len() == 0 {
        (Seq::empty(), Seq::empty())
    } else {
        let (segs, cur) = split_state(s.drop_last());
        let c = s.last();
        if is_sep(c) {
            if cur.len() > 0 {
                (segs.push(cur), Seq::empty())
            } else {
                (segs, Seq::empty())
            }
        } else {
            (segs, cur.push(c))
        }
    }
}

/// The non-empty parts of `s` between separators.
pub open spec fn segments(s: Seq<char>) -> Seq<Seq<char>> {
    let (segs, cur) = split_state(s);
    if cur.len() > 0 {
        segs.push(cur)
    } else {
        segs
    }
}

/// Parts joined with `'/'` between them.
pub open spec fn join_slash(ls: Seq<Seq<char>>) -> Seq<char>
    decreases ls.len(),
{
    if ls.len() == 0 {
        Seq::empty()
    } else if ls.len() == 1 {
        ls[0]
    } else {
        join_slash(ls.drop_last()) + seq!['/'] + ls.last()
    }
}

/// `"."` and `".."` as path segments.
pub open spec fn dot() -> Seq<char> {
    seq!['.']
}

pub open spec fn dot_dot() -> Seq<char> {
    seq!['.', '.']
}

/// The segments left after dropping `"."` and letting each `".."` cancel the segment before
/// it; `None` where a `".."` would climb above the start.
pub open spec fn resolve(segs: Seq<Seq<char>>) -> Option<Seq<Seq<char>>>
    decreases segs.len(),
{
    if segs.len() == 0 {
        Some(Seq::empty())
    } else {
        match resolve(segs.drop_last()) {
            None => None,
            Some(st) => {
                let s = segs.last();
                if s == dot() {
                    Some(st)
                } else if s == dot_dot() {
                    if st.len() == 0 {
                        None
                    } else {
                        Some(st.drop_last())
                    }
                } else {
                    Some(st.push(s))
                }
            },
        }
    }
}

/// Whether `s` holds a NUL, carriage return or newline.
pub open spec fn has_control(s: Seq<char>) -> bool {
    exists|i: int| 0 <= i < s.len() && (s[i] == '\0' || s[i] == '\r' || s[i] == '\n')
}

/// Index of the last `c` before index `j`.
pub open spec fn last_index_of(s: Seq<char>, c: char, j: int) -> Option<int>
    decreases j,
{
    if j <= 0 || j > s.len() {
        None
    } else if s[j - 1] == c {
        Some(j - 1)
    } else {
        last_index_of(s, c, j - 1)
    }
}

/// The extension of a file name, as `Path::extension` gives it: what follows the last `'.'`,
/// unless there is none or it is the first character.
pub open spec fn extension_of(name: Seq<char>) -> Option<Seq<char>> {
    match last_index_of(name, '.', name.len() as int) {
        Some(d) => if d == 0 {
            None
        } else {
            Some(name.subrange(d + 1, name.len() as int))
        },
        None => None,
    }
}

pub open spec fn none_text() -> Seq<char> {
    seq!['n', 'o', 'n', 'e']
}

/// Whether `e` is one of `allowed`.
pub open spec fn allows(allowed: Seq<Seq<char>>, e: Seq<char>) -> bool {
    exists|i: int| 0 <= i < allowed.len() && allowed[i] == e
}

/// What normalizing `path` comes to under these settings: refused when
/// blank, longer than `max`, holding a control character, climbing above the start, or
/// without an allowed extension; otherwise its segments, `"."` and `".."` resolved, joined
/// with `'/'`.
pub open spec fn normalize_spec(
    allowed: Seq<Seq<char>>,
    max: int,
    path: Seq<char>,
) -> NormalizedModel {
    let bytes = byte_len(path);
    let t = trim(path);
    let segs = segments(t);
    let cleaned = join_slash(segs);
    if t.len() == 0 {
        NormalizedModel::Empty
    } else if bytes > max {
        NormalizedModel::TooLong(bytes)
    } else if has_control(cleaned) {
        NormalizedModel::InvalidCharacter(cleaned)
    } else {
        match resolve(segs) {
            None => NormalizedModel::Traversal(cleaned),
            Some(st) => {
                let ext = if st.len() == 0 {
                    None
                } else {
                    extension_of(st.last())
                };
                match ext {
                    None => NormalizedModel::InvalidExtension(none_text()),
                    Some(e) => if allows(allowed, lower_of(e)) {
                        NormalizedModel::Normalized(join_slash(st))
                    } else {
                        NormalizedModel::InvalidExtension(lower_of(e))
                    },
                }
            },
        }
    }
}

pub proof fn lemma_resolve_none_extends(segs: Seq<Seq<char>>, k: int)
    requires
        0 <= k <= segs.len(),
        resolve(segs.take(k)) is None,
    ensures
        resolve(segs) is None,
    decreases segs.len() - k,
{
    if k == segs.len() {
        assert(segs.take(k) =~= segs);
    } else {
        assert(segs.take(k + 1).drop_last() =~= segs.take(k));
        lemma_resolve_none_extends(segs, k + 1);
    }
}

pub open spec fn text_views(v: Seq<String>) -> Seq<Seq<char>> {
    v.map_values(|s: String| s@)
}

/// Whether no entry appears twice.
pub open spec fn distinct(v: Seq<Seq<char>>) -> bool {
    forall|i: int, j: int| 0 <= i < j < v.len() ==> v[i] != v[j]
}

/// The characters of `s` in lower case.
fn lowercase_chars(s: &Vec<char>) -> (r: Vec<char>)
    ensures
        r@ == lower_of(s@),
{
    let text = string_of(s);
    let lower = to_lowercase(text.as_str());
    chars_of(lower.as_str())
}

/// The length of `path` in UTF-8 bytes, held to `usize::MAX`.
pub open spec fn byte_len(path: Seq<char>) -> int {
    if utf8_len(path) < usize::MAX {
        utf8_len(path)
    } else {
        usize::MAX as int
    }
}

/// Copies of the strings of `v`.
pub fn clone_strings(v: &Vec<String>) -> (r: Vec<String>)
    ensures
        text_views(r@) == text_views(v@),
{
    let mut r: Vec<String> = Vec::new();
    let mut k: usize = 0;
    while k < v.len()
        invariant
            k <= v@.len(),
            text_views(r@) == text_views(v@).take(k as int),
        decreases v@.len() - k,
    {
        let c = v[k].clone();
        let ghost before = r@;
        r.push(c);
        assert(text_views(r@) =~= text_views(before).push(c@));
        k = k + 1;
        assert(text_views(r@) =~= text_views(v@).take(k as int));
    }
    assert(text_views(v@).take(v@.len() as int) =~= text_views(v@));
    r
}

/// Whether two character vectors are equal.
pub fn same_chars(a: &Vec<char>, b: &Vec<char>) -> (r: bool)
    ensures
        r == (a@ == b@),
{
    if a.len() != b.len() {
        return false;
    }
    let mut k: usize = 0;
    while k < a.len()
        invariant
            a@.len() == b@.len(),
            k <= a@.len(),
            forall|m: int| 0 <= m < k ==> a@[m] == b@[m],
        decreases a@.len() - k,
    {
        if a[k] != b[k] {
            return false;
        }
        k = k + 1;
    }
    assert(a@ =~= b@);
    true
}

/// Parts joined with `'/'` between them.
pub fn join_with_slash(ls: &Vec<Vec<char>>) -> (r: Vec<char>)
    ensures
        r@ == join_slash(crate::text::views(ls@)),
{
    let mut acc: Vec<char> = Vec::new();
    let mut k: usize = 0;
    while k < ls.len()
        invariant
            k <= ls@.len(),
            acc@ == join_slash(crate::text::views(ls@).take(k as int)),
        decreases ls@.len() - k,
    {
        let ghost before = crate::text::views(ls@).take(k as int);
        if k > 0 {
            acc.push('/');
        }
        crate::processor::push_all(&mut acc, &ls[k]);
        k = k + 1;
        proof {
            let now = crate::text::views(ls@).take(k as int);
            assert(now.drop_last() =~= before);
            assert(now.last() == ls@[k - 1]@);
            if k == 1 {
                assert(acc@ =~= now[0]);
            } else {
                assert(acc@ =~= join_slash(before) + seq!['/'] + now.last());
            }
        }
    }
    assert(crate::text::views(ls@).take(ls@.len() as int) =~= crate::text::views(ls@));
    acc
}

/// Checks and normalizes repository-relative document paths.
pub struct PathNormalizer {
    pub allowed_extensions: Vec<String>,
    pub max_path_length: usize,
}

impl PathNormalizer {
    /// The allowed extensions, each once.
    pub open spec fn allowed(&self) -> Seq<Seq<char>> {
        text_views(self.allowed_extensions@)
    }

    pub open spec fn wf(&self) -> bool {
        distinct(self.allowed())
    }

    /// The entries of `list`, each once, in order of first appearance.
    fn distinct_of(list: Vec<String>) -> (r: Vec<String>)
        ensures
            distinct(text_views(r@)),
            forall|e: Seq<char>| allows(text_views(r@), e) <==> allows(text_views(list@), e),
    {
        let mut r: Vec<String> = Vec::new();
        let mut k: usize = 0;
        while k < list.len()
            invariant
                k <= list@.len(),
                distinct(text_views(r@)),
                forall|e: Seq<char>|
                    allows(text_views(r@), e) <==> allows(text_views(list@).take(k as int), e),
            decreases list@.len() - k,
        {
            let mut seen = false;
            let mut m: usize = 0;
            while m < r.len()
                invariant
                    k < list@.len(),
                    m <= r@.len(),
                    seen <==> exists|j: int| 0 <= j < m && r@[j]@ == list@[k as int]@,
                decreases r@.len() - m,
            {
                if r[m] == list[k] {
                    seen = true;
                }
                m = m + 1;
            }
            let ghost before = text_views(r@);
            let ghost prev = text_views(list@).take(k as int);
            let ghost now = text_views(list@).take(k + 1);
            assert(now =~= prev.push(list@[k as int]@));
            if !seen {
                r.push(list[k].clone());
                assert(text_views(r@) =~= before.push(list@[k as int]@));
                assert forall|e: Seq<char>| allows(text_views(r@), e) <==> allows(now, e) by {
                    if allows(now, e) {
                        let i = choose|i: int| 0 <= i < now.len() && now[i] == e;
                        if i < k {
                            assert(prev[i] == e);
                            assert(allows(before, e));
                            let j = choose|j: int| 0 <= j < before.len() && before[j] == e;
                            assert(text_views(r@)[j] == e);
                        } else {
                            assert(text_views(r@)[before.len() as int] == e);
                        }
                    }
                    if allows(text_views(r@), e) {
                        let j = choose|j: int| 0 <= j < text_views(r@).len() && text_views(r@)[j] == e;
                        if j < before.len() {
                            assert(before[j] == e);
                            assert(allows(before, e));
                            assert(allows(prev, e));
                            let i = choose|i: int| 0 <= i < prev.len() && prev[i] == e;
                            assert(now[i] == e);
                        } else {
                            assert(now[k as int] == e);
                        }
                    }
                }
            } else {
                assert forall|e: Seq<char>| allows(text_views(r@), e) <==> allows(now, e) by {
                    if allows(now, e) {
                        let i = choose|i: int| 0 <= i < now.len() && now[i] == e;
                        if i < k {
                            assert(prev[i] == e);
                        } else {
                            let j = choose|j: int| 0 <= j < r@.len() && r@[j]@ == list@[k as int]@;
                            assert(text_views(r@)[j] == e);
                        }
                    }
                    if allows(text_views(r@), e) {
                        assert(allows(prev, e));
                        let i = choose|i: int| 0 <= i < prev.len() && prev[i] == e;
                        assert(now[i] == e);
                    }
                }
            }
            k = k + 1;
        }
        assert(text_views(list@).take(list@.len() as int) =~= text_views(list@));
        r
    }

    /// The normalizer that takes `md`, `mdx`, `markdown` and `txt` files of up to 1000 bytes.
    pub fn default() -> (r: PathNormalizer)
        ensures
            r.wf(),
            r.max_path_length == 1000,
            forall|e: Seq<char>|
                allows(r.allowed(), e) <==> (e == seq!['m', 'd'] || e == seq!['m', 'd', 'x'] || e
                    == seq!['m', 'a', 'r', 'k', 'd', 'o', 'w', 'n'] || e == seq!['t', 'x', 't']),
    {
        let exts = vec![
            string_of(&vec!['m', 'd']),
            string_of(&vec!['m', 'd', 'x']),
            string_of(&vec!['m', 'a', 'r', 'k', 'd', 'o', 'w', 'n']),
            string_of(&vec!['t', 'x', 't']),
        ];
        let r = PathNormalizer { allowed_extensions: exts, max_path_length: 1000 };
        proof {
            let v = r.allowed();
            assert(v[0] =~= seq!['m', 'd']);
            assert(v[1] =~= seq!['m', 'd', 'x']);
            assert(v[2] =~= seq!['m', 'a', 'r', 'k', 'd', 'o', 'w', 'n']);
            assert(v[3] =~= seq!['t', 'x', 't']);
            assert forall|e: Seq<char>|
                allows(v, e) <==> (e == seq!['m', 'd'] || e == seq!['m', 'd', 'x'] || e == seq![
                    'm',
                    'a',
                    'r',
                    'k',
                    'd',
                    'o',
                    'w',
                    'n',
                ] || e == seq!['t', 'x', 't']) by {
                if e == seq!['m', 'd'] {
                    assert(v[0] == e);
                }
                if e == seq!['m', 'd', 'x'] {
                    assert(v[1] == e);
                }
                if e == seq!['m', 'a', 'r', 'k', 'd', 'o', 'w', 'n'] {
                    assert(v[2] == e);
                }
                if e == seq!['t', 'x', 't'] {
                    assert(v[3] == e);
                }
            }
            assert(v[0].len() != v[1].len());
            assert(v[0].len() != v[2].len());
            assert(v[1].len() != v[2].len());
            assert(v[2].len() != v[3].len());
            assert(v[0].len() != v[3].len());
            assert(v[1][1] != v[3][1]);
        }
        r
    }

    /// A normalizer that takes the given extensions and paths of up to 1000 bytes.
    pub fn new(allowed_extensions: Vec<String>) -> (r: PathNormalizer)
        ensures
            r.wf(),
            r.max_path_length == 1000,
            forall|e: Seq<char>|
                allows(r.allowed(), e) <==> allows(text_views(allowed_extensions@), e),
    {
        PathNormalizer {
            allowed_extensions: Self::distinct_of(allowed_extensions),
            max_path_length: 1000,
        }
    }

    /// A normalizer that takes the given extensions and paths of up to `max_length` bytes.
    pub fn with_settings(allowed_extensions: Vec<String>, max_length: usize) -> (r: PathNormalizer)
        ensures
            r.wf(),
            r.max_path_length == max_length,
            forall|e: Seq<char>|
                allows(r.allowed(), e) <==> allows(text_views(allowed_extensions@), e),
    {
        PathNormalizer {
            allowed_extensions: Self::distinct_of(allowed_extensions),
            max_path_length: max_length,
        }
    }

    /// The allowed extensions, each once.
    pub fn allowed_extensions(&self) -> (r: Vec<String>)
        ensures
            text_views(r@) == self.allowed(),
    {
        clone_strings(&self.allowed_extensions)
    }

    /// The non-empty segments of `t` between separators, and the path they make when joined
    /// with `'/'`.
    fn clean_path(&self, t: &Vec<char>) -> (r: (Vec<Vec<char>>, Vec<char>))
        ensures
            crate::text::views(r.0@) == segments(t@),
            r.1@ == join_slash(segments(t@)),
    {
        let mut segs: Vec<Vec<char>> = Vec::new();
        let mut cur: Vec<char> = Vec::new();
        let mut k: usize = 0;
        while k < t.len()
            invariant
                k <= t@.len(),
                split_state(t@.take(k as int)) == (crate::text::views(segs@), cur@),
            decreases t@.len() - k,
        {
            proof {
                assert(t@.take(k + 1).drop_last() =~= t@.take(k as int));
            }
            let c = t[k];
            if c == '/' || c == '\\' {
                if cur.len() > 0 {
                    let ghost before = segs@;
                    segs.push(cur);
                    assert(crate::text::views(segs@) =~= crate::text::views(before).push(
                        segs@.last()@,
                    ));
                }
                cur = Vec::new();
                assert(cur@ =~= Seq::<char>::empty());
            } else {
                cur.push(c);
            }
            k = k + 1;
        }
        assert(t@.take(t@.len() as int) =~= t@);
        if cur.len() > 0 {
            let ghost before = segs@;
            segs.push(cur);
            assert(crate::text::views(segs@) =~= crate::text::views(before).push(segs@.last()@));
        }
        let joined = join_with_slash(&segs);
        (segs, joined)
    }

    /// The segments left once `"."` and `".."` are resolved; `None` where a `".."` climbs
    /// above the start.
    fn resolve_path_components(&self, segs: &Vec<Vec<char>>) -> (r: Option<Vec<Vec<char>>>)
        ensures
            r matches Some(st) ==> resolve(crate::text::views(segs@)) == Some(
                crate::text::views(st@),
            ),
            r is None ==> resolve(crate::text::views(segs@)) is None,
    {
        let d = vec!['.'];
        let dd = vec!['.', '.'];
        assert(d@ =~= dot());
        assert(dd@ =~= dot_dot());
        let mut st: Vec<Vec<char>> = Vec::new();
        let mut k: usize = 0;
        while k < segs.len()
            invariant
                k <= segs@.len(),
                d@ == dot(),
                dd@ == dot_dot(),
                resolve(crate::text::views(segs@).take(k as int)) == Some(
                    crate::text::views(st@),
                ),
            decreases segs@.len() - k,
        {
            proof {
                let now = crate::text::views(segs@).take(k + 1);
                assert(now.drop_last() =~= crate::text::views(segs@).take(k as int));
                assert(now.last() == segs@[k as int]@);
            }
            let s = &segs[k];
            if same_chars(s, &d) {
            } else if same_chars(s, &dd) {
                if st.len() == 0 {
                    proof {
                        lemma_resolve_none_extends(crate::text::views(segs@), k + 1);
                    }
                    return None;
                }
                let ghost before = st@;
                st.pop();
                assert(crate::text::views(st@) =~= crate::text::views(before).drop_last());
            } else {
                let ghost before = st@;
                st.push(slice_chars(s, 0, s.len()));
                assert(s@.subrange(0, s@.len() as int) =~= s@);
                assert(crate::text::views(st@) =~= crate::text::views(before).push(s@));
            }
            k = k + 1;
        }
        assert(crate::text::views(segs@).take(segs@.len() as int) =~= crate::text::views(segs@));
        Some(st)
    }

    /// Whether the extension, lowercased, is allowed.
    fn is_allowed(&self, e: &Vec<char>) -> (r: bool)
        ensures
            r == allows(self.allowed(), e@),
    {
        let mut k: usize = 0;
        while k < self.allowed_extensions.len()
            invariant
                k <= self.allowed().len(),
                forall|j: int| 0 <= j < k ==> self.allowed()[j] != e@,
            decreases self.allowed().len() - k,
        {
            let a = chars_of(self.allowed_extensions[k].as_str());
            if same_chars(&a, e) {
                assert(self.allowed()[k as int] == e@);
                return true;
            }
            k = k + 1;
        }
        false
    }

    /// Checks that the last segment has an allowed extension, lowercased first.
    fn validate_extension(&self, st: &Vec<Vec<char>>) -> (r: Result<(), PathNormalizationError>)
        ensures
            ({
                let v = crate::text::views(st@);
                let ext = if v.len() == 0 {
                    None
                } else {
                    extension_of(v.last())
                };
                match ext {
                    None => r matches Err(PathNormalizationError::InvalidExtensionError {
                        extension,
                        allowed,
                    }) && extension@ == none_text() && text_views(allowed@) == self.allowed(),
                    Some(e) => if allows(self.allowed(), lower_of(e)) {
                        r is Ok
                    } else {
                        r matches Err(PathNormalizationError::InvalidExtensionError {
                            extension,
                            allowed,
                        }) && extension@ == lower_of(e) && text_views(allowed@) == self.allowed()
                    },
                }
            }),
    {
        let none = vec!['n', 'o', 'n', 'e'];
        assert(none@ =~= none_text());
        if st.len() == 0 {
            return Err(
                PathNormalizationError::InvalidExtensionError {
                    extension: string_of(&none),
                    allowed: clone_strings(&self.allowed_extensions),
                },
            );
        }
        let name = &st[st.len() - 1];
        let mut j: usize = name.len();
        while j > 0 && name[j - 1] != '.'
            invariant
                j <= name@.len(),
                last_index_of(name@, '.', name@.len() as int) == last_index_of(
                    name@,
                    '.',
                    j as int,
                ),
            decreases j,
        {
            j = j - 1;
        }
        if j <= 1 {
            return Err(
                PathNormalizationError::InvalidExtensionError {
                    extension: string_of(&none),
                    allowed: clone_strings(&self.allowed_extensions),
                },
            );
        }
        let e = lowercase_chars(&slice_chars(name, j, name.len()));
        if self.is_allowed(&e) {
            Ok(())
        } else {
            Err(
                PathNormalizationError::InvalidExtensionError {
                    extension: string_of(&e),
                    allowed: clone_strings(&self.allowed_extensions),
                },
            )
        }
    }

    /// Normalizes a path for use in the document system.
    pub fn normalize_path(&self, path: &str) -> (r: Result<String, PathNormalizationError>)
        ensures
            outcome(r) == normalize_spec(
                self.allowed(),
                self.max_path_length as int,
                path@,
            ),
    {
        let p = chars_of(path);
        let t = trim_chars(&p);
        if t.len() == 0 {
            return Err(PathNormalizationError::EmptyOrInvalidPathError);
        }
        let bytes = utf8_len_capped(&p, usize::MAX);
        if bytes > self.max_path_length {
            return Err(
                PathNormalizationError::PathTooLongError { length: bytes, max: self.max_path_length },
            );
        }
        let (segs, cleaned) = self.clean_path(&t);
        let mut k: usize = 0;
        while k < cleaned.len()
            invariant
                k <= cleaned@.len(),
                t@ == trim(path@),
                t@.len() > 0,
                cleaned@ == join_slash(segments(t@)),
                !(byte_len(path@) > self.max_path_length),
                forall|i: int|
                    0 <= i < k ==> !(cleaned@[i] == '\0' || cleaned@[i] == '\r' || cleaned@[i]
                        == '\n'),
            decreases cleaned@.len() - k,
        {
            let c = cleaned[k];
            if c == '\0' || c == '\r' || c == '\n' {
                assert(0 <= k < cleaned@.len() && (cleaned@[k as int] == '\0' || cleaned@[k as int]
                    == '\r' || cleaned@[k as int] == '\n'));
                assert(has_control(cleaned@));
                return Err(PathNormalizationError::InvalidCharacterError { path: string_of(&cleaned) });
            }
            k = k + 1;
        }
        match self.resolve_path_components(&segs) {
            None => Err(PathNormalizationError::PathTraversalError { path: string_of(&cleaned) }),
            Some(st) => {
                match self.validate_extension(&st) {
                    Ok(()) => Ok(string_of(&join_with_slash(&st))),
                    Err(e) => Err(e),
                }
            },
        }
    }

    /// Normalizes each path in turn; the first refusal is returned.
    pub fn normalize_paths(&self, paths: &Vec<String>) -> (r: Result<Vec<String>, PathNormalizationError>)
        ensures
            r matches Ok(v) ==> v@.len() == paths@.len() && forall|i: int|
                0 <= i < paths@.len() ==> normalize_spec(
                    self.allowed(),
                    self.max_path_length as int,
                    paths@[i]@,
                ) == NormalizedModel::Normalized(v@[i]@),
            r matches Err(e) ==> exists|i: int|
                0 <= i < paths@.len() && error_outcome(e) == normalize_spec(
                    self.allowed(),
                    self.max_path_length as int,
                    paths@[i]@,
                ) && forall|j: int|
                    0 <= j < i ==> normalize_spec(
                        self.allowed(),
                        self.max_path_length as int,
                        paths@[j]@,
                    ) is Normalized,
    {
        let mut out: Vec<String> = Vec::new();
        let mut k: usize = 0;
        while k < paths.len()
            invariant
                k <= paths@.len(),
                out@.len() == k,
                forall|i: int|
                    0 <= i < k ==> normalize_spec(
                        self.allowed(),
                        self.max_path_length as int,
                        paths@[i]@,
                    ) == NormalizedModel::Normalized(out@[i]@),
            decreases paths@.len() - k,
        {
            match self.normalize_path(paths[k].as_str()) {
                Ok(s) => {
                    out.push(s);
                },
                Err(e) => {
                    return Err(e);
                },
            }
            k = k + 1;
        }
        Ok(out)
    }

    /// Whether `normalize_path` would accept `path`.
    pub fn is_valid_path(&self, path: &str) -> (r: bool)
        ensures
            r == (normalize_spec(
                self.allowed(),
                self.max_path_length as int,
                path@,
            ) is Normalized),
    {
        self.normalize_path(path).is_ok()
    }
}

} // verus!
