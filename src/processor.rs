use vstd::prelude::*;

use crate::pipeline::{
    code_block_views, heading_views, image_views, link_views, lookup,
    string_views, CodeBlock, CodeBlockModel, FrontMatter, Heading, HeadingModel, Image,
    ImageModel, Link, LinkModel, PipelineError, ProcessedDocument, ProcessingMetadata,
    ValidatedFile, ValidatedModel,
};
use crate::text::{
    chars_of, find_chars, find_from, is_whitespace, is_ws, lemma_find_from_bounds, line_end,
    line_text, lines, lines_from, skip_ws, skip_ws_back,
    slice_chars, split_lines, starts_with, starts_with_chars, string_of, trim, trim_chars, views,
};

verus! {

/// What `char::is_alphanumeric` says of a character.
pub uninterp spec fn alnum(c: char) -> bool;

/// What `str::to_lowercase` makes of a string.
pub uninterp spec fn lower_of(s: Seq<char>) -> Seq<char>;

/// Relies on `char::is_alphanumeric`, which depends on the character alone.
#[verifier::external_body]
fn is_alphanumeric(c: char) -> (r: bool)
    ensures
        r == alnum(c),
{
    c.is_alphanumeric()
}

/// Relies on `str::to_lowercase`, which depends on the characters alone.
#[verifier::external_body]
pub(crate) fn to_lowercase(s: &str) -> (r: String)
    ensures
        r@ == lower_of(s@),
{
    s.to_lowercase()
}

/// A sequence of zero or one element.
pub open spec fn opt_seq<A>(o: Option<A>) -> Seq<A> {
    match o {
        Some(a) => seq![a],
        None => Seq::empty(),
    }
}

pub open spec fn http_prefix() -> Seq<char> {
    seq!['h', 't', 't', 'p', ':', '/', '/']
}

pub open spec fn https_prefix() -> Seq<char> {
    seq!['h', 't', 't', 'p', 's', ':', '/', '/']
}

/// A URL is internal unless it starts with `http://` or `https://`.
pub open spec fn internal_url(url: Seq<char>) -> bool {
    !starts_with(url, http_prefix()) && !starts_with(url, https_prefix())
}

/// Every non-alphanumeric character replaced by `'-'`.
pub open spec fn dashed(s: Seq<char>) -> Seq<char> {
    Seq::new(s.len(), |i: int| if alnum(s[i]) { s[i] } else { '-' })
}

/// Index of the first character at or after `i` that is not `'-'`.
pub open spec fn skip_dash(s: Seq<char>, i: int) -> int
    decreases s.len() - i,
{
    if 0 <= i < s.len() && s[i] == '-' {
        skip_dash(s, i + 1)
    } else {
        i
    }
}

/// Index just past the last character before `j` that is not `'-'`.
pub open spec fn skip_dash_back(s: Seq<char>, j: int) -> int
    decreases j,
{
    if 0 < j <= s.len() && s[j - 1] == '-' {
        skip_dash_back(s, j - 1)
    } else {
        j
    }
}

/// `s` without leading and trailing `'-'`.
pub open spec fn trim_dashes(s: Seq<char>) -> Seq<char> {
    let a = skip_dash(s, 0);
    let b = skip_dash_back(s, s.len() as int);
    if b <= a {
        Seq::empty()
    } else {
        s.subrange(a, b)
    }
}

/// The anchor slug of a heading text: lower case, every non-alphanumeric character a hyphen,
/// outer hyphens removed, inner runs of hyphens kept.
pub open spec fn anchor_of(t: Seq<char>) -> Seq<char> {
    trim_dashes(dashed(lower_of(t)))
}

/// Number of `'#'` characters from index `i` on, up to the first other character.
pub open spec fn hashes_from(l: Seq<char>, i: int) -> int
    decreases l.len() - i,
{
    if 0 <= i < l.len() && l[i] == '#' {
        hashes_from(l, i + 1)
    } else {
        i
    }
}

/// The heading a line makes: one to six leading `'#'`, the rest trimmed as its text.
pub open spec fn heading_of(l: Seq<char>) -> Option<HeadingModel> {
    let n = hashes_from(l, 0);
    if 1 <= n <= 6 {
        let t = trim(l.subrange(n, l.len() as int));
        Some(HeadingModel { level: n, text: t, anchor: anchor_of(t) })
    } else {
        None
    }
}

/// The headings of a sequence of lines, in order.
pub open spec fn headings_in(ls: Seq<Seq<char>>) -> Seq<HeadingModel>
    decreases ls.len(),
{
    if ls.len() == 0 {
        Seq::empty()
    } else {
        headings_in(ls.drop_last()) + opt_seq(heading_of(ls.last()))
    }
}

/// The headings of a document body.
pub open spec fn headings_of(s: Seq<char>) -> Seq<HeadingModel> {
    headings_in(lines(s))
}

pub open spec fn close_open() -> Seq<char> {
    seq![']', '(']
}

pub open spec fn close_paren() -> Seq<char> {
    seq![')']
}

pub open spec fn image_open() -> Seq<char> {
    seq!['!', '[']
}

/// The link whose `'['` stands at index `i`: its text runs to the first `"]("` after it,
/// its URL from there to the next `')'`.
pub open spec fn link_at(s: Seq<char>, i: int) -> Option<LinkModel> {
    match find_from(s, close_open(), i) {
        Some(e) => if e >= i + 1 {
            match find_from(s, close_paren(), e + 2) {
                Some(q) => Some(
                    LinkModel {
                        text: s.subrange(i + 1, e),
                        url: s.subrange(e + 2, q),
                        is_internal: internal_url(s.subrange(e + 2, q)),
                    },
                ),
                None => None,
            }
        } else {
            None
        },
        None => None,
    }
}

/// The links of `s` that open at index `i` or later, in order.
pub open spec fn links_from(s: Seq<char>, i: int) -> Seq<LinkModel>
    decreases s.len() - i,
{
    if i < 0 || i >= s.len() {
        Seq::empty()
    } else {
        (if s[i] == '[' {
            opt_seq(link_at(s, i))
        } else {
            Seq::empty()
        }) + links_from(s, i + 1)
    }
}

/// The links of a document body.
pub open spec fn links_of(s: Seq<char>) -> Seq<LinkModel> {
    links_from(s, 0)
}

/// The first image of a line: alt text from its first `"!["` to the next `"]("`, URL from
/// there to the next `')'`.
pub open spec fn image_of(l: Seq<char>) -> Option<ImageModel> {
    match find_from(l, image_open(), 0) {
        Some(st) => match find_from(l, close_open(), st) {
            Some(eb) => if eb >= st + 2 {
                match find_from(l, close_paren(), eb + 2) {
                    Some(q) => Some(
                        ImageModel {
                            alt_text: l.subrange(st + 2, eb),
                            url: l.subrange(eb + 2, q),
                            is_internal: internal_url(l.subrange(eb + 2, q)),
                        },
                    ),
                    None => None,
                }
            } else {
                None
            },
            None => None,
        },
        None => None,
    }
}

/// The images of a sequence of lines, at most one per line.
pub open spec fn images_in(ls: Seq<Seq<char>>) -> Seq<ImageModel>
    decreases ls.len(),
{
    if ls.len() == 0 {
        Seq::empty()
    } else {
        images_in(ls.drop_last()) + opt_seq(image_of(ls.last()))
    }
}

/// The images of a document body.
pub open spec fn images_of(s: Seq<char>) -> Seq<ImageModel> {
    images_in(lines(s))
}

pub open spec fn fence() -> Seq<char> {
    seq!['`', '`', '`']
}

/// Lines joined with `'\n'` between them.
pub open spec fn join_lines(ls: Seq<Seq<char>>) -> Seq<char>
    decreases ls.len(),
{
    if ls.len() == 0 {
        Seq::empty()
    } else if ls.len() == 1 {
        ls[0]
    } else {
        join_lines(ls.drop_last()) + seq!['\n'] + ls.last()
    }
}

/// Where the scan for code blocks stands after some lines.
pub struct FenceState {
    pub blocks: Seq<CodeBlockModel>,
    pub open: bool,
    pub language: Option<Seq<char>>,
    pub current: Seq<Seq<char>>,
}

/// The language tag of an opening fence line.
pub open spec fn fence_language(l: Seq<char>) -> Option<Seq<char>> {
    if l.len() > 3 {
        Some(trim(l.subrange(3, l.len() as int)))
    } else {
        None
    }
}

/// The scan for code blocks over a sequence of lines: a line starting with three backticks
/// opens or closes a fence, lines in between are the block's content.
pub open spec fn fence_state(ls: Seq<Seq<char>>) -> FenceState
    decreases ls.len(),
{
    if ls.len() == 0 {
        FenceState { blocks: Seq::empty(), open: false, language: None, current: Seq::empty() }
    } else {
        let st = fence_state(ls.drop_last());
        let l = ls.last();
        if starts_with(l, fence()) {
            if st.open {
                FenceState {
                    blocks: st.blocks.push(
                        CodeBlockModel {
                            language: st.language,
                            content: join_lines(st.current),
                            line_count: st.current.len() as int,
                        },
                    ),
                    open: false,
                    language: None,
                    current: Seq::empty(),
                }
            } else {
                FenceState {
                    blocks: st.blocks,
                    open: true,
                    language: fence_language(l),
                    current: st.current,
                }
            }
        } else if st.open {
            FenceState {
                blocks: st.blocks,
                open: st.open,
                language: st.language,
                current: st.current.push(l),
            }
        } else {
            st
        }
    }
}

/// The closed code blocks of a document body.
pub open spec fn code_blocks_of(s: Seq<char>) -> Seq<CodeBlockModel> {
    fence_state(lines(s)).blocks
}

/// Number of whitespace-separated words.
pub open spec fn word_count_of(s: Seq<char>) -> int
    decreases s.len(),
{
    if s.len() == 0 {
        0
    } else {
        word_count_of(s.drop_last()) + if !is_ws(s.last()) && (s.len() == 1 || is_ws(
            s[s.len() - 2],
        )) {
            1int
        } else {
            0int
        }
    }
}

/// Number of internal links.
pub open spec fn internal_count(ls: Seq<LinkModel>) -> int
    decreases ls.len(),
{
    if ls.len() == 0 {
        0
    } else {
        internal_count(ls.drop_last()) + if ls.last().is_internal {
            1int
        } else {
            0int
        }
    }
}

/// The quality score in hundredths: 100, less 10 per warning, plus 10 when there is a heading,
/// plus 5 per internal link up to 20, held to `[0, 100]`.
pub open spec fn quality(warnings: int, has_headings: bool, internal_links: int) -> int {
    let raw = 100 - 10 * warnings + (if has_headings {
        10int
    } else {
        0int
    }) + (if 5 * internal_links < 20 {
        5 * internal_links
    } else {
        20int
    });
    if raw < 0 {
        0
    } else if raw > 100 {
        100
    } else {
        raw
    }
}

pub open spec fn title_key() -> Seq<char> {
    seq!['t', 'i', 't', 'l', 'e']
}

pub open spec fn untitled() -> Seq<char> {
    seq![
        'U', 'n', 't', 'i', 't', 'l', 'e', 'd', ' ', 'D', 'o', 'c', 'u', 'm', 'e', 'n', 't',
    ]
}

/// The title of a document: the front matter's `title`, else the first heading's text, else
/// "Untitled Document".
pub open spec fn title_of(fm: Seq<(Seq<char>, Seq<char>)>, hs: Seq<HeadingModel>) -> Seq<char> {
    match lookup(fm, title_key()) {
        Some(t) => t,
        None => if hs.len() > 0 {
            hs[0].text
        } else {
            untitled()
        },
    }
}

/// What processing a validated file yields, apart from the time stamps.
pub open spec fn processed_from(d: ProcessedDocument, f: ValidatedFile) -> bool {
    processed_model(d, f@)
}

/// What processing a validated record yields, apart from the time stamps.
pub open spec fn processed_model(d: ProcessedDocument, m: ValidatedModel) -> bool {
    let body = m.body;
    &&& d.file_path@ == m.discovered.path
    &&& d.content@ == body
    &&& d.frontmatter@ == m.frontmatter
    &&& heading_views(d.headings@) == headings_of(body)
    &&& link_views(d.links@) == links_of(body)
    &&& image_views(d.images@) == images_of(body)
    &&& code_block_views(d.code_blocks@) == code_blocks_of(body)
    &&& d.word_count == word_count_of(body)
    &&& d.title@ == title_of(m.frontmatter, headings_of(body))
    &&& string_views(d.processing_metadata.warnings@) == m.warnings
    &&& d.processing_metadata.quality_score == quality(
        m.warnings.len() as int,
        headings_of(body).len() > 0,
        internal_count(links_of(body)),
    )
    &&& d.last_modified is None
}




/// The quality score always lies in `[0, 100]` hundredths, whatever the number of warnings
/// and internal links.
pub proof fn lemma_quality_bounded(warnings: nat, has_headings: bool, internal_links: nat)
    ensures
        0 <= quality(warnings as int, has_headings, internal_links as int) <= 100,
{
}

/// A line of exactly six `'#'` before other text is a heading of level 6; a line of seven or
/// more `'#'` is no heading at all.
pub proof fn lemma_heading_level_boundary(l: Seq<char>)
    ensures
        hashes_from(l, 0) == 6 ==> (heading_of(l) matches Some(h) && h.level == 6),
        hashes_from(l, 0) >= 7 ==> heading_of(l) is None,
{
}

/// Processing the same validated content twice gives the same headings, links, images, code
/// blocks, word count and quality; only the time stamps may differ.
pub proof fn lemma_processing_deterministic(
    a: ProcessedDocument,
    b: ProcessedDocument,
    fa: ValidatedFile,
    fb: ValidatedFile,
)
    requires
        processed_from(a, fa),
        processed_from(b, fb),
        fa@ == fb@,
    ensures
        heading_views(a.headings@) == heading_views(b.headings@),
        link_views(a.links@) == link_views(b.links@),
        image_views(a.images@) == image_views(b.images@),
        code_block_views(a.code_blocks@) == code_block_views(b.code_blocks@),
        a.word_count == b.word_count,
        a.title@ == b.title@,
        a.processing_metadata.quality_score == b.processing_metadata.quality_score,
{
}

/// A title given in the front matter is the document's title when the body has no headings.
pub proof fn lemma_title_from_front_matter(
    fm: Seq<(Seq<char>, Seq<char>)>,
    body: Seq<char>,
    x: Seq<char>,
)
    requires
        lookup(fm, title_key()) == Some(x),
        headings_of(body).len() == 0,
    ensures
        title_of(fm, headings_of(body)) == x,
{
}

proof fn lemma_line_end_at(s: Seq<char>, i: int, n: int)
    requires
        0 <= i <= n <= s.len(),
        forall|k: int| i <= k < n ==> s[k] != '\n',
        n == s.len() || s[n] == '\n',
    ensures
        line_end(s, i) == n,
    decreases n - i,
{
    if i < n {
        lemma_line_end_at(s, i + 1, n);
    }
}

proof fn lemma_headings_first(ls: Seq<Seq<char>>)
    requires
        ls.len() > 0,
        heading_of(ls[0]) is Some,
    ensures
        headings_in(ls).len() > 0,
        headings_in(ls)[0] == heading_of(ls[0])->Some_0,
    decreases ls.len(),
{
    if ls.len() > 1 {
        lemma_headings_first(ls.drop_last());
        let a = headings_in(ls.drop_last());
        let b = opt_seq(heading_of(ls.last()));
        assert((a + b)[0] == a[0]);
    } else {
        assert(ls.drop_last() =~= Seq::<Seq<char>>::empty());
        assert(headings_in(ls.drop_last()) =~= Seq::<HeadingModel>::empty());
        assert(ls.last() == ls[0]);
        assert(headings_in(ls) =~= opt_seq(heading_of(ls[0])));
    }
}

/// Without a front-matter title, a body that opens with the line `# X` takes `X` as its
/// title, for any `X` that is trimmed, holds no newline and does not start with `'#'`.
pub proof fn lemma_title_from_leading_heading(
    fm: Seq<(Seq<char>, Seq<char>)>,
    x: Seq<char>,
    rest: Seq<char>,
)
    requires
        lookup(fm, title_key()) is None,
        x.len() > 0,
        !is_ws(x[0]),
        !is_ws(x.last()),
        x[0] != '#',
        forall|i: int| 0 <= i < x.len() ==> x[i] != '\n',
        rest.len() == 0 || rest[0] == '\n',
    ensures
        title_of(fm, headings_of(seq!['#', ' '] + x + rest)) == x,
{
    let l = seq!['#', ' '] + x;
    let s = l + rest;
    let n = l.len() as int;
    assert forall|k: int| 0 <= k < n implies s[k] != '\n' by {
        if k >= 2 {
            assert(s[k] == x[k - 2]);
        }
    }
    lemma_line_end_at(s, 0, n);
    assert(s.subrange(0, n) =~= l);
    assert(s[n - 1] == x.last());
    let first = line_text(s, 0, n);
    assert(first == l);
    if n < s.len() {
        assert(lines(s) == seq![first] + lines_from(s, n + 1));
    } else {
        assert(lines(s) == seq![first]);
    }
    assert(lines(s)[0] == l);
    assert(hashes_from(l, 1) == 1);
    assert(hashes_from(l, 0) == 1);
    let t = l.subrange(1, n);
    assert(t =~= seq![' '] + x);
    assert(skip_ws(t, 1) == 1);
    assert(skip_ws(t, 0) == 1);
    assert(skip_ws_back(t, t.len() as int) == t.len());
    assert(trim(t) =~= x);
    lemma_headings_first(lines(s));
}

fn http_chars() -> (r: Vec<char>)
    ensures
        r@ == http_prefix(),
{
    let r = vec!['h', 't', 't', 'p', ':', '/', '/'];
    assert(r@ =~= http_prefix());
    r
}

fn https_chars() -> (r: Vec<char>)
    ensures
        r@ == https_prefix(),
{
    let r = vec!['h', 't', 't', 'p', 's', ':', '/', '/'];
    assert(r@ =~= https_prefix());
    r
}

fn close_open_chars() -> (r: Vec<char>)
    ensures
        r@ == close_open(),
{
    let r = vec![']', '('];
    assert(r@ =~= close_open());
    r
}

fn close_paren_chars() -> (r: Vec<char>)
    ensures
        r@ == close_paren(),
{
    let r = vec![')'];
    assert(r@ =~= close_paren());
    r
}

fn image_open_chars() -> (r: Vec<char>)
    ensures
        r@ == image_open(),
{
    let r = vec!['!', '['];
    assert(r@ =~= image_open());
    r
}

fn fence_chars() -> (r: Vec<char>)
    ensures
        r@ == fence(),
{
    let r = vec!['`', '`', '`'];
    assert(r@ =~= fence());
    r
}

/// Appends the characters of `s` to `acc`.
pub fn push_all(acc: &mut Vec<char>, s: &Vec<char>)
    ensures
        final(acc)@ == old(acc)@ + s@,
{
    let ghost start = acc@;
    let mut k: usize = 0;
    while k < s.len()
        invariant
            k <= s@.len(),
            acc@ == start + s@.subrange(0, k as int),
        decreases s@.len() - k,
    {
        acc.push(s[k]);
        k = k + 1;
        assert(acc@ =~= start + s@.subrange(0, k as int));
    }
    assert(s@.subrange(0, s@.len() as int) =~= s@);
}

/// Lines joined with `'\n'` between them.
pub fn join_char_lines(ls: &Vec<Vec<char>>) -> (r: Vec<char>)
    ensures
        r@ == join_lines(views(ls@)),
{
    let mut acc: Vec<char> = Vec::new();
    let mut k: usize = 0;
    while k < ls.len()
        invariant
            k <= ls@.len(),
            acc@ == join_lines(views(ls@).take(k as int)),
        decreases ls@.len() - k,
    {
        let ghost before = views(ls@).take(k as int);
        if k > 0 {
            acc.push('\n');
        }
        push_all(&mut acc, &ls[k]);
        k = k + 1;
        proof {
            let now = views(ls@).take(k as int);
            assert(now.drop_last() =~= before);
            assert(now.last() == ls@[k - 1]@);
            if k == 1 {
                assert(acc@ =~= now[0]);
            } else {
                assert(acc@ =~= join_lines(before) + seq!['\n'] + now.last());
            }
        }
    }
    assert(views(ls@).take(ls@.len() as int) =~= views(ls@));
    acc
}

/// Extracts headings, links, images and code blocks from document bodies, and scores them.
pub struct ContentProcessor {}

impl ContentProcessor {
    pub fn new() -> (r: ContentProcessor) {
        ContentProcessor {  }
    }

    /// Whether a URL points inside the repository, that is, is not `http://` or `https://`.
    pub fn is_internal_link(&self, url: &str) -> (r: bool)
        ensures
            r == internal_url(url@),
    {
        let u = chars_of(url);
        !starts_with_chars(&u, &http_chars()) && !starts_with_chars(&u, &https_chars())
    }

    fn is_internal_chars(&self, u: &Vec<char>) -> (r: bool)
        ensures
            r == internal_url(u@),
    {
        !starts_with_chars(u, &http_chars()) && !starts_with_chars(u, &https_chars())
    }

    /// The anchor slug of a heading text.
    pub fn create_anchor(&self, text: &str) -> (r: String)
        ensures
            r@ == anchor_of(text@),
    {
        let lower = to_lowercase(text);
        let lc = chars_of(lower.as_str());
        let mut d: Vec<char> = Vec::new();
        let mut k: usize = 0;
        while k < lc.len()
            invariant
                k <= lc@.len(),
                lc@ == lower_of(text@),
                d@ == dashed(lc@).take(k as int),
            decreases lc@.len() - k,
        {
            let c = lc[k];
            if is_alphanumeric(c) {
                d.push(c);
            } else {
                d.push('-');
            }
            k = k + 1;
            assert(d@ =~= dashed(lc@).take(k as int));
        }
        assert(d@ =~= dashed(lc@));
        let mut a: usize = 0;
        while a < d.len() && d[a] == '-'
            invariant
                a <= d@.len(),
                skip_dash(d@, 0) == skip_dash(d@, a as int),
            decreases d@.len() - a,
        {
            a = a + 1;
        }
        let mut b: usize = d.len();
        while b > 0 && d[b - 1] == '-'
            invariant
                b <= d@.len(),
                skip_dash_back(d@, d@.len() as int) == skip_dash_back(d@, b as int),
            decreases b,
        {
            b = b - 1;
        }
        if b <= a {
            string_of(&Vec::new())
        } else {
            string_of(&slice_chars(&d, a, b))
        }
    }

    fn heading_of_line(&self, l: &Vec<char>) -> (r: Option<Heading>)
        ensures
            r matches Some(h) ==> heading_of(l@) == Some(h@),
            r is None ==> heading_of(l@) is None,
    {
        let mut n: usize = 0;
        while n < l.len() && l[n] == '#'
            invariant
                n <= l@.len(),
                hashes_from(l@, 0) == hashes_from(l@, n as int),
            decreases l@.len() - n,
        {
            n = n + 1;
        }
        if 1 <= n && n <= 6 {
            let t = trim_chars(&slice_chars(l, n, l.len()));
            let text = string_of(&t);
            let anchor = self.create_anchor(text.as_str());
            Some(Heading { level: n as u8, text, anchor })
        } else {
            None
        }
    }

    fn headings_of_lines(&self, ls: &Vec<Vec<char>>) -> (r: Vec<Heading>)
        ensures
            heading_views(r@) == headings_in(views(ls@)),
    {
        let mut r: Vec<Heading> = Vec::new();
        let mut k: usize = 0;
        while k < ls.len()
            invariant
                k <= ls@.len(),
                heading_views(r@) == headings_in(views(ls@).take(k as int)),
            decreases ls@.len() - k,
        {
            let ghost before = r@;
            let h = self.heading_of_line(&ls[k]);
            proof {
                let now = views(ls@).take(k + 1);
                assert(now.drop_last() =~= views(ls@).take(k as int));
                assert(now.last() == ls@[k as int]@);
            }
            match h {
                Some(h) => {
                    r.push(h);
                    assert(heading_views(r@) =~= heading_views(before) + seq![r@.last()@]);
                },
                None => {
                    assert(heading_views(r@) =~= heading_views(before) + Seq::empty());
                },
            }
            k = k + 1;
        }
        assert(views(ls@).take(ls@.len() as int) =~= views(ls@));
        r
    }

    /// The headings of a document body: each line that starts with one to six `'#'`.
    pub fn extract_headings(&self, markdown_content: &str) -> (r: Vec<Heading>)
        ensures
            heading_views(r@) == headings_of(markdown_content@),
    {
        let s = chars_of(markdown_content);
        let ls = split_lines(&s);
        self.headings_of_lines(&ls)
    }

    /// The link whose `'['` stands at index `i` of `s`.
    fn link_at_index(&self, s: &Vec<char>, i: usize) -> (r: Option<Link>)
        ensures
            r matches Some(l) ==> link_at(s@, i as int) == Some(l@),
            r is None ==> link_at(s@, i as int) is None,
    {
        match find_chars(s, &close_open_chars(), i) {
            Some(e) => {
                proof {
                    lemma_find_from_bounds(s@, close_open(), i as int);
                }
                assert(e + 2 <= s.len());
                if e > i {
                    match find_chars(s, &close_paren_chars(), e + 2) {
                        Some(q) => {
                            proof {
                                lemma_find_from_bounds(s@, close_paren(), e + 2);
                            }
                            let text = slice_chars(s, i + 1, e);
                            let url = slice_chars(s, e + 2, q);
                            let is_internal = self.is_internal_chars(&url);
                            Some(
                                Link {
                                    text: string_of(&text),
                                    url: string_of(&url),
                                    is_internal,
                                    is_valid: None,
                                },
                            )
                        },
                        None => None,
                    }
                } else {
                    None
                }
            },
            None => None,
        }
    }

    /// The link that `text` opens with: text up to the first `"]("`, URL up to the next `')'`.
    pub fn parse_link(&self, text: &str) -> (r: Option<Link>)
        ensures
            r matches Some(l) ==> link_at(text@, 0) == Some(l@),
            r is None ==> link_at(text@, 0) is None,
    {
        let s = chars_of(text);
        self.link_at_index(&s, 0)
    }

    /// Every link of a document body, one for each `'['` that opens a well-formed link.
    pub fn extract_links(&self, markdown_content: &str) -> (r: Vec<Link>)
        ensures
            link_views(r@) == links_of(markdown_content@),
    {
        let s = chars_of(markdown_content);
        let mut r: Vec<Link> = Vec::new();
        let mut i: usize = 0;
        while i < s.len()
            invariant
                i <= s@.len(),
                s@ == markdown_content@,
                links_of(s@) == link_views(r@) + links_from(s@, i as int),
            decreases s@.len() - i,
        {
            let ghost before = r@;
            if s[i] == '[' {
                match self.link_at_index(&s, i) {
                    Some(l) => {
                        r.push(l);
                        assert(link_views(r@) =~= link_views(before) + seq![r@.last()@]);
                    },
                    None => {
                        assert(link_views(r@) =~= link_views(before) + Seq::empty());
                    },
                }
            } else {
                assert(link_views(r@) =~= link_views(before) + Seq::empty());
            }
            i = i + 1;
            assert(links_of(s@) =~= link_views(r@) + links_from(s@, i as int));
        }
        assert(links_from(s@, i as int) =~= Seq::<LinkModel>::empty());
        assert(link_views(r@) + Seq::<LinkModel>::empty() =~= link_views(r@));
        r
    }

    fn image_of_line(&self, l: &Vec<char>) -> (r: Option<Image>)
        ensures
            r matches Some(m) ==> image_of(l@) == Some(m@),
            r is None ==> image_of(l@) is None,
    {
        match find_chars(l, &image_open_chars(), 0) {
            Some(st) => {
                proof {
                    lemma_find_from_bounds(l@, image_open(), 0);
                }
                match find_chars(l, &close_open_chars(), st) {
                    Some(eb) => {
                        proof {
                            lemma_find_from_bounds(l@, close_open(), st as int);
                        }
                        assert(eb + 2 <= l.len());
                        if eb >= st + 2 {
                            match find_chars(l, &close_paren_chars(), eb + 2) {
                                Some(q) => {
                                    proof {
                                        lemma_find_from_bounds(l@, close_paren(), eb + 2);
                                    }
                                    let alt = slice_chars(l, st + 2, eb);
                                    let url = slice_chars(l, eb + 2, q);
                                    let is_internal = self.is_internal_chars(&url);
                                    Some(
                                        Image {
                                            alt_text: string_of(&alt),
                                            url: string_of(&url),
                                            is_internal,
                                        },
                                    )
                                },
                                None => None,
                            }
                        } else {
                            None
                        }
                    },
                    None => None,
                }
            },
            None => None,
        }
    }

    /// The first image of `text`: alt text from `"!["` to the next `"]("`, URL to the next `')'`.
    pub fn parse_image(&self, text: &str) -> (r: Option<Image>)
        ensures
            r matches Some(m) ==> image_of(text@) == Some(m@),
            r is None ==> image_of(text@) is None,
    {
        let l = chars_of(text);
        self.image_of_line(&l)
    }

    /// The images of a document body: the first one of each line.
    pub fn extract_images(&self, markdown_content: &str) -> (r: Vec<Image>)
        ensures
            image_views(r@) == images_of(markdown_content@),
    {
        let s = chars_of(markdown_content);
        let ls = split_lines(&s);
        let mut r: Vec<Image> = Vec::new();
        let mut k: usize = 0;
        while k < ls.len()
            invariant
                k <= ls@.len(),
                image_views(r@) == images_in(views(ls@).take(k as int)),
            decreases ls@.len() - k,
        {
            let ghost before = r@;
            let m = self.image_of_line(&ls[k]);
            proof {
                let now = views(ls@).take(k + 1);
                assert(now.drop_last() =~= views(ls@).take(k as int));
                assert(now.last() == ls@[k as int]@);
            }
            match m {
                Some(m) => {
                    r.push(m);
                    assert(image_views(r@) =~= image_views(before) + seq![r@.last()@]);
                },
                None => {
                    assert(image_views(r@) =~= image_views(before) + Seq::empty());
                },
            }
            k = k + 1;
        }
        assert(views(ls@).take(ls@.len() as int) =~= views(ls@));
        r
    }

    /// The code blocks of a document body that are opened and closed by fence lines.
    pub fn extract_code_blocks(&self, markdown_content: &str) -> (r: Vec<CodeBlock>)
        ensures
            code_block_views(r@) == code_blocks_of(markdown_content@),
    {
        let s = chars_of(markdown_content);
        let ls = split_lines(&s);
        let fc = fence_chars();
        let mut blocks: Vec<CodeBlock> = Vec::new();
        let mut open = false;
        let mut language: Option<Vec<char>> = None;
        let mut current: Vec<Vec<char>> = Vec::new();
        let mut k: usize = 0;
        while k < ls.len()
            invariant
                k <= ls@.len(),
                fc@ == fence(),
                ({
                    let st = fence_state(views(ls@).take(k as int));
                    &&& code_block_views(blocks@) == st.blocks
                    &&& open == st.open
                    &&& (match language {
                        Some(v) => st.language == Some(v@),
                        None => st.language is None,
                    })
                    &&& views(current@) == st.current
                }),
            decreases ls@.len() - k,
        {
            let ghost st0 = fence_state(views(ls@).take(k as int));
            proof {
                let now = views(ls@).take(k + 1);
                assert(now.drop_last() =~= views(ls@).take(k as int));
                assert(now.last() == ls@[k as int]@);
            }
            let line = &ls[k];
            if starts_with_chars(line, &fc) {
                if open {
                    let content = join_char_lines(&current);
                    let lang = match &language {
                        Some(v) => Some(string_of(v)),
                        None => None,
                    };
                    let ghost before = blocks@;
                    let line_count = current.len();
                    blocks.push(CodeBlock { language: lang, content: string_of(&content), line_count });
                    assert(code_block_views(blocks@) =~= code_block_views(before).push(
                        blocks@.last()@,
                    ));
                    current = Vec::new();
                    assert(views(current@) =~= Seq::<Seq<char>>::empty());
                    language = None;
                    open = false;
                } else {
                    language = if line.len() > 3 {
                        Some(trim_chars(&slice_chars(line, 3, line.len())))
                    } else {
                        None
                    };
                    open = true;
                }
            } else if open {
                let ghost before = current@;
                current.push(slice_chars(line, 0, line.len()));
                assert(line@.subrange(0, line@.len() as int) =~= line@);
                assert(views(current@) =~= views(before).push(line@));
            }
            k = k + 1;
        }
        assert(views(ls@).take(ls@.len() as int) =~= views(ls@));
        blocks
    }

    /// Number of whitespace-separated words of `text`.
    pub fn count_words(&self, text: &str) -> (r: usize)
        ensures
            r == word_count_of(text@),
    {
        let s = chars_of(text);
        let mut n: usize = 0;
        let mut k: usize = 0;
        while k < s.len()
            invariant
                k <= s@.len(),
                s@ == text@,
                n == word_count_of(s@.take(k as int)),
                n <= k,
            decreases s@.len() - k,
        {
            proof {
                let now = s@.take(k + 1);
                assert(now.drop_last() =~= s@.take(k as int));
            }
            if !is_whitespace(s[k]) && (k == 0 || is_whitespace(s[k - 1])) {
                n = n + 1;
            }
            k = k + 1;
        }
        assert(s@.take(s@.len() as int) =~= s@);
        n
    }

    /// The title: front matter `title`, else the first heading's text, else "Untitled Document".
    pub fn extract_title(&self, frontmatter: &FrontMatter, headings: &Vec<Heading>) -> (r: String)
        ensures
            r@ == title_of(frontmatter@, heading_views(headings@)),
    {
        let key = "title";
        proof {
            reveal_strlit("title");
            assert(key@ =~= title_key());
        }
        match frontmatter.get(key) {
            Some(t) => t.clone(),
            None => {
                if headings.len() > 0 {
                    headings[0].text.clone()
                } else {
                    let r = "Untitled Document".to_owned();
                    proof {
                        reveal_strlit("Untitled Document");
                        assert(r@ =~= untitled());
                    }
                    r
                }
            },
        }
    }

    /// The quality score, in hundredths, of a file with these headings and links.
    pub fn calculate_quality_score(
        &self,
        file: &ValidatedFile,
        headings: &Vec<Heading>,
        links: &Vec<Link>,
    ) -> (r: u32)
        ensures
            r == quality(
                file.validation_warnings@.len() as int,
                headings@.len() > 0,
                internal_count(link_views(links@)),
            ),
            r <= 100,
    {
        let mut internal: usize = 0;
        let mut k: usize = 0;
        while k < links.len()
            invariant
                k <= links@.len(),
                internal == internal_count(link_views(links@).take(k as int)),
                internal <= k,
            decreases links@.len() - k,
        {
            proof {
                let now = link_views(links@).take(k + 1);
                assert(now.drop_last() =~= link_views(links@).take(k as int));
            }
            if links[k].is_internal {
                internal = internal + 1;
            }
            k = k + 1;
        }
        assert(link_views(links@).take(links@.len() as int) =~= link_views(links@));
        let link_bonus: u64 = if internal >= 4 {
            20
        } else {
            5 * internal as u64
        };
        let heading_bonus: u64 = if headings.len() > 0 {
            10
        } else {
            0
        };
        let base: u64 = 100 + heading_bonus + link_bonus;
        let warnings = file.validation_warnings.len();
        let penalty: u64 = if warnings >= 13 {
            130
        } else {
            10 * warnings as u64
        };
        if penalty >= base {
            0
        } else if base - penalty > 100 {
            100
        } else {
            (base - penalty) as u32
        }
    }

    /// Processes each file in turn, all stamped alike.
    pub fn process_batch(
        &self,
        files: Vec<ValidatedFile>,
        processed_at: i64,
        processing_time_ms: u64,
    ) -> (r: Result<Vec<ProcessedDocument>, PipelineError>)
        ensures
            r matches Ok(docs) && docs@.len() == files@.len() && forall|i: int|
                0 <= i < files@.len() ==> processed_model(#[trigger] docs@[i], files@[i]@)
                    && docs@[i].processing_metadata.processed_at == processed_at
                    && docs@[i].processing_metadata.processing_time_ms == processing_time_ms,
    {
        let ghost orig = files@;
        let total = files.len();
        let mut rest = files;
        let mut docs: Vec<ProcessedDocument> = Vec::new();
        let mut k: usize = 0;
        while rest.len() > 0
            invariant
                k + rest@.len() == orig.len(),
                orig.len() == total,
                rest@ == orig.skip(k as int),
                docs@.len() == k,
                forall|i: int|
                    0 <= i < k ==> processed_model(#[trigger] docs@[i], orig[i]@)
                        && docs@[i].processing_metadata.processed_at == processed_at
                        && docs@[i].processing_metadata.processing_time_ms == processing_time_ms,
            decreases rest@.len(),
        {
            let f = rest.remove(0);
            assert(f == orig[k as int]);
            assert(rest@ =~= orig.skip(k + 1));
            match self.process_file(f, processed_at, processing_time_ms) {
                Ok(d) => {
                    docs.push(d);
                },
                Err(_) => {},
            }
            k = k + 1;
        }
        Ok(docs)
    }

    /// Turns a validated file into its document record, stamped with the time of processing
    /// (seconds since the Unix epoch) and the milliseconds it took.
    pub fn process_file(&self, file: ValidatedFile, processed_at: i64, processing_time_ms: u64) -> (r:
        Result<ProcessedDocument, PipelineError>)
        ensures
            r matches Ok(d) && processed_from(d, file) && d.processing_metadata.processed_at
                == processed_at && d.processing_metadata.processing_time_ms == processing_time_ms,
    {
        let body = file.markdown_content.as_str();
        let headings = self.extract_headings(body);
        let links = self.extract_links(body);
        let images = self.extract_images(body);
        let code_blocks = self.extract_code_blocks(body);
        let word_count = self.count_words(body);
        let quality_score = self.calculate_quality_score(&file, &headings, &links);
        let title = self.extract_title(&file.frontmatter, &headings);
        let ghost f = file;
        let ValidatedFile { discovered, content: _, frontmatter, markdown_content, validation_warnings } = file;
        Ok(
            ProcessedDocument {
                file_path: discovered.path,
                title,
                content: markdown_content,
                frontmatter,
                word_count,
                headings,
                links,
                images,
                code_blocks,
                last_modified: None,
                processing_metadata: ProcessingMetadata {
                    processed_at,
                    processing_time_ms,
                    warnings: validation_warnings,
                    quality_score,
                },
            },
        )
    }
}

} // verus!
