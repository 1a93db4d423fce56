use vstd::prelude::*;

use crate::pipeline::{
    insert_entry, lookup, string_views, validated_views, DiscoveredFile,
    DiscoveredModel, FrontMatter, ValidatedFile, ValidatedModel,
};
use crate::processor::{close_open, push_all, title_key};
use crate::text::{
    chars_of, contains, contains_chars, decimal, find_chars, find_from, lemma_find_from_bounds,
    lines, push_decimal, slice_chars, split_lines, starts_with, starts_with_chars, string_of,
    strip_char, strip_chars, trim, trim_chars, views,
};

verus! {

pub open spec fn front_open() -> Seq<char> {
    seq!['-', '-', '-', '\n']
}

pub open spec fn front_close() -> Seq<char> {
    seq!['\n', '-', '-', '-', '\n']
}

pub open spec fn empty_link() -> Seq<char> {
    seq![']', '(', ')']
}

pub open spec fn parent_link() -> Seq<char> {
    seq![']', '(', '.', '.', '/']
}

/// The key and value of a `key: value` line: both trimmed, and the value stripped of
/// surrounding double, then single, quotes.
pub open spec fn yaml_pair(l: Seq<char>) -> Option<(Seq<char>, Seq<char>)> {
    match find_from(l, seq![':'], 0) {
        Some(i) => Some(
            (
                trim(l.subrange(0, i)),
                strip_char(strip_char(trim(l.subrange(i + 1, l.len() as int)), '"'), '\''),
            ),
        ),
        None => None,
    }
}

/// The entries that a sequence of `key: value` lines sets, a later line winning over an
/// earlier one with the same key; lines without `':'` are skipped.
pub open spec fn yaml_entries(ls: Seq<Seq<char>>) -> Seq<(Seq<char>, Seq<char>)>
    decreases ls.len(),
{
    if ls.len() == 0 {
        Seq::empty()
    } else {
        let e = yaml_entries(ls.drop_last());
        match yaml_pair(ls.last()) {
            Some(kv) => insert_entry(e, kv.0, kv.1),
            None => e,
        }
    }
}

/// The front matter that a block of `key: value` lines describes.
pub open spec fn front_matter_of(yaml: Seq<char>) -> Seq<(Seq<char>, Seq<char>)> {
    yaml_entries(lines(yaml))
}

/// A content's front-matter text and trimmed body, where it opens with a `---` line and a
/// later `---` line closes the block.
pub open spec fn split_front(c: Seq<char>) -> Option<(Seq<char>, Seq<char>)> {
    if starts_with(c, front_open()) {
        match find_from(c, front_close(), 4) {
            Some(p) => Some((c.subrange(4, p), trim(c.subrange(p + 4, c.len() as int)))),
            None => None,
        }
    } else {
        None
    }
}

/// The front matter and body of a file's content.
pub open spec fn separated(c: Seq<char>) -> (Seq<(Seq<char>, Seq<char>)>, Seq<char>) {
    match split_front(c) {
        Some((y, b)) => (front_matter_of(y), b),
        None => (Seq::empty(), c),
    }
}

/// The trimmed lines with an empty link target or one that climbs out with `../`.
pub open spec fn broken_in(ls: Seq<Seq<char>>) -> Seq<Seq<char>>
    decreases ls.len(),
{
    if ls.len() == 0 {
        Seq::empty()
    } else {
        let l = ls.last();
        broken_in(ls.drop_last()) + if contains(l, empty_link()) || contains(l, parent_link()) {
            seq![trim(l)]
        } else {
            Seq::empty()
        }
    }
}

/// The lines of a body that hold a link that is probably broken.
pub open spec fn broken_lines(body: Seq<char>) -> Seq<Seq<char>> {
    broken_in(lines(body))
}

pub open spec fn missing_title_warning() -> Seq<char> {
    "Missing title in frontmatter or as first heading"@
}

pub open spec fn too_short_warning() -> Seq<char> {
    "Content is too short, consider adding more information"@
}

/// The warning for `n` probably broken links.
pub open spec fn broken_links_warning(n: nat) -> Seq<char> {
    "Found "@ + decimal(n) + " potentially broken links"@
}

/// Whether a body with this front matter lacks a title.
pub open spec fn lacks_title(body: Seq<char>, fm: Seq<(Seq<char>, Seq<char>)>) -> bool {
    lookup(fm, title_key()) is None && !starts_with(body, seq!['#'])
}

/// Whether a body is shorter than 50 characters once trimmed.
pub open spec fn too_short(body: Seq<char>) -> bool {
    trim(body).len() < 50
}

/// The warnings for a body with this front matter: a missing title, a short body, and
/// probably broken links, in that order.
pub open spec fn warnings_of(body: Seq<char>, fm: Seq<(Seq<char>, Seq<char>)>) -> Seq<Seq<char>> {
    (if lacks_title(body, fm) {
        seq![missing_title_warning()]
    } else {
        Seq::empty()
    }) + (if too_short(body) {
        seq![too_short_warning()]
    } else {
        Seq::empty()
    }) + (if contains(body, close_open()) && broken_lines(body).len() > 0 {
        seq![broken_links_warning(broken_lines(body).len())]
    } else {
        Seq::empty()
    })
}

/// The validated record of a discovered file with this content.
pub open spec fn validated_of(d: DiscoveredModel, c: Seq<char>) -> ValidatedModel {
    let (fm, body) = separated(c);
    ValidatedModel { discovered: d, content: c, frontmatter: fm, body, warnings: warnings_of(body, fm) }
}

/// The content fetched for `path`: the first entry for it, when that holds content.
pub open spec fn fetched_for(fetched: Seq<(String, Option<String>)>, path: Seq<char>) -> Option<
    Seq<char>,
>
    decreases fetched.len(),
{
    if fetched.len() == 0 {
        None
    } else if fetched[0].0@ == path {
        match fetched[0].1 {
            Some(c) => Some(c@),
            None => None,
        }
    } else {
        fetched_for(fetched.drop_first(), path)
    }
}

/// The validated records of the files whose content was fetched, in order.
pub open spec fn batch_of(files: Seq<DiscoveredModel>, fetched: Seq<(String, Option<String>)>) -> Seq<
    ValidatedModel,
>
    decreases files.len(),
{
    if files.len() == 0 {
        Seq::empty()
    } else {
        let f = files.last();
        batch_of(files.drop_last(), fetched) + match fetched_for(fetched, f.path) {
            Some(c) => seq![validated_of(f, c)],
            None => Seq::empty(),
        }
    }
}

pub open spec fn discovered_views(v: Seq<DiscoveredFile>) -> Seq<DiscoveredModel> {
    v.map_values(|f: DiscoveredFile| f@)
}

fn vec_of4(a: char, b: char, c: char, d: char) -> (r: Vec<char>)
    ensures
        r@ == seq![a, b, c, d],
{
    let r = vec![a, b, c, d];
    assert(r@ =~= seq![a, b, c, d]);
    r
}

/// Separates front matter from body, checks the body, and reports heuristic warnings.
pub struct ContentValidator {}

impl ContentValidator {
    pub fn new() -> (r: ContentValidator) {
        ContentValidator {  }
    }

    fn yaml_pair_of_line(&self, l: &Vec<char>) -> (r: Option<(String, String)>)
        ensures
            r matches Some(kv) ==> yaml_pair(l@) == Some((kv.0@, kv.1@)),
            r is None ==> yaml_pair(l@) is None,
    {
        let colon = vec![':'];
        assert(colon@ =~= seq![':']);
        match find_chars(l, &colon, 0) {
            Some(i) => {
                proof {
                    lemma_find_from_bounds(l@, seq![':'], 0);
                }
                assert(i + 1 <= l.len());
                let key = trim_chars(&slice_chars(l, 0, i));
                let raw = trim_chars(&slice_chars(l, i + 1, l.len()));
                let value = strip_chars(&strip_chars(&raw, '"'), '\'');
                Some((string_of(&key), string_of(&value)))
            },
            None => None,
        }
    }

    /// The `key: value` pairs of a front-matter block.
    pub fn parse_yaml_frontmatter(&self, yaml_text: &str) -> (r: FrontMatter)
        ensures
            r@ == front_matter_of(yaml_text@),
            r.wf(),
    {
        let s = chars_of(yaml_text);
        let ls = split_lines(&s);
        let mut fm = FrontMatter::new();
        let mut k: usize = 0;
        while k < ls.len()
            invariant
                k <= ls@.len(),
                views(ls@) == lines(yaml_text@),
                fm.wf(),
                fm@ == yaml_entries(views(ls@).take(k as int)),
            decreases ls@.len() - k,
        {
            proof {
                let now = views(ls@).take(k + 1);
                assert(now.drop_last() =~= views(ls@).take(k as int));
                assert(now.last() == ls@[k as int]@);
            }
            match self.yaml_pair_of_line(&ls[k]) {
                Some(kv) => {
                    let (key, value) = kv;
                    fm.insert(key, value);
                },
                None => {},
            }
            k = k + 1;
        }
        assert(views(ls@).take(ls@.len() as int) =~= views(ls@));
        fm
    }

    /// Splits content into front matter and body; without a closed front-matter block the
    /// whole content is the body.
    pub fn parse_frontmatter(&self, content: &str) -> (r: (FrontMatter, String))
        ensures
            r.0@ == separated(content@).0,
            r.1@ == separated(content@).1,
            r.0.wf(),
    {
        let c = chars_of(content);
        let open = vec_of4('-', '-', '-', '\n');
        let mut close = vec_of4('\n', '-', '-', '-');
        close.push('\n');
        assert(close@ =~= front_close());
        if !starts_with_chars(&c, &open) {
            return (FrontMatter::new(), content.to_owned());
        }
        match find_chars(&c, &close, 4) {
            Some(p) => {
                proof {
                    lemma_find_from_bounds(c@, front_close(), 4);
                }
                assert(p + 5 <= c.len());
                let yaml = string_of(&slice_chars(&c, 4, p));
                let body = trim_chars(&slice_chars(&c, p + 4, c.len()));
                let fm = self.parse_yaml_frontmatter(yaml.as_str());
                (fm, string_of(&body))
            },
            None => (FrontMatter::new(), content.to_owned()),
        }
    }

    /// The trimmed lines of a body that hold `]()` or `](../`.
    pub fn find_potentially_broken_links(&self, markdown_content: &str) -> (r: Vec<String>)
        ensures
            string_views(r@) == broken_lines(markdown_content@),
    {
        let s = chars_of(markdown_content);
        let ls = split_lines(&s);
        let mut empty = vec![']', '('];
        empty.push(')');
        assert(empty@ =~= empty_link());
        let mut parent = vec_of4(']', '(', '.', '.');
        parent.push('/');
        assert(parent@ =~= parent_link());
        let mut r: Vec<String> = Vec::new();
        let mut k: usize = 0;
        while k < ls.len()
            invariant
                k <= ls@.len(),
                views(ls@) == lines(markdown_content@),
                empty@ == empty_link(),
                parent@ == parent_link(),
                string_views(r@) == broken_in(views(ls@).take(k as int)),
            decreases ls@.len() - k,
        {
            let ghost before = r@;
            proof {
                let now = views(ls@).take(k + 1);
                assert(now.drop_last() =~= views(ls@).take(k as int));
                assert(now.last() == ls@[k as int]@);
            }
            let line = &ls[k];
            if contains_chars(line, &empty) || contains_chars(line, &parent) {
                r.push(string_of(&trim_chars(line)));
                assert(string_views(r@) =~= string_views(before) + seq![r@.last()@]);
            } else {
                assert(string_views(r@) =~= string_views(before) + Seq::empty());
            }
            k = k + 1;
        }
        assert(views(ls@).take(ls@.len() as int) =~= views(ls@));
        r
    }

    /// The warnings for a body with this front matter.
    pub fn validate_content(&self, markdown_content: &str, frontmatter: &FrontMatter) -> (r: Vec<
        String,
    >)
        ensures
            string_views(r@) == warnings_of(markdown_content@, frontmatter@),
    {
        let s = chars_of(markdown_content);
        let mut r: Vec<String> = Vec::new();
        let hash = vec!['#'];
        assert(hash@ =~= seq!['#']);
        let key = "title";
        proof {
            reveal_strlit("title");
            assert(key@ =~= title_key());
        }
        let ghost w1: Seq<Seq<char>> = if lacks_title(s@, frontmatter@) {
            seq![missing_title_warning()]
        } else {
            Seq::empty()
        };
        if !frontmatter.contains_key(key) && !starts_with_chars(&s, &hash) {
            r.push("Missing title in frontmatter or as first heading".to_owned());
        }
        assert(string_views(r@) =~= w1);
        let ghost w2: Seq<Seq<char>> = if too_short(s@) {
            seq![too_short_warning()]
        } else {
            Seq::empty()
        };
        if trim_chars(&s).len() < 50 {
            r.push("Content is too short, consider adding more information".to_owned());
        }
        assert(string_views(r@) =~= w1 + w2);
        let co = vec![']', '('];
        assert(co@ =~= close_open());
        if contains_chars(&s, &co) {
            let broken = self.find_potentially_broken_links(markdown_content);
            if broken.len() > 0 {
                let mut m = chars_of("Found ");
                push_decimal(&mut m, broken.len());
                push_all(&mut m, &chars_of(" potentially broken links"));
                let ghost before = r@;
                r.push(string_of(&m));
                assert(string_views(r@) =~= string_views(before) + seq![
                    broken_links_warning(broken_lines(s@).len()),
                ]);
            }
        }
        assert(string_views(r@) =~= warnings_of(markdown_content@, frontmatter@));
        r
    }

    /// The validated record of a discovered file whose content was fetched.
    pub fn validate_file(&self, file: DiscoveredFile, content: String) -> (r: ValidatedFile)
        ensures
            r@ == validated_of(file@, content@),
    {
        let (frontmatter, markdown_content) = self.parse_frontmatter(content.as_str());
        let validation_warnings = self.validate_content(markdown_content.as_str(), &frontmatter);
        ValidatedFile { discovered: file, content, frontmatter, markdown_content, validation_warnings }
    }

    /// Validates each file whose content `fetched` holds, in order; a file without content is
    /// left out.
    pub fn validate_batch(
        &self,
        files: Vec<DiscoveredFile>,
        fetched: &Vec<(String, Option<String>)>,
    ) -> (r: Vec<ValidatedFile>)
        ensures
            validated_views(r@) == batch_of(discovered_views(files@), fetched@),
    {
        let mut r: Vec<ValidatedFile> = Vec::new();
        let mut k: usize = 0;
        while k < files.len()
            invariant
                k <= files@.len(),
                validated_views(r@) == batch_of(discovered_views(files@).take(k as int), fetched@),
            decreases files@.len() - k,
        {
            let ghost before = r@;
            proof {
                let now = discovered_views(files@).take(k + 1);
                assert(now.drop_last() =~= discovered_views(files@).take(k as int));
                assert(now.last() == files@[k as int]@);
            }
            let f = files[k].duplicate();
            match content_for(fetched, &f.path) {
                Some(c) => {
                    let v = self.validate_file(f, c);
                    r.push(v);
                    assert(validated_views(r@) =~= validated_views(before) + seq![r@.last()@]);
                },
                None => {
                    assert(validated_views(r@) =~= validated_views(before) + Seq::empty());
                },
            }
            k = k + 1;
        }
        assert(discovered_views(files@).take(files@.len() as int) =~= discovered_views(files@));
        r
    }
}

/// The content fetched for `path`, if any.
pub fn content_for(fetched: &Vec<(String, Option<String>)>, path: &String) -> (r: Option<String>)
    ensures
        r matches Some(c) ==> fetched_for(fetched@, path@) == Some(c@),
        r is None ==> fetched_for(fetched@, path@) is None,
{
    let mut k: usize = 0;
    assert(fetched@.skip(0) =~= fetched@);
    while k < fetched.len()
        invariant
            k <= fetched@.len(),
            fetched_for(fetched@, path@) == fetched_for(fetched@.skip(k as int), path@),
        decreases fetched@.len() - k,
    {
        let ghost rest = fetched@.skip(k as int);
        assert(rest.drop_first() =~= fetched@.skip(k + 1));
        if fetched[k].0 == *path {
            return match &fetched[k].1 {
                Some(c) => Some(c.clone()),
                None => None,
            };
        }
        k = k + 1;
    }
    None
}

} // verus!
