use vstd::prelude::*;

use crate::pipeline::{Heading, ProcessedDocument};
use crate::processor::push_all;
use crate::text::{chars_of, ends_with, string_of};
use crate::DocumentConfig;

verus! {

/// A navigation entry: a section or a link to a document, with entries below it.
pub struct NavNode {
    pub title: String,
    /// The URL; `None` for a purely structural section.
    pub path: Option<String>,
    pub children: Vec<NavNode>,
}

impl NavNode {
    /// An entry with no children.
    pub fn new(title: String, path: Option<String>) -> (r: NavNode)
        ensures
            r.title == title,
            r.path == path,
            r.children@.len() == 0,
    {
        NavNode { title, path, children: Vec::new() }
    }
}

/// A navigation tree and its HTML rendering.
pub struct NavigationArtifact {
    pub tree: NavNode,
    pub html: String,
}

/// Builds navigation from the declared document order.
pub struct NavigationFromConfigBuilder {
    pub url_prefix: String,
    /// When set, document entries also list their headings of level 2 up to this level.
    pub include_headings_max_level: Option<u8>,
}

pub open spec fn md_suffix() -> Seq<char> {
    seq!['.', 'm', 'd']
}

pub open spec fn index_suffix() -> Seq<char> {
    seq!['/', 'i', 'n', 'd', 'e', 'x']
}

pub open spec fn index_md() -> Seq<char> {
    seq!['i', 'n', 'd', 'e', 'x', '.', 'm', 'd']
}

/// `s` with every trailing repetition of `suf` removed, as `str::trim_end_matches` does.
pub open spec fn strip_suffixes(s: Seq<char>, suf: Seq<char>) -> Seq<char>
    decreases s.len(),
{
    if suf.len() > 0 && suf.len() <= s.len() && ends_with(s, suf) {
        strip_suffixes(s.subrange(0, s.len() - suf.len()), suf)
    } else {
        s
    }
}

/// `s` with each run of `'/'` reduced to one.
pub open spec fn collapse_slashes(s: Seq<char>) -> Seq<char>
    decreases s.len(),
{
    if s.len() == 0 {
        Seq::empty()
    } else {
        let c = collapse_slashes(s.drop_last());
        if s.last() == '/' && c.len() > 0 && c.last() == '/' {
            c
        } else {
            c.push(s.last())
        }
    }
}

/// The URL of a repository-relative document path under `prefix`: the `.md` extension
/// dropped, a trailing `/index` (or a bare `index.md`) made a trailing `/`, runs of slashes
/// collapsed, and a single leading slash.
pub open spec fn url_of(prefix: Seq<char>, path: Seq<char>) -> Seq<char> {
    let w = strip_suffixes(path, md_suffix());
    let raw = if ends_with(w, index_suffix()) || path == index_md() {
        let u = prefix + seq!['/'] + strip_suffixes(w, index_suffix());
        if u.len() > 0 && u.last() == '/' {
            u
        } else {
            u.push('/')
        }
    } else {
        prefix + seq!['/'] + w
    };
    let c = collapse_slashes(raw);
    if c.len() > 0 && c[0] == '/' {
        c
    } else {
        seq!['/'] + c
    }
}

/// Whether an optional URL is present and is `u`.
pub open spec fn link_is(p: Option<String>, u: Seq<char>) -> bool {
    match p {
        Some(s) => s@ == u,
        None => false,
    }
}

/// Index of the first processed document with this path.
pub open spec fn find_doc(docs: Seq<ProcessedDocument>, p: Seq<char>) -> Option<int>
    decreases docs.len(),
{
    if docs.len() == 0 {
        None
    } else {
        match find_doc(docs.drop_last(), p) {
            Some(i) => Some(i),
            None => if docs.last().file_path@ == p {
                Some(docs.len() - 1)
            } else {
                None
            },
        }
    }
}

/// Whether an entry stays in the navigation: it names no file, or one that was processed.
pub open spec fn kept(d: DocumentConfig, docs: Seq<ProcessedDocument>) -> bool {
    match d.path {
        Some(p) => find_doc(docs, p@) is Some,
        None => true,
    }
}

/// The title and URL of each heading of level 2 up to `max`, in order.
pub open spec fn heading_items(hs: Seq<Heading>, max: u8, url: Seq<char>) -> Seq<
    (Seq<char>, Seq<char>),
>
    decreases hs.len(),
{
    if hs.len() == 0 {
        Seq::empty()
    } else {
        let h = hs.last();
        heading_items(hs.drop_last(), max, url) + if 2 <= h.level && h.level <= max {
            seq![(h.text@, url + seq!['#'] + h.anchor@)]
        } else {
            Seq::empty()
        }
    }
}

/// The heading entries that a document entry lists first.
pub open spec fn heading_entries(
    prefix: Seq<char>,
    max: Option<u8>,
    d: DocumentConfig,
    docs: Seq<ProcessedDocument>,
) -> Seq<(Seq<char>, Seq<char>)> {
    match (max, d.path) {
        (Some(m), Some(p)) => match find_doc(docs, p@) {
            Some(i) => heading_items(docs[i].headings@, m, url_of(prefix, p@)),
            None => Seq::empty(),
        },
        _ => Seq::empty(),
    }
}

/// Whether `n` is the navigation entry of `d`: its title, its URL, its heading entries, then
/// the entries of its kept children in declared order.
pub open spec fn nav_matches(
    prefix: Seq<char>,
    max: Option<u8>,
    n: NavNode,
    d: DocumentConfig,
    docs: Seq<ProcessedDocument>,
) -> bool
    decreases d, 0nat,
{
    let hs = heading_entries(prefix, max, d, docs);
    &&& n.title@ == d.title@
    &&& match (n.path, d.path) {
        (Some(u), Some(p)) => u@ == url_of(prefix, p@),
        (None, None) => true,
        _ => false,
    }
    &&& n.children@.len() >= hs.len()
    &&& forall|i: int|
        0 <= i < hs.len() ==> (#[trigger] n.children@[i]).title@ == hs[i].0
            && link_is(n.children@[i].path, hs[i].1)
            && n.children@[i].children@.len() == 0
    &&& match d.sub_documents {
        Some(v) => children_match(prefix, max, n.children@.skip(hs.len() as int), v, v.len() as int, docs),
        None => n.children@.len() == hs.len(),
    }
}

/// Whether `ns` are the entries of the kept ones among the first `k` entries of `v`.
pub open spec fn children_match(
    prefix: Seq<char>,
    max: Option<u8>,
    ns: Seq<NavNode>,
    v: Vec<DocumentConfig>,
    k: int,
    docs: Seq<ProcessedDocument>,
) -> bool
    decreases v, k,
{
    if k <= 0 || k > v.len() {
        ns.len() == 0
    } else if kept(v[k - 1], docs) {
        ns.len() > 0 && nav_matches(prefix, max, ns.last(), v[k - 1], docs) && children_match(
            prefix,
            max,
            ns.drop_last(),
            v,
            k - 1,
            docs,
        )
    } else {
        children_match(prefix, max, ns, v, k - 1, docs)
    }
}

/// The title and URL of each kept entry among the first `k` entries of `v`, in declared order.
pub open spec fn kept_heads(
    prefix: Seq<char>,
    v: Vec<DocumentConfig>,
    k: int,
    docs: Seq<ProcessedDocument>,
) -> Seq<(Seq<char>, Option<Seq<char>>)>
    decreases k,
{
    if k <= 0 || k > v.len() {
        Seq::empty()
    } else {
        kept_heads(prefix, v, k - 1, docs) + if kept(v[k - 1], docs) {
            seq![
                (v[k - 1].title@, match v[k - 1].path {
                    Some(p) => Some(url_of(prefix, p@)),
                    None => None,
                }),
            ]
        } else {
            Seq::empty()
        }
    }
}

/// The title and URL of each navigation entry.
pub open spec fn node_heads(ns: Seq<NavNode>) -> Seq<(Seq<char>, Option<Seq<char>>)> {
    ns.map_values(
        |n: NavNode|
            (n.title@, match n.path {
                Some(u) => Some(u@),
                None => None,
            }),
    )
}

/// Navigation keeps exactly the declared entries that name no file or a processed one, in
/// their declared order, never re-sorted: an entry whose file was not processed is left out
/// and its siblings keep their order.
pub proof fn lemma_navigation_prunes_in_order(
    prefix: Seq<char>,
    max: Option<u8>,
    ns: Seq<NavNode>,
    v: Vec<DocumentConfig>,
    k: int,
    docs: Seq<ProcessedDocument>,
)
    requires
        children_match(prefix, max, ns, v, k, docs),
    ensures
        node_heads(ns) == kept_heads(prefix, v, k, docs),
    decreases k,
{
    if k <= 0 || k > v.len() {
        assert(node_heads(ns) =~= Seq::<(Seq<char>, Option<Seq<char>>)>::empty());
    } else if kept(v[k - 1], docs) {
        lemma_navigation_prunes_in_order(prefix, max, ns.drop_last(), v, k - 1, docs);
        let n = ns.last();
        let d = v[k - 1];
        assert(nav_matches(prefix, max, n, d, docs));
        assert(n.title@ == d.title@);
        assert((match n.path {
            Some(u) => Some(u@),
            None => None,
        }) == (match d.path {
            Some(p) => Some(url_of(prefix, p@)),
            None => None,
        }));
        assert(node_heads(ns).last() == (d.title@, match d.path {
            Some(p) => Some(url_of(prefix, p@)),
            None => None,
        }));
        assert(node_heads(ns) =~= node_heads(ns.drop_last()).push(node_heads(ns).last()));
        assert(node_heads(ns) =~= kept_heads(prefix, v, k, docs));
    } else {
        lemma_navigation_prunes_in_order(prefix, max, ns, v, k - 1, docs);
        assert(kept_heads(prefix, v, k, docs) =~= kept_heads(prefix, v, k - 1, docs));
    }
}

fn chars4(a: char, b: char, c: char, d: char) -> (r: Vec<char>)
    ensures
        r@ == seq![a, b, c, d],
{
    let r = vec![a, b, c, d];
    assert(r@ =~= seq![a, b, c, d]);
    r
}

/// `s` with every trailing repetition of `suf` removed.
fn strip_all(s: &Vec<char>, suf: &Vec<char>) -> (r: Vec<char>)
    ensures
        r@ == strip_suffixes(s@, suf@),
{
    let mut end: usize = s.len();
    assert(s@.subrange(0, end as int) =~= s@);
    while suf.len() > 0 && suf.len() <= end && crate::text::matches_at(s, suf, end - suf.len())
        invariant
            end <= s@.len(),
            strip_suffixes(s@, suf@) == strip_suffixes(s@.subrange(0, end as int), suf@),
        decreases end,
    {
        let ghost t = s@.subrange(0, end as int);
        assert(t.subrange(t.len() - suf@.len(), t.len() as int) =~= s@.subrange(
            end - suf@.len(),
            end as int,
        ));
        assert(t.subrange(0, t.len() - suf@.len()) =~= s@.subrange(0, end - suf@.len()));
        end = end - suf.len();
    }
    let ghost t = s@.subrange(0, end as int);
    if suf.len() > 0 && suf.len() <= end {
        assert(t.subrange(t.len() - suf@.len(), t.len() as int) =~= s@.subrange(
            end - suf@.len(),
            end as int,
        ));
    }
    crate::text::slice_chars(s, 0, end)
}

/// `s` with each run of `'/'` reduced to one.
fn collapse(s: &Vec<char>) -> (r: Vec<char>)
    ensures
        r@ == collapse_slashes(s@),
{
    let mut r: Vec<char> = Vec::new();
    let mut k: usize = 0;
    while k < s.len()
        invariant
            k <= s@.len(),
            r@ == collapse_slashes(s@.take(k as int)),
        decreases s@.len() - k,
    {
        proof {
            assert(s@.take(k + 1).drop_last() =~= s@.take(k as int));
        }
        let c = s[k];
        if !(c == '/' && r.len() > 0 && r[r.len() - 1] == '/') {
            r.push(c);
        }
        k = k + 1;
    }
    assert(s@.take(s@.len() as int) =~= s@);
    r
}

impl NavigationFromConfigBuilder {
    /// A builder with no URL prefix that lists no headings.
    pub fn default() -> (r: NavigationFromConfigBuilder)
        ensures
            r.url_prefix@.len() == 0,
            r.include_headings_max_level is None,
    {
        NavigationFromConfigBuilder { url_prefix: string_of(&Vec::new()), include_headings_max_level: None }
    }

    /// The URL of a repository-relative document path.
    pub fn url_for(&self, repo_rel_path: &str) -> (r: String)
        ensures
            r@ == url_of(self.url_prefix@, repo_rel_path@),
    {
        let path = chars_of(repo_rel_path);
        let mut md = vec!['.', 'm', 'd'];
        assert(md@ =~= md_suffix());
        let mut index = chars4('/', 'i', 'n', 'd');
        index.push('e');
        index.push('x');
        assert(index@ =~= index_suffix());
        let mut bare_index = chars4('i', 'n', 'd', 'e');
        bare_index.push('x');
        push_all(&mut bare_index, &md);
        assert(bare_index@ =~= index_md());
        let w = strip_all(&path, &md);
        let ends_index = index.len() <= w.len() && crate::text::matches_at(
            &w,
            &index,
            w.len() - index.len(),
        );
        assert(ends_index == ends_with(w@, index_suffix()));
        let is_bare = crate::path_normalization::same_chars(&path, &bare_index);
        let mut u = chars_of(self.url_prefix.as_str());
        u.push('/');
        let ghost base = self.url_prefix@ + seq!['/'];
        assert(u@ =~= base);
        if ends_index || is_bare {
            let stripped = strip_all(&w, &index);
            push_all(&mut u, &stripped);
            assert(u@ =~= self.url_prefix@ + seq!['/'] + strip_suffixes(w@, index_suffix()));
            if !(u.len() > 0 && u[u.len() - 1] == '/') {
                u.push('/');
            }
        } else {
            push_all(&mut u, &w);
            assert(u@ =~= self.url_prefix@ + seq!['/'] + w@);
        }
        let c = collapse(&u);
        if c.len() > 0 && c[0] == '/' {
            string_of(&c)
        } else {
            let mut out = vec!['/'];
            push_all(&mut out, &c);
            assert(out@ =~= seq!['/'] + c@);
            string_of(&out)
        }
    }

    /// Index of the first processed document with path `p`.
    fn find_document(docs: &Vec<ProcessedDocument>, p: &String) -> (r: Option<usize>)
        ensures
            r matches Some(i) ==> find_doc(docs@, p@) == Some(i as int) && i < docs@.len(),
            r is None ==> find_doc(docs@, p@) is None,
    {
        let mut k: usize = 0;
        while k < docs.len()
            invariant
                k <= docs@.len(),
                find_doc(docs@.take(k as int), p@) is None,
            decreases docs@.len() - k,
        {
            proof {
                assert(docs@.take(k + 1).drop_last() =~= docs@.take(k as int));
            }
            if docs[k].file_path == *p {
                proof {
                    lemma_find_doc_prefix(docs@, k as int + 1, p@);
                }
                return Some(k);
            }
            k = k + 1;
        }
        assert(docs@.take(docs@.len() as int) =~= docs@);
        None
    }

    /// The heading entries of a document, given its URL.
    fn heading_nodes(hs: &Vec<Heading>, max: u8, url: &String, out: &mut Vec<NavNode>)
        ensures
            final(out)@.len() == old(out)@.len() + heading_items(hs@, max, url@).len(),
            forall|i: int| 0 <= i < old(out)@.len() ==> final(out)@[i] == old(out)@[i],
            forall|i: int|
                0 <= i < heading_items(hs@, max, url@).len() ==> (#[trigger] final(out)@[old(out)@.len() + i]).title@ == heading_items(hs@, max, url@)[i].0 && final(out)@[old(out)@.len() + i].path is Some && link_is(final(out)@[old(out)@.len() + i].path, heading_items(hs@, max, url@)[i].1)
                    && final(out)@[old(out)@.len() + i].children@.len() == 0,
    {
        let ghost start = out@;
        let mut k: usize = 0;
        while k < hs.len()
            invariant
                k <= hs@.len(),
                out@.len() == start.len() + heading_items(hs@.take(k as int), max, url@).len(),
                forall|i: int| 0 <= i < start.len() ==> out@[i] == start[i],
                forall|i: int|
                    0 <= i < heading_items(hs@.take(k as int), max, url@).len() ==> (#[trigger] out@[start.len()
                        + i]).title@ == heading_items(hs@.take(k as int), max, url@)[i].0
                        && link_is(out@[start.len() + i].path, heading_items(
                        hs@.take(k as int),
                        max,
                        url@,
                    )[i].1) && out@[start.len() + i].children@.len() == 0,
            decreases hs@.len() - k,
        {
            let ghost prev = heading_items(hs@.take(k as int), max, url@);
            proof {
                assert(hs@.take(k + 1).drop_last() =~= hs@.take(k as int));
            }
            let h = &hs[k];
            if 2 <= h.level && h.level <= max {
                let mut u = chars_of(url.as_str());
                u.push('#');
                push_all(&mut u, &chars_of(h.anchor.as_str()));
                let link = string_of(&u);
                assert(link@ =~= url@ + seq!['#'] + h.anchor@);
                let ghost before = out@;
                out.push(NavNode::new(h.text.clone(), Some(link)));
                proof {
                    let now = heading_items(hs@.take(k + 1), max, url@);
                    assert(now =~= prev.push((h.text@, url@ + seq!['#'] + h.anchor@)));
                    assert forall|i: int| 0 <= i < now.len() implies (#[trigger] out@[start.len()
                        + i]).title@ == now[i].0 && link_is(out@[start.len() + i].path, now[i].1) && out@[start.len() + i].children@.len() == 0 by {
                        if i < prev.len() {
                            assert(out@[start.len() + i] == before[start.len() + i]);
                        }
                    }
                }
            } else {
                proof {
                    let now = heading_items(hs@.take(k + 1), max, url@);
                    assert(now =~= prev);
                }
            }
            k = k + 1;
        }
        assert(hs@.take(hs@.len() as int) =~= hs@);
    }

    /// The entry of `cfg`, or `None` where it names a file that was not processed.
    fn build_node(&self, cfg: &DocumentConfig, docs: &Vec<ProcessedDocument>) -> (r: Option<NavNode>)
        ensures
            r is Some <==> kept(*cfg, docs@),
            r matches Some(n) ==> nav_matches(
                self.url_prefix@,
                self.include_headings_max_level,
                n,
                *cfg,
                docs@,
            ),
        decreases *cfg, 0nat,
    {
        let ghost prefix = self.url_prefix@;
        let ghost max = self.include_headings_max_level;
        let ghost hs = heading_entries(prefix, max, *cfg, docs@);
        let mut nav = NavNode::new(cfg.title.clone(), None);
        match &cfg.path {
            Some(p) => {
                let i = match Self::find_document(docs, p) {
                    Some(i) => i,
                    None => {
                        return None;
                    },
                };
                let u = self.url_for(p.as_str());
                match self.include_headings_max_level {
                    Some(m) => {
                        Self::heading_nodes(&docs[i].headings, m, &u, &mut nav.children);
                        assert(hs == heading_items(docs@[i as int].headings@, m, u@));
                        assert forall|j: int| 0 <= j < hs.len() implies (#[trigger] nav.children@[j]).title@
                            == hs[j].0 && link_is(nav.children@[j].path, hs[j].1)
                            && nav.children@[j].children@.len() == 0 by {
                            assert(nav.children@[0 + j] == nav.children@[j]);
                        }
                    },
                    None => {},
                }
                nav.path = Some(u);
            },
            None => {},
        }
        assert(nav.children@.len() == hs.len());
        assert(forall|i: int|
            0 <= i < hs.len() ==> (#[trigger] nav.children@[i]).title@ == hs[i].0 && link_is(
                nav.children@[i].path,
                hs[i].1,
            ) && nav.children@[i].children@.len() == 0);
        assert(match (nav.path, cfg.path) {
            (Some(u), Some(p)) => u@ == url_of(prefix, p@),
            (None, None) => true,
            _ => false,
        });
        let ghost heads = nav.children@;
        let ghost path_now = nav.path;
        match &cfg.sub_documents {
            Some(subs) => {
                let mut k: usize = 0;
                assert(nav.children@.skip(hs.len() as int) =~= Seq::<NavNode>::empty());
                while k < subs.len()
                    invariant
                        k <= subs@.len(),
                        cfg.sub_documents == Some(*subs),
                        prefix == self.url_prefix@,
                        max == self.include_headings_max_level,
                        nav.children@.len() >= hs.len(),
                        heads.len() == hs.len(),
                        forall|i: int| 0 <= i < hs.len() ==> nav.children@[i] == heads[i],
                        forall|i: int|
                            0 <= i < hs.len() ==> (#[trigger] heads[i]).title@ == hs[i].0 && link_is(
                                heads[i].path,
                                hs[i].1,
                            ) && heads[i].children@.len() == 0,
                        nav.title@ == cfg.title@,
                        nav.path == path_now,
                        children_match(
                            prefix,
                            max,
                            nav.children@.skip(hs.len() as int),
                            *subs,
                            k as int,
                            docs@,
                        ),
                    decreases subs@.len() - k,
                {
                    proof {
                        vstd::std_specs::vec::axiom_vec_index_decreases(*subs, k as int);
                        assert(decreases_to!(*cfg => cfg.sub_documents));
                        assert(decreases_to!(cfg.sub_documents => cfg.sub_documents->Some_0));
                    }
                    let ghost before = nav.children@;
                    match self.build_node(&subs[k], docs) {
                        Some(child) => {
                            nav.children.push(child);
                            assert(nav.children@.skip(hs.len() as int).drop_last() =~= before.skip(
                                hs.len() as int,
                            ));
                            assert(nav.children@.skip(hs.len() as int).last() == nav.children@.last());
                        },
                        None => {},
                    }
                    k = k + 1;
                }
                assert forall|i: int|
                    0 <= i < hs.len() implies (#[trigger] nav.children@[i]).title@ == hs[i].0 && link_is(
                        nav.children@[i].path,
                        hs[i].1,
                    ) && nav.children@[i].children@.len() == 0 by {
                    assert(nav.children@[i] == heads[i]);
                }
            },
            None => {},
        }
        Some(nav)
    }

    /// The navigation tree of the declared entries, in declared order, without entries that
    /// name files that were not processed; and its HTML rendering.
    pub fn build(&self, ordered_roots: &Vec<DocumentConfig>, processed_docs: &Vec<ProcessedDocument>) -> (r:
        NavigationArtifact)
        ensures
            r.tree.title@ == seq!['r', 'o', 'o', 't'],
            r.tree.path is None,
            children_match(
                self.url_prefix@,
                self.include_headings_max_level,
                r.tree.children@,
                *ordered_roots,
                ordered_roots@.len() as int,
                processed_docs@,
            ),
            r.html@ == nav_html(r.tree),
    {
        let mut root = NavNode::new(string_of(&chars4('r', 'o', 'o', 't')), None);
        let mut k: usize = 0;
        while k < ordered_roots.len()
            invariant
                k <= ordered_roots@.len(),
                root.title@ == seq!['r', 'o', 'o', 't'],
                root.path is None,
                children_match(
                    self.url_prefix@,
                    self.include_headings_max_level,
                    root.children@,
                    *ordered_roots,
                    k as int,
                    processed_docs@,
                ),
            decreases ordered_roots@.len() - k,
        {
            let ghost before = root.children@;
            match self.build_node(&ordered_roots[k], processed_docs) {
                Some(n) => {
                    root.children.push(n);
                    assert(root.children@.drop_last() =~= before);
                },
                None => {},
            }
            k = k + 1;
        }
        let html = render_html_nav(&root);
        NavigationArtifact { tree: root, html }
    }
}

fn url_text(p: &Option<String>) -> (r: Option<&String>)
    ensures
        match p {
            Some(s) => r == Some(s),
            None => r is None,
        },
{
    match p {
        Some(s) => Some(s),
        None => None,
    }
}

pub proof fn lemma_find_doc_prefix(docs: Seq<ProcessedDocument>, k: int, p: Seq<char>)
    requires
        0 < k <= docs.len(),
        find_doc(docs.take(k - 1), p) is None,
        docs[k - 1].file_path@ == p,
    ensures
        find_doc(docs, p) == Some(k - 1),
    decreases docs.len() - k,
{
    assert(docs.take(k).drop_last() =~= docs.take(k - 1));
    if k == docs.len() {
        assert(docs.take(k) =~= docs);
    } else {
        lemma_find_doc_prefix_more(docs, k, p, k - 1);
    }
}

proof fn lemma_find_doc_prefix_more(docs: Seq<ProcessedDocument>, k: int, p: Seq<char>, j: int)
    requires
        0 < k <= docs.len(),
        find_doc(docs.take(k), p) == Some(j),
    ensures
        find_doc(docs, p) == Some(j),
    decreases docs.len() - k,
{
    if k == docs.len() {
        assert(docs.take(k) =~= docs);
    } else {
        assert(docs.take(k + 1).drop_last() =~= docs.take(k));
        lemma_find_doc_prefix_more(docs, k + 1, p, j);
    }
}

/// What `html_escape::encode_text` makes of a character: `&`, `<` and `>` become entities.
pub open spec fn escape_char(c: char) -> Seq<char> {
    if c == '&' {
        seq!['&', 'a', 'm', 'p', ';']
    } else if c == '<' {
        seq!['&', 'l', 't', ';']
    } else if c == '>' {
        seq!['&', 'g', 't', ';']
    } else {
        seq![c]
    }
}

/// Text with `&`, `<` and `>` escaped.
pub open spec fn escaped(s: Seq<char>) -> Seq<char>
    decreases s.len(),
{
    if s.len() == 0 {
        Seq::empty()
    } else {
        escaped(s.drop_last()) + escape_char(s.last())
    }
}

/// Relies on `html_escape::encode_text`, which escapes `&`, `<` and `>` and keeps every other
/// character.
#[verifier::external_body]
fn encode_text(s: &str) -> (r: String)
    ensures
        r@ == escaped(s@),
{
    html_escape::encode_text(s).into_owned()
}

pub open spec fn item_open() -> Seq<char> {
    "<li class=\"docs-nav__item\"><a class=\"docs-nav__link\" href=\""@
}

pub open spec fn item_mid() -> Seq<char> {
    "\">"@
}

pub open spec fn item_close() -> Seq<char> {
    "</a>\n"@
}

pub open spec fn section_open() -> Seq<char> {
    "<li class=\"docs-nav__section\"><span class=\"docs-nav__section-title\">"@
}

pub open spec fn section_close() -> Seq<char> {
    "</span>\n"@
}

pub open spec fn list_open() -> Seq<char> {
    "  <ul class=\"docs-nav__list\">\n"@
}

pub open spec fn list_close() -> Seq<char> {
    "  </ul>\n"@
}

pub open spec fn item_end() -> Seq<char> {
    "</li>\n"@
}

pub open spec fn four_spaces() -> Seq<char> {
    seq![' ', ' ', ' ', ' ']
}

/// The first line of an entry's HTML: a link, or a section title.
pub open spec fn head_html(n: NavNode) -> Seq<char> {
    match n.path {
        Some(href) => item_open() + escaped(href@) + item_mid() + escaped(n.title@) + item_close(),
        None => section_open() + escaped(n.title@) + section_close(),
    }
}

/// The HTML of an entry indented by `pad`, and of the entries below it, each level four
/// spaces deeper.
pub open spec fn node_html(n: NavNode, pad: Seq<char>) -> Seq<char>
    decreases n, 0nat,
{
    let head = pad + head_html(n);
    if n.children@.len() > 0 {
        head + seq!['\n'] + pad + list_open() + nodes_html(
            n.children,
            n.children@.len() as int,
            pad + four_spaces(),
        ) + pad + list_close() + pad + item_end()
    } else {
        head + item_end()
    }
}

/// The HTML of the first `k` entries of `v`.
pub open spec fn nodes_html(v: Vec<NavNode>, k: int, pad: Seq<char>) -> Seq<char>
    decreases v, k,
{
    if k <= 0 || k > v.len() {
        Seq::empty()
    } else {
        nodes_html(v, k - 1, pad) + node_html(v[k - 1], pad)
    }
}

/// The HTML of a navigation tree: its root is synthetic, its children are the top-level list.
pub open spec fn nav_html(root: NavNode) -> Seq<char> {
    "<nav class=\"docs-nav\">\n"@ + list_open() + nodes_html(
        root.children,
        root.children@.len() as int,
        four_spaces(),
    ) + list_close() + "</nav>\n"@
}

fn push_str(out: &mut Vec<char>, s: &str)
    ensures
        final(out)@ == old(out)@ + s@,
{
    push_all(out, &chars_of(s));
}

fn push_head(node: &NavNode, out: &mut Vec<char>)
    ensures
        final(out)@ == old(out)@ + head_html(*node),
{
    let ghost start = out@;
    let title = encode_text(node.title.as_str());
    match &node.path {
        Some(href) => {
            push_str(out, "<li class=\"docs-nav__item\"><a class=\"docs-nav__link\" href=\"");
            push_str(out, encode_text(href.as_str()).as_str());
            push_str(out, "\">");
            push_str(out, title.as_str());
            push_str(out, "</a>\n");
        },
        None => {
            push_str(
                out,
                "<li class=\"docs-nav__section\"><span class=\"docs-nav__section-title\">",
            );
            push_str(out, title.as_str());
            push_str(out, "</span>\n");
        },
    }
    assert(out@ =~= start + head_html(*node));
}

#[verifier::rlimit(50)]
fn render_node(node: &NavNode, pad: &Vec<char>, out: &mut Vec<char>)
    ensures
        final(out)@ == old(out)@ + node_html(*node, pad@),
    decreases *node, 0nat,
{
    let ghost start = out@;
    push_all(out, pad);
    push_head(node, out);
    let ghost head = pad@ + head_html(*node);
    assert(out@ =~= start + head);
    if node.children.len() > 0 {
        out.push('\n');
        push_all(out, pad);
        push_str(out, "  <ul class=\"docs-nav__list\">\n");
        let mut deeper = crate::text::slice_chars(pad, 0, pad.len());
        assert(pad@.subrange(0, pad@.len() as int) =~= pad@);
        let four = vec![' ', ' ', ' ', ' '];
        assert(four@ =~= four_spaces());
        push_all(&mut deeper, &four);
        let ghost mid = out@;
        let mut k: usize = 0;
        assert(out@ =~= mid + nodes_html(node.children, 0, deeper@));
        while k < node.children.len()
            invariant
                k <= node.children@.len(),
                out@ == mid + nodes_html(node.children, k as int, deeper@),
            decreases node.children@.len() - k,
        {
            proof {
                vstd::std_specs::vec::axiom_vec_index_decreases(node.children, k as int);
                assert(decreases_to!(*node => node.children));
            }
            render_node(&node.children[k], &deeper, out);
            k = k + 1;
            assert(out@ =~= mid + nodes_html(node.children, k as int, deeper@));
        }
        assert(deeper@ =~= pad@ + four_spaces());
        push_all(out, pad);
        push_str(out, "  </ul>\n");
        push_all(out, pad);
        push_str(out, "</li>\n");
        assert(out@ =~= start + node_html(*node, pad@));
    } else {
        push_str(out, "</li>\n");
        assert(out@ =~= start + node_html(*node, pad@));
    }
}

/// The HTML of a navigation tree.
pub fn render_html_nav(root: &NavNode) -> (r: String)
    ensures
        r@ == nav_html(*root),
{
    let mut out: Vec<char> = Vec::new();
    push_str(&mut out, "<nav class=\"docs-nav\">\n");
    push_str(&mut out, "  <ul class=\"docs-nav__list\">\n");
    let pad = vec![' ', ' ', ' ', ' '];
    assert(pad@ =~= four_spaces());
    let ghost mid = out@;
    let mut k: usize = 0;
    assert(out@ =~= mid + nodes_html(root.children, 0, pad@));
    while k < root.children.len()
        invariant
            k <= root.children@.len(),
            pad@ == four_spaces(),
            out@ == mid + nodes_html(root.children, k as int, pad@),
        decreases root.children@.len() - k,
    {
        render_node(&root.children[k], &pad, &mut out);
        k = k + 1;
        assert(out@ =~= mid + nodes_html(root.children, k as int, pad@));
    }
    push_str(&mut out, "  </ul>\n");
    push_str(&mut out, "</nav>\n");
    assert(out@ =~= nav_html(*root));
    string_of(&out)
}

} // verus!
