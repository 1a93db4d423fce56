//! A pipeline that turns the markdown documents of a repository into structured records:
//! discovery by configured path and by pattern, front-matter separation and warnings,
//! extraction of headings, links, images and code blocks with a bounded quality score, and a
//! navigation tree in declared order. Remote calls are made by the caller; the decisions
//! around them (quota waits, retries, pagination, batching, directory walks, run stages) are
//! state machines here.

use vstd::prelude::*;

pub mod access;
pub mod config;
pub mod discovery;
pub mod navigation;
pub mod output;
pub mod path_normalization;
pub mod pipeline;
pub mod processor;
pub mod text;
pub mod validate_config;
pub mod validation;

verus! {

/// One entry of the declared document tree: a title, an optional repository-relative path,
/// and nested entries in their declared order.
pub struct DocumentConfig {
    pub title: String,
    pub path: Option<String>,
    pub sub_documents: Option<Vec<DocumentConfig>>,
}

/// The project's name and description.
pub struct ProjectDetails {
    pub name: String,
    pub description: String,
}

/// The configuration of a documented project: its details and its document tree, keyed by
/// configuration key in declared order.
pub struct ProjectConfig {
    pub project: ProjectDetails,
    pub documents: Vec<(String, DocumentConfig)>,
}

impl ProjectConfig {
    /// No key names two entries.
    pub open spec fn wf(&self) -> bool {
        forall|i: int, j: int|
            0 <= i < j < self.documents@.len() ==> self.documents@[i].0@ != self.documents@[j].0@
    }

    /// A configuration with no documents yet.
    pub fn new(project: ProjectDetails) -> (r: ProjectConfig)
        ensures
            r.wf(),
            r.project == project,
            r.documents@.len() == 0,
    {
        ProjectConfig { project, documents: Vec::new() }
    }

    /// Sets the entry under `key`: an existing key keeps its place in the declared order and
    /// takes the new entry, a new key goes last.
    pub fn insert_document(&mut self, key: String, document: DocumentConfig)
        requires
            old(self).wf(),
        ensures
            final(self).wf(),
            final(self).project == old(self).project,
            (exists|i: int| 0 <= i < old(self).documents@.len() && old(self).documents@[i].0@ == key@)
                ==> (exists|i: int|
                0 <= i < old(self).documents@.len() && old(self).documents@[i].0@ == key@
                    && final(self).documents@ == old(self).documents@.update(i, (key, document))),
            !(exists|i: int| 0 <= i < old(self).documents@.len() && old(self).documents@[i].0@ == key@)
                ==> final(self).documents@ == old(self).documents@.push((key, document)),
    {
        let mut k: usize = 0;
        while k < self.documents.len()
            invariant
                k <= self.documents@.len(),
                self.documents@ == old(self).documents@,
                self.project == old(self).project,
                self.wf(),
                forall|j: int| 0 <= j < k ==> self.documents@[j].0@ != key@,
            decreases self.documents@.len() - k,
        {
            if self.documents[k].0 == key {
                let ghost before = self.documents@;
                assert(before[k as int].0@ == key@);
                self.documents.set(k, (key, document));
                proof {
                    assert forall|i: int, j: int|
                        0 <= i < j < self.documents@.len() implies self.documents@[i].0@
                        != self.documents@[j].0@ by {
                        if i != k && j != k {
                            assert(self.documents@[i] == before[i] && self.documents@[j] == before[j]);
                        } else if i == k {
                            assert(before[i].0@ != before[j].0@);
                        } else {
                            assert(before[i].0@ != before[j].0@);
                        }
                    }
                }
                return;
            }
            k = k + 1;
        }
        let ghost before = self.documents@;
        self.documents.push((key, document));
        proof {
            assert forall|i: int, j: int|
                0 <= i < j < self.documents@.len() implies self.documents@[i].0@
                != self.documents@[j].0@ by {
                if j < before.len() {
                    assert(self.documents@[i] == before[i] && self.documents@[j] == before[j]);
                } else {
                    assert(self.documents@[i] == before[i]);
                }
            }
        }
    }
}

/// Where processed documents are written.
pub enum OutputFormat {
    Files,
    Html,
    Json,
}

/// Number of entries with a path in this entry and all entries below it.
pub open spec fn doc_paths(d: DocumentConfig) -> nat
    decreases d, 0nat,
{
    (if d.path is Some {
        1nat
    } else {
        0nat
    }) + match d.sub_documents {
        Some(v) => list_paths(v, v.len() as int),
        None => 0nat,
    }
}

/// Number of entries with a path among the first `n` entries of `v` and all entries below
/// them.
pub open spec fn list_paths(v: Vec<DocumentConfig>, n: int) -> nat
    decreases v, n,
{
    if n <= 0 || n > v.len() {
        0
    } else {
        list_paths(v, n - 1) + doc_paths(v[n - 1])
    }
}

/// Number of entries with a path in `document` and all entries below it.
pub fn count_document_paths(document: &DocumentConfig) -> (r: usize)
    requires
        doc_paths(*document) <= usize::MAX,
    ensures
        r == doc_paths(*document),
    decreases *document, 0nat,
{
    let mut count: usize = if document.path.is_some() {
        1
    } else {
        0
    };
    match &document.sub_documents {
        Some(subs) => {
            let mut k: usize = 0;
            while k < subs.len()
                invariant
                    k <= subs@.len(),
                    document.sub_documents == Some(*subs),
                    count == (if document.path is Some {
                        1nat
                    } else {
                        0nat
                    }) + list_paths(*subs, k as int),
                    doc_paths(*document) <= usize::MAX,
                    doc_paths(*document) == (if document.path is Some {
                        1nat
                    } else {
                        0nat
                    }) + list_paths(*subs, subs@.len() as int),
                decreases subs@.len() - k,
            {
                proof {
                    lemma_list_paths_grows(*subs, k as int + 1, subs@.len() as int);
                    vstd::std_specs::vec::axiom_vec_index_decreases(*subs, k as int);
                    assert(document.sub_documents == Some(*subs));
                    assert(decreases_to!(*document => document.sub_documents));
                    assert(decreases_to!(document.sub_documents => document.sub_documents->Some_0));
                }
                let c = count_document_paths(&subs[k]);
                count = count + c;
                k = k + 1;
            }
        },
        None => {},
    }
    count
}

pub proof fn lemma_list_paths_grows(v: Vec<DocumentConfig>, a: int, b: int)
    requires
        0 <= a <= b <= v.len(),
    ensures
        list_paths(v, a) <= list_paths(v, b),
    decreases b - a,
{
    if a < b {
        lemma_list_paths_grows(v, a, b - 1);
    }
}

} // verus!
