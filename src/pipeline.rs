use vstd::prelude::*;

verus! {

/// Why a pipeline run stopped.
pub enum PipelineError {
    GitHub(crate::access::GitHubError),
    Io(String),
    Validation(String),
    Processing(String),
    InvalidPattern(String),
    Cancelled,
}

/// Where a pipeline run stands.
pub enum PipelineStage {
    /// Waiting for the discovered files.
    Discovering,
    /// Waiting for the batched fetch of the discovered files' content.
    Validating,
    /// Finished with a document set.
    Done,
    /// Stopped by an error or by cancellation.
    Failed,
}

/// One run over one repository: discovery, then validation of the fetched content, then
/// processing. The caller performs each remote step and hands its result in; a hard error
/// of the repository host stops the run, files without content are left out.
pub struct DocumentProcessingPipeline {
    pub repository: String,
    pub stage: PipelineStage,
    pub discovered: Vec<DiscoveredFile>,
}

impl DocumentProcessingPipeline {
    /// A run that starts by discovering files.
    pub fn new(repository: String) -> (r: DocumentProcessingPipeline)
        ensures
            r.repository == repository,
            r.stage is Discovering,
            r.discovered@.len() == 0,
    {
        DocumentProcessingPipeline { repository, stage: PipelineStage::Discovering, discovered: Vec::new() }
    }

    /// Takes the discovery result; on success the paths whose content to fetch, in order.
    pub fn on_discovered(&mut self, result: Result<Vec<DiscoveredFile>, crate::access::GitHubError>) -> (r:
        Result<Vec<String>, PipelineError>)
        requires
            old(self).stage is Discovering,
        ensures
            final(self).repository == old(self).repository,
            match result {
                Ok(files) => final(self).stage is Validating && final(self).discovered@ == files@
                    && (r matches Ok(paths) && string_views(paths@) == files@.map_values(
                    |f: DiscoveredFile| f.path@,
                )),
                Err(e) => final(self).stage is Failed && r == Err::<Vec<String>, PipelineError>(
                    PipelineError::GitHub(e),
                ),
            },
    {
        match result {
            Ok(files) => {
                let mut paths: Vec<String> = Vec::new();
                let mut k: usize = 0;
                while k < files.len()
                    invariant
                        k <= files@.len(),
                        string_views(paths@) == files@.map_values(|f: DiscoveredFile| f.path@).take(
                            k as int,
                        ),
                    decreases files@.len() - k,
                {
                    let ghost before = paths@;
                    let p = files[k].path.clone();
                    paths.push(p);
                    assert(string_views(paths@) =~= string_views(before).push(files@[k as int].path@));
                    k = k + 1;
                    assert(string_views(paths@) =~= files@.map_values(|f: DiscoveredFile| f.path@).take(
                        k as int,
                    ));
                }
                assert(files@.map_values(|f: DiscoveredFile| f.path@).take(files@.len() as int)
                    =~= files@.map_values(|f: DiscoveredFile| f.path@));
                self.discovered = files;
                self.stage = PipelineStage::Validating;
                Ok(paths)
            },
            Err(e) => {
                self.stage = PipelineStage::Failed;
                Err(PipelineError::GitHub(e))
            },
        }
    }

    /// Takes the batched fetch of the discovered files' content and finishes the run: each file
    /// with content is validated and processed, stamped alike.
    pub fn on_fetched(
        &mut self,
        fetched: Result<Vec<(String, Option<String>)>, crate::access::GitHubError>,
        processed_at: i64,
        processing_time_ms: u64,
    ) -> (r: Result<Vec<ProcessedDocument>, PipelineError>)
        requires
            old(self).stage is Validating,
        ensures
            final(self).repository == old(self).repository,
            match fetched {
                Ok(f) => final(self).stage is Done && (r matches Ok(docs) && docs@.len()
                    == crate::validation::batch_of(
                    crate::validation::discovered_views(old(self).discovered@),
                    f@,
                ).len() && forall|i: int|
                    0 <= i < docs@.len() ==> crate::processor::processed_model(
                        #[trigger] docs@[i],
                        crate::validation::batch_of(
                            crate::validation::discovered_views(old(self).discovered@),
                            f@,
                        )[i],
                    ) && docs@[i].processing_metadata.processed_at == processed_at),
                Err(e) => final(self).stage is Failed && r == Err::<
                    Vec<ProcessedDocument>,
                    PipelineError,
                >(PipelineError::GitHub(e)),
            },
    {
        match fetched {
            Ok(f) => {
                let files = duplicate_all(&self.discovered);
                self.discovered = Vec::new();
                let validator = crate::validation::ContentValidator::new();
                let validated = validator.validate_batch(files, &f);
                let ghost vs = validated@;
                let processor = crate::processor::ContentProcessor::new();
                let r = processor.process_batch(validated, processed_at, processing_time_ms);
                proof {
                    assert forall|i: int| 0 <= i < vs.len() implies vs[i]@ == crate::validation::batch_of(
                        crate::validation::discovered_views(old(self).discovered@),
                        f@,
                    )[i] by {
                        assert(validated_views(vs)[i] == vs[i]@);
                    }
                }
                self.stage = PipelineStage::Done;
                r
            },
            Err(e) => {
                self.stage = PipelineStage::Failed;
                Err(PipelineError::GitHub(e))
            },
        }
    }

    /// Stops the run at the caller's request.
    pub fn cancel(&mut self) -> (r: PipelineError)
        ensures
            final(self).stage is Failed,
            r is Cancelled,
            final(self).repository == old(self).repository,
    {
        self.stage = PipelineStage::Failed;
        PipelineError::Cancelled
    }
}

/// Copies of the records of `v`.
pub fn duplicate_all(v: &Vec<DiscoveredFile>) -> (r: Vec<DiscoveredFile>)
    ensures
        crate::validation::discovered_views(r@) == crate::validation::discovered_views(v@),
{
    let mut r: Vec<DiscoveredFile> = Vec::new();
    let mut k: usize = 0;
    while k < v.len()
        invariant
            k <= v@.len(),
            crate::validation::discovered_views(r@) == crate::validation::discovered_views(v@).take(
                k as int,
            ),
        decreases v@.len() - k,
    {
        let ghost before = r@;
        let d = v[k].duplicate();
        r.push(d);
        assert(crate::validation::discovered_views(r@) =~= crate::validation::discovered_views(
            before,
        ).push(d@));
        k = k + 1;
        assert(crate::validation::discovered_views(r@) =~= crate::validation::discovered_views(
            v@,
        ).take(k as int));
    }
    assert(crate::validation::discovered_views(v@).take(v@.len() as int)
        =~= crate::validation::discovered_views(v@));
    r
}

/// A file that discovery found, with the configuration key or pattern that produced it.
pub struct DiscoveredFile {
    pub path: String,
    pub pattern_source: String,
    pub estimated_size: Option<usize>,
}

/// Flat front-matter metadata: `key: value` pairs in order of first appearance,
/// each key present once.
pub struct FrontMatter {
    pub entries: Vec<(String, String)>,
}

/// The text of each key and value, in order.
pub open spec fn entries_view(e: Seq<(String, String)>) -> Seq<(Seq<char>, Seq<char>)> {
    e.map_values(|kv: (String, String)| (kv.0@, kv.1@))
}

/// The value stored under key `k`, searching from index `i` on.
pub open spec fn lookup_from(e: Seq<(Seq<char>, Seq<char>)>, k: Seq<char>, i: int) -> Option<
    Seq<char>,
>
    decreases e.len() - i,
{
    if i < 0 || i >= e.len() {
        None
    } else if e[i].0 == k {
        Some(e[i].1)
    } else {
        lookup_from(e, k, i + 1)
    }
}

/// The value stored under key `k`.
pub open spec fn lookup(e: Seq<(Seq<char>, Seq<char>)>, k: Seq<char>) -> Option<Seq<char>> {
    lookup_from(e, k, 0)
}

/// No key appears twice.
pub open spec fn keys_unique(e: Seq<(Seq<char>, Seq<char>)>) -> bool {
    forall|i: int, j: int| 0 <= i < j < e.len() ==> e[i].0 != e[j].0
}

/// The entries after setting `k` to `v`: an existing key keeps its place and takes the new
/// value, a new key goes last.
pub open spec fn insert_entry(e: Seq<(Seq<char>, Seq<char>)>, k: Seq<char>, v: Seq<char>) -> Seq<
    (Seq<char>, Seq<char>),
> {
    if exists|i: int| 0 <= i < e.len() && e[i].0 == k {
        let i = choose|i: int| 0 <= i < e.len() && e[i].0 == k;
        e.update(i, (k, v))
    } else {
        e.push((k, v))
    }
}

impl View for FrontMatter {
    type V = Seq<(Seq<char>, Seq<char>)>;

    open spec fn view(&self) -> Seq<(Seq<char>, Seq<char>)> {
        entries_view(self.entries@)
    }
}

impl FrontMatter {
    pub open spec fn wf(&self) -> bool {
        keys_unique(self@)
    }

    /// Metadata with no entries.
    pub fn new() -> (r: FrontMatter)
        ensures
            r@ == Seq::<(Seq<char>, Seq<char>)>::empty(),
            r.wf(),
    {
        let r = FrontMatter { entries: Vec::new() };
        assert(r@ =~= Seq::<(Seq<char>, Seq<char>)>::empty());
        r
    }

    /// Number of keys.
    pub fn len(&self) -> (r: usize)
        ensures
            r == self@.len(),
    {
        self.entries.len()
    }

    /// Whether there are no keys.
    pub fn is_empty(&self) -> (r: bool)
        ensures
            r == (self@.len() == 0),
    {
        self.entries.len() == 0
    }

    /// Position of key `k`, if present.
    fn position(&self, k: &String) -> (r: Option<usize>)
        ensures
            r matches Some(i) ==> i < self@.len() && self@[i as int].0 == k@ && lookup(self@, k@)
                == Some(self@[i as int].1),
            r is None ==> lookup(self@, k@) is None && forall|j: int|
                0 <= j < self@.len() ==> self@[j].0 != k@,
    {
        let mut i: usize = 0;
        while i < self.entries.len()
            invariant
                i <= self@.len(),
                self@.len() == self.entries@.len(),
                lookup(self@, k@) == lookup_from(self@, k@, i as int),
                forall|j: int| 0 <= j < i ==> self@[j].0 != k@,
            decreases self@.len() - i,
        {
            let same = self.entries[i].0 == *k;
            assert(self@[i as int] == (self.entries@[i as int].0@, self.entries@[i as int].1@));
            if same {
                return Some(i);
            }
            i = i + 1;
        }
        None
    }

    /// The value stored under `key`.
    pub fn get(&self, key: &str) -> (r: Option<&String>)
        ensures
            r matches Some(v) ==> lookup(self@, key@) == Some(v@),
            r is None ==> lookup(self@, key@) is None,
    {
        let k = key.to_owned();
        match self.position(&k) {
            Some(i) => {
                assert(self@[i as int] == (self.entries@[i as int].0@, self.entries@[i as int].1@));
                Some(&self.entries[i].1)
            },
            None => None,
        }
    }

    /// Whether `key` is present.
    pub fn contains_key(&self, key: &str) -> (r: bool)
        ensures
            r == (lookup(self@, key@) is Some),
    {
        self.get(key).is_some()
    }

    /// Sets `key` to `value`.
    pub fn insert(&mut self, key: String, value: String)
        requires
            old(self).wf(),
        ensures
            final(self).wf(),
            final(self)@ == insert_entry(old(self)@, key@, value@),
    {
        let ghost old_v = self@;
        match self.position(&key) {
            Some(i) => {
                let ghost kv = key@;
                let ghost vv = value@;
                self.entries.set(i, (key, value));
                assert(self@ =~= old_v.update(i as int, (kv, vv)));
                assert forall|j: int| 0 <= j < old_v.len() && old_v[j].0 == kv implies j
                    == i by {
                    if j != i {
                        assert(old_v[j].0 != old_v[i as int].0);
                    }
                }
            },
            None => {
                let ghost kv = key@;
                let ghost vv = value@;
                self.entries.push((key, value));
                assert(self@ =~= old_v.push((kv, vv)));
            },
        }
    }
}

/// A file with its content fetched and its front matter separated from the body.
pub struct ValidatedFile {
    pub discovered: DiscoveredFile,
    pub content: String,
    pub frontmatter: FrontMatter,
    pub markdown_content: String,
    pub validation_warnings: Vec<String>,
}

/// A heading line of a document.
pub struct Heading {
    pub level: u8,
    pub text: String,
    pub anchor: String,
}

/// A `[text](url)` link.
pub struct Link {
    pub text: String,
    pub url: String,
    pub is_internal: bool,
    pub is_valid: Option<bool>,
}

/// A `![alt](url)` image.
pub struct Image {
    pub alt_text: String,
    pub url: String,
    pub is_internal: bool,
}

/// A fenced code block.
pub struct CodeBlock {
    pub language: Option<String>,
    pub content: String,
    pub line_count: usize,
}

/// Facts about one processing run of a document.
pub struct ProcessingMetadata {
    /// Seconds since the Unix epoch at which processing happened.
    pub processed_at: i64,
    pub processing_time_ms: u64,
    pub warnings: Vec<String>,
    /// Quality in hundredths: 0 is the worst, 100 the best.
    pub quality_score: u32,
}

/// The structured record produced for one source file.
pub struct ProcessedDocument {
    pub file_path: String,
    pub title: String,
    pub content: String,
    pub frontmatter: FrontMatter,
    pub word_count: usize,
    pub headings: Vec<Heading>,
    pub links: Vec<Link>,
    pub images: Vec<Image>,
    pub code_blocks: Vec<CodeBlock>,
    /// Seconds since the Unix epoch of the last change, where known.
    pub last_modified: Option<i64>,
    pub processing_metadata: ProcessingMetadata,
}

/// What a discovered file is made of.
pub struct DiscoveredModel {
    pub path: Seq<char>,
    pub pattern_source: Seq<char>,
    pub estimated_size: Option<usize>,
}

impl View for DiscoveredFile {
    type V = DiscoveredModel;

    open spec fn view(&self) -> DiscoveredModel {
        DiscoveredModel {
            path: self.path@,
            pattern_source: self.pattern_source@,
            estimated_size: self.estimated_size,
        }
    }
}

impl DiscoveredFile {
    /// A copy of this record.
    pub fn duplicate(&self) -> (r: DiscoveredFile)
        ensures
            r@ == self@,
    {
        DiscoveredFile {
            path: self.path.clone(),
            pattern_source: self.pattern_source.clone(),
            estimated_size: self.estimated_size,
        }
    }
}

/// What a validated file is made of.
pub struct ValidatedModel {
    pub discovered: DiscoveredModel,
    pub content: Seq<char>,
    pub frontmatter: Seq<(Seq<char>, Seq<char>)>,
    pub body: Seq<char>,
    pub warnings: Seq<Seq<char>>,
}

impl View for ValidatedFile {
    type V = ValidatedModel;

    open spec fn view(&self) -> ValidatedModel {
        ValidatedModel {
            discovered: self.discovered@,
            content: self.content@,
            frontmatter: self.frontmatter@,
            body: self.markdown_content@,
            warnings: string_views(self.validation_warnings@),
        }
    }
}

pub open spec fn validated_views(v: Seq<ValidatedFile>) -> Seq<ValidatedModel> {
    v.map_values(|f: ValidatedFile| f@)
}

/// What a heading is made of.
pub struct HeadingModel {
    pub level: int,
    pub text: Seq<char>,
    pub anchor: Seq<char>,
}

/// What a link is made of.
pub struct LinkModel {
    pub text: Seq<char>,
    pub url: Seq<char>,
    pub is_internal: bool,
}

/// What an image is made of.
pub struct ImageModel {
    pub alt_text: Seq<char>,
    pub url: Seq<char>,
    pub is_internal: bool,
}

/// What a code block is made of.
pub struct CodeBlockModel {
    pub language: Option<Seq<char>>,
    pub content: Seq<char>,
    pub line_count: int,
}

impl View for Heading {
    type V = HeadingModel;

    open spec fn view(&self) -> HeadingModel {
        HeadingModel { level: self.level as int, text: self.text@, anchor: self.anchor@ }
    }
}

impl View for Link {
    type V = LinkModel;

    open spec fn view(&self) -> LinkModel {
        LinkModel { text: self.text@, url: self.url@, is_internal: self.is_internal }
    }
}

impl View for Image {
    type V = ImageModel;

    open spec fn view(&self) -> ImageModel {
        ImageModel { alt_text: self.alt_text@, url: self.url@, is_internal: self.is_internal }
    }
}

impl View for CodeBlock {
    type V = CodeBlockModel;

    open spec fn view(&self) -> CodeBlockModel {
        CodeBlockModel {
            language: match self.language {
                Some(l) => Some(l@),
                None => None,
            },
            content: self.content@,
            line_count: self.line_count as int,
        }
    }
}

pub open spec fn heading_views(v: Seq<Heading>) -> Seq<HeadingModel> {
    v.map_values(|h: Heading| h@)
}

pub open spec fn link_views(v: Seq<Link>) -> Seq<LinkModel> {
    v.map_values(|l: Link| l@)
}

pub open spec fn image_views(v: Seq<Image>) -> Seq<ImageModel> {
    v.map_values(|i: Image| i@)
}

pub open spec fn code_block_views(v: Seq<CodeBlock>) -> Seq<CodeBlockModel> {
    v.map_values(|b: CodeBlock| b@)
}

pub open spec fn string_views(v: Seq<String>) -> Seq<Seq<char>> {
    v.map_values(|s: String| s@)
}

} // verus!
