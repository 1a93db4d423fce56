use vstd::prelude::*;

use crate::processor::push_all;
use crate::text::{chars_of, string_of};

verus! {

/// Failures of the output layer.
pub enum OutputError {
    IO(String),
    Serialization(String),
    Validation(String),
    InvalidFormat(String),
    Storage(String),
    VersionConflict(String),
}

/// Where fragments are stored.
pub enum StorageType {
    FileSystem,
    Database,
    Hybrid,
}

/// Which renderings are written.
pub enum OutputFormat {
    Html,
    Json,
    Both,
}

/// Settings of the output layer.
pub struct OutputConfig {
    pub storage_type: StorageType,
    pub base_path: Option<String>,
    pub format: OutputFormat,
    pub enable_versioning: bool,
    pub enable_compression: bool,
}

impl OutputConfig {
    /// File-system storage under `./output`, both renderings, versioned, uncompressed.
    pub fn default() -> (r: OutputConfig)
        ensures
            r.storage_type is FileSystem,
            r.base_path matches Some(p) && p@ == "./output"@,
            r.format is Both,
            r.enable_versioning,
            !r.enable_compression,
    {
        OutputConfig {
            storage_type: StorageType::FileSystem,
            base_path: Some("./output".to_owned()),
            format: OutputFormat::Both,
            enable_versioning: true,
            enable_compression: false,
        }
    }
}

/// The kind of a stored fragment.
pub enum FragmentType {
    Content,
    Navigation,
    Metadata,
    Index,
    SearchResult,
}

/// The kind of a link between fragments.
pub enum LinkType {
    Internal,
    External,
    Reference,
    Asset,
}

/// A link from a fragment.
pub struct FragmentLink {
    pub target: String,
    pub link_type: LinkType,
    pub title: Option<String>,
}

/// Facts stored with a fragment.
pub struct FragmentMetadata {
    pub path: String,
    pub size: usize,
    pub checksum: String,
    pub tags: Vec<String>,
    pub attributes: Vec<(String, String)>,
    pub links: Vec<FragmentLink>,
}

/// A repository name made safe as a single path component: `/`, `\` and `:` become `_`.
pub open spec fn safe_name(s: Seq<char>) -> Seq<char> {
    Seq::new(s.len(), |i: int| if s[i] == '/' || s[i] == '\\' || s[i] == ':' { '_' } else { s[i] })
}

/// `part` appended to `base` as `PathBuf::join` does on Unix: an absolute part replaces the
/// base, otherwise one `'/'` separates them unless the base is empty or ends with one.
pub open spec fn join_path(base: Seq<char>, part: Seq<char>) -> Seq<char> {
    if part.len() > 0 && part[0] == '/' {
        part
    } else if base.len() == 0 || base.last() == '/' {
        base + part
    } else {
        base + seq!['/'] + part
    }
}

fn join(base: &Vec<char>, part: &Vec<char>) -> (r: Vec<char>)
    ensures
        r@ == join_path(base@, part@),
{
    if part.len() > 0 && part[0] == '/' {
        return crate::text::slice_chars(part, 0, part.len());
    }
    let mut r = crate::text::slice_chars(base, 0, base.len());
    assert(base@.subrange(0, base@.len() as int) =~= base@);
    if !(base.len() == 0 || base[base.len() - 1] == '/') {
        r.push('/');
    }
    push_all(&mut r, part);
    r
}

/// Fragments stored as files under a base directory, one directory per repository.
pub struct FileSystemStorage {
    pub base_path: String,
    pub config: OutputConfig,
}

impl FileSystemStorage {
    /// Storage under `base_path`; creating the directory is the caller's part.
    pub fn new(base_path: String, config: OutputConfig) -> (r: FileSystemStorage)
        ensures
            r.base_path == base_path,
            r.config == config,
    {
        FileSystemStorage { base_path, config }
    }

    /// The directory of a repository's fragments.
    pub fn get_repository_path(&self, repository: &str) -> (r: String)
        ensures
            r@ == join_path(self.base_path@, safe_name(repository@)),
    {
        let s = chars_of(repository);
        let mut safe: Vec<char> = Vec::new();
        let mut k: usize = 0;
        while k < s.len()
            invariant
                k <= s@.len(),
                safe@ == safe_name(s@).take(k as int),
            decreases s@.len() - k,
        {
            let c = s[k];
            if c == '/' || c == '\\' || c == ':' {
                safe.push('_');
            } else {
                safe.push(c);
            }
            k = k + 1;
            assert(safe@ =~= safe_name(s@).take(k as int));
        }
        assert(safe@ =~= safe_name(s@));
        string_of(&join(&chars_of(self.base_path.as_str()), &safe))
    }

    /// The file of one fragment: `fragments/<id>.<format>` in the repository's directory.
    pub fn get_fragment_path(&self, repository: &str, id: &str, format: &str) -> (r: String)
        ensures
            r@ == join_path(
                join_path(self.base_path@, safe_name(repository@)),
                "fragments/"@ + id@ + seq!['.'] + format@,
            ),
    {
        let repo = self.get_repository_path(repository);
        let mut part = chars_of("fragments/");
        push_all(&mut part, &chars_of(id));
        part.push('.');
        push_all(&mut part, &chars_of(format));
        string_of(&join(&chars_of(repo.as_str()), &part))
    }

    /// The file of a repository's whole collection: `collection.<format>`.
    pub fn get_collection_path(&self, repository: &str, format: &str) -> (r: String)
        ensures
            r@ == join_path(
                join_path(self.base_path@, safe_name(repository@)),
                "collection."@ + format@,
            ),
    {
        let repo = self.get_repository_path(repository);
        let mut part = chars_of("collection.");
        push_all(&mut part, &chars_of(format));
        string_of(&join(&chars_of(repo.as_str()), &part))
    }
}

/// Writes processing results to an output directory in one format.
pub struct OutputHandler {
    pub output_dir: String,
    pub format: crate::OutputFormat,
}

impl OutputHandler {
    pub fn new(output_dir: String, format: crate::OutputFormat) -> (r: OutputHandler)
        ensures
            r.output_dir == output_dir,
            r.format == format,
    {
        OutputHandler { output_dir, format }
    }
}

/// How a repository's processing went, as shown to the user.
pub enum RepoStatus {
    Processing,
    Success,
    Error(String),
    Skipped(String),
}

} // verus!
