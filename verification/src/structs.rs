//! The project data model: channels, files, directories, per-level overrides,
//! and the record types that travel to subscribers.

use vstd::prelude::*;

verus! {

/// Spec view of an optional string: the character sequence, if present.
pub open spec fn opt_str_view(o: &Option<String>) -> Option<Seq<char>> {
    match o {
        Some(s) => Some(s@),
        None => None,
    }
}

/// Spec view of a list of strings as a sequence of character sequences.
pub open spec fn strs_view(v: &Vec<String>) -> Seq<Seq<char>> {
    v@.map_values(|s: String| s@)
}

/// Spec view of an optional list of strings.
pub open spec fn opt_strs_view(o: &Option<Vec<String>>) -> Option<Seq<Seq<char>>> {
    match o {
        Some(v) => Some(strs_view(v)),
        None => None,
    }
}

/// An explicitly listed file of a channel, with its per-file overrides.
pub struct File {
    pub path: String,
    pub cc_path: Option<String>,
    pub minify: Option<bool>,
    pub deflate_trickery: Option<bool>,
    pub bundle: Option<bool>,
    pub require_prefix: Option<String>,
    pub prefix_exclusions: Option<Vec<String>>,
}

/// Mathematical model of a `File`.
pub struct FileV {
    pub path: Seq<char>,
    pub cc_path: Option<Seq<char>>,
    pub minify: Option<bool>,
    pub deflate_trickery: Option<bool>,
    pub bundle: Option<bool>,
    pub require_prefix: Option<Seq<char>>,
    pub prefix_exclusions: Option<Seq<Seq<char>>>,
}

impl View for File {
    type V = FileV;

    open spec fn view(&self) -> FileV {
        FileV {
            path: self.path@,
            cc_path: opt_str_view(&self.cc_path),
            minify: self.minify,
            deflate_trickery: self.deflate_trickery,
            bundle: self.bundle,
            require_prefix: opt_str_view(&self.require_prefix),
            prefix_exclusions: opt_strs_view(&self.prefix_exclusions),
        }
    }
}

/// A directory of a channel: every regular file under it belongs to the
/// channel, with these per-directory overrides.
pub struct Directory {
    pub path: String,
    pub minify: Option<bool>,
    pub deflate_trickery: Option<bool>,
    pub require_prefix: Option<String>,
    pub prefix_exclusions: Option<Vec<String>>,
}

/// Mathematical model of a `Directory`.
pub struct DirectoryV {
    pub path: Seq<char>,
    pub minify: Option<bool>,
    pub deflate_trickery: Option<bool>,
    pub require_prefix: Option<Seq<char>>,
    pub prefix_exclusions: Option<Seq<Seq<char>>>,
}

impl View for Directory {
    type V = DirectoryV;

    open spec fn view(&self) -> DirectoryV {
        DirectoryV {
            path: self.path@,
            minify: self.minify,
            deflate_trickery: self.deflate_trickery,
            require_prefix: opt_str_view(&self.require_prefix),
            prefix_exclusions: opt_strs_view(&self.prefix_exclusions),
        }
    }
}

/// What a channel carries: passthrough assets, lazily loaded sources, or
/// sources the client executes.
#[derive(Clone, Copy, PartialEq, Eq, Structural)]
pub enum ProjectItemType {
    Resource,
    Library,
    Script,
}

impl ProjectItemType {
    /// The lower-case label used in the channel listing.
    pub fn label(&self) -> (r: String)
        ensures
            *self == ProjectItemType::Resource ==> r@ == "resource"@,
            *self == ProjectItemType::Library ==> r@ == "library"@,
            *self == ProjectItemType::Script ==> r@ == "script"@,
    {
        match self {
            ProjectItemType::Resource => String::from_str("resource"),
            ProjectItemType::Library => String::from_str("library"),
            ProjectItemType::Script => String::from_str("script"),
        }
    }

    /// The spec-level label of an item type.
    pub open spec fn label_spec(self) -> Seq<char> {
        match self {
            ProjectItemType::Resource => "resource"@,
            ProjectItemType::Library => "library"@,
            ProjectItemType::Script => "script"@,
        }
    }
}

/// A channel: the unit a subscriber requests.
pub struct ProjectItem {
    pub item_type: ProjectItemType,
    pub files: Option<Vec<File>>,
    pub channel_name: String,
    pub required_channels: Option<Vec<String>>,
    pub directories: Option<Vec<Directory>>,
    pub minify: Option<bool>,
    pub deflate_trickery: Option<bool>,
    pub require_prefix: Option<String>,
    pub prefix_exclusions: Option<Vec<String>>,
}

/// Mathematical model of a `ProjectItem`.
pub struct ProjectItemV {
    pub item_type: ProjectItemType,
    pub files: Option<Seq<FileV>>,
    pub channel_name: Seq<char>,
    pub required_channels: Option<Seq<Seq<char>>>,
    pub directories: Option<Seq<DirectoryV>>,
    pub minify: Option<bool>,
    pub deflate_trickery: Option<bool>,
    pub require_prefix: Option<Seq<char>>,
    pub prefix_exclusions: Option<Seq<Seq<char>>>,
}

impl View for ProjectItem {
    type V = ProjectItemV;

    open spec fn view(&self) -> ProjectItemV {
        ProjectItemV {
            item_type: self.item_type,
            files: match self.files {
                Some(ref fs) => Some(fs@.map_values(|f: File| f@)),
                None => None,
            },
            channel_name: self.channel_name@,
            required_channels: match self.required_channels {
                Some(ref rs) => Some(strs_view(rs)),
                None => None,
            },
            directories: match self.directories {
                Some(ref ds) => Some(ds@.map_values(|d: Directory| d@)),
                None => None,
            },
            minify: self.minify,
            deflate_trickery: self.deflate_trickery,
            require_prefix: opt_str_view(&self.require_prefix),
            prefix_exclusions: opt_strs_view(&self.prefix_exclusions),
        }
    }
}

/// The root descriptor of a project.
pub struct Project {
    pub root_dir: String,
    pub items: Vec<ProjectItem>,
    pub max_uncompressed_request_size: usize,
    pub minify: Option<bool>,
    pub deflate_trickery: Option<bool>,
    pub require_prefix: Option<String>,
    pub prefix_exclusions: Option<Vec<String>>,
    pub lz_on_deflate: Option<bool>,
    pub port: u16,
    pub sync_interval: u64,
}

/// Mathematical model of a `Project`.
pub struct ProjectV {
    pub root_dir: Seq<char>,
    pub items: Seq<ProjectItemV>,
    pub max_uncompressed_request_size: usize,
    pub minify: Option<bool>,
    pub deflate_trickery: Option<bool>,
    pub require_prefix: Option<Seq<char>>,
    pub prefix_exclusions: Option<Seq<Seq<char>>>,
    pub lz_on_deflate: Option<bool>,
    pub port: u16,
    pub sync_interval: u64,
}

impl View for Project {
    type V = ProjectV;

    open spec fn view(&self) -> ProjectV {
        ProjectV {
            root_dir: self.root_dir@,
            items: self.items@.map_values(|i: ProjectItem| i@),
            max_uncompressed_request_size: self.max_uncompressed_request_size,
            minify: self.minify,
            deflate_trickery: self.deflate_trickery,
            require_prefix: opt_str_view(&self.require_prefix),
            prefix_exclusions: opt_strs_view(&self.prefix_exclusions),
            lz_on_deflate: self.lz_on_deflate,
            port: self.port,
            sync_interval: self.sync_interval,
        }
    }
}

/// The logical path and payload of a file-bearing record.
#[derive(PartialEq, Eq, Debug)]
pub struct DataSync {
    pub file_path: String,
    pub file_data: String,
}

/// Mathematical model of a `DataSync`.
pub struct DataSyncV {
    pub file_path: Seq<char>,
    pub file_data: Seq<char>,
}

impl View for DataSync {
    type V = DataSyncV;

    open spec fn view(&self) -> DataSyncV {
        DataSyncV { file_path: self.file_path@, file_data: self.file_data@ }
    }
}

/// A record sent downstream: a file of one of the three channel kinds, a
/// batch of deletions, or a continuation chunk of the preceding file record.
#[derive(PartialEq, Eq, Debug)]
pub enum RequestType {
    Resource { data: DataSync },
    Library { data: DataSync },
    Script { data: DataSync },
    Deletion { files: Vec<String> },
    Chunk { file_data: String },
}

/// Mathematical model of a `RequestType`.
pub enum ReqV {
    Resource { data: DataSyncV },
    Library { data: DataSyncV },
    Script { data: DataSyncV },
    Deletion { files: Seq<Seq<char>> },
    Chunk { file_data: Seq<char> },
}

impl View for RequestType {
    type V = ReqV;

    open spec fn view(&self) -> ReqV {
        match self {
            RequestType::Resource { data } => ReqV::Resource { data: data@ },
            RequestType::Library { data } => ReqV::Library { data: data@ },
            RequestType::Script { data } => ReqV::Script { data: data@ },
            RequestType::Deletion { files } => ReqV::Deletion { files: strs_view(files) },
            RequestType::Chunk { file_data } => ReqV::Chunk { file_data: file_data@ },
        }
    }
}

impl ReqV {
    /// True of the three file-bearing record kinds.
    pub open spec fn is_head(self) -> bool {
        self is Resource || self is Library || self is Script
    }

    /// The payload of a file-bearing record.
    pub open spec fn head_data(self) -> Seq<char> {
        match self {
            ReqV::Resource { data } => data.file_data,
            ReqV::Library { data } => data.file_data,
            ReqV::Script { data } => data.file_data,
            _ => Seq::empty(),
        }
    }

    /// The logical path of a file-bearing record.
    pub open spec fn head_path(self) -> Seq<char> {
        match self {
            ReqV::Resource { data } => data.file_path,
            ReqV::Library { data } => data.file_path,
            ReqV::Script { data } => data.file_path,
            _ => Seq::empty(),
        }
    }

    /// A file-bearing record of the same kind as `self`, with the given data.
    pub open spec fn with_data(self, d: DataSyncV) -> ReqV {
        match self {
            ReqV::Resource { .. } => ReqV::Resource { data: d },
            ReqV::Library { .. } => ReqV::Library { data: d },
            ReqV::Script { .. } => ReqV::Script { data: d },
            other => other,
        }
    }

    /// The number of payload characters a record charges against a frame.
    pub open spec fn payload_len(self) -> nat {
        match self {
            ReqV::Resource { data } => data.file_data.len(),
            ReqV::Library { data } => data.file_data.len(),
            ReqV::Script { data } => data.file_data.len(),
            ReqV::Deletion { files } => names_len(files),
            ReqV::Chunk { file_data } => file_data.len(),
        }
    }
}

/// The total length of a list of file names.
pub open spec fn names_len(files: Seq<Seq<char>>) -> nat
    decreases files.len(),
{
    if files.len() == 0 {
        0
    } else {
        files[0].len() + names_len(files.drop_first())
    }
}

/// Spec view of a batch of records.
pub open spec fn batch_view(b: Seq<RequestType>) -> Seq<ReqV> {
    b.map_values(|r: RequestType| r@)
}

/// A single plain path component: non-empty, free of path separators, and
/// not a current- or parent-directory reference, so path normalization
/// leaves it unchanged.
pub open spec fn plain_component(s: Seq<char>) -> bool {
    &&& s.len() > 0
    &&& forall|i: int| 0 <= i < s.len() ==> #[trigger] s[i] != '/' && s[i] != '\\'
    &&& s != seq!['.']
    &&& s != seq!['.', '.']
}

/// Checks that a name is a single plain path component.
pub fn is_plain_component(s: &str) -> (r: bool)
    ensures
        r == plain_component(s@),
{
    let n = s.unicode_len();
    if n == 0 {
        return false;
    }
    let mut i: usize = 0;
    let mut all_dots = true;
    while i < n
        invariant
            i <= n,
            n == s@.len(),
            forall|j: int| 0 <= j < i ==> #[trigger] s@[j] != '/' && s@[j] != '\\',
            all_dots == (forall|j: int| 0 <= j < i ==> #[trigger] s@[j] == '.'),
        decreases n - i,
    {
        let c = s.get_char(i);
        if c == '/' || c == '\\' {
            return false;
        }
        if c != '.' {
            all_dots = false;
        }
        i = i + 1;
    }
    if all_dots && n <= 2 {
        proof {
            if n == 1 {
                assert(s@ =~= seq!['.']);
            } else {
                assert(s@ =~= seq!['.', '.']);
            }
        }
        return false;
    }
    proof {
        if s@ == seq!['.'] {
            assert(s@[0] == '.');
            assert(false);
        }
        if s@ == seq!['.', '.'] {
            assert(s@[0] == '.' && s@[1] == '.');
            assert(false);
        }
    }
    true
}

/// Why a transform failed: the in-memory resource registry refused an
/// access, or the transform library rejected the source.
#[derive(Clone, Copy, PartialEq, Eq, Structural, Debug)]
pub enum TransformError {
    Resource,
    Process,
}

/// The event emitted by the file observer for one path.
#[derive(Clone)]
pub enum FileChanged {
    Changed { path: String },
    Deleted { path: String },
}

/// The query parameter of a subscription request: a comma-separated list of
/// channel names.
pub struct SubscribeQuery {
    pub channels: String,
}

/// The source transformation rule that prepends a prefix to the first
/// argument of every bare `require(...)` call, except for modules in the
/// exception list.
pub struct PrefixRequireRule {
    pub prefix: String,
    pub exceptions: Vec<String>,
}

impl PrefixRequireRule {
    pub fn new(prefix: String, exceptions: Vec<String>) -> (r: PrefixRequireRule)
        ensures
            r.prefix@ == prefix@,
            strs_view(&r.exceptions) == strs_view(&exceptions),
    {
        PrefixRequireRule { prefix, exceptions }
    }
}

} // verus!
