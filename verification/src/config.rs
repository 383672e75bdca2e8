use vstd::prelude::*;

use crate::constants::{default_mark_regex, spec_default_mark_regex};
use crate::control::CancellationToken;
use crate::filter::FilterConfig;
use crate::sort::config::{DimensionStage, SortConfig};

verus! {

/// How marks are detected in comments.
#[derive(Clone, Debug)]
pub enum DetectionConfig {
    /// A regular expression; its matches must still normalise to one of
    /// the canonical mark words.
    Regex { pattern: String },
}

impl DetectionConfig {
    pub open spec fn spec_pattern(&self) -> Seq<char> {
        match self {
            DetectionConfig::Regex { pattern } => pattern@,
        }
    }
}

/// An immutable snapshot of everything one scan needs; built by
/// `ScanConfig::builder` and consumed by the scan.
#[derive(Clone, Debug)]
pub struct ScanConfig {
    pub roots: Vec<String>,
    pub detection: DetectionConfig,
    pub includes: Vec<String>,
    pub exclude: Vec<String>,
    pub follow_gitignore: bool,
    pub include_hidden: bool,
    pub builtin_excludes: bool,
    pub sort_config: SortConfig,
    pub filter_config: FilterConfig,
    pub max_file_size: Option<u64>,
    pub threads: Option<usize>,
    pub read_buffer_size: usize,
    pub cancellation: Option<CancellationToken>,
}

impl ScanConfig {
    pub fn builder() -> (r: ScanConfigBuilder)
        ensures
            r.spec_is_default(),
    {
        ScanConfigBuilder::new()
    }

    pub fn roots(&self) -> (r: &Vec<String>)
        ensures
            r == &self.roots,
    {
        &self.roots
    }

    pub fn detection(&self) -> (r: &DetectionConfig)
        ensures
            r == &self.detection,
    {
        &self.detection
    }

    pub fn includes(&self) -> (r: &Vec<String>)
        ensures
            r == &self.includes,
    {
        &self.includes
    }

    pub fn exclude(&self) -> (r: &Vec<String>)
        ensures
            r == &self.exclude,
    {
        &self.exclude
    }

    pub fn follow_gitignore(&self) -> (r: bool)
        ensures
            r == self.follow_gitignore,
    {
        self.follow_gitignore
    }

    pub fn include_hidden(&self) -> (r: bool)
        ensures
            r == self.include_hidden,
    {
        self.include_hidden
    }

    pub fn builtin_excludes(&self) -> (r: bool)
        ensures
            r == self.builtin_excludes,
    {
        self.builtin_excludes
    }

    pub fn sort_config(&self) -> (r: &SortConfig)
        ensures
            r == &self.sort_config,
    {
        &self.sort_config
    }

    pub fn filter_config(&self) -> (r: &FilterConfig)
        ensures
            r == &self.filter_config,
    {
        &self.filter_config
    }

    pub fn max_file_size(&self) -> (r: Option<u64>)
        ensures
            r == self.max_file_size,
    {
        self.max_file_size
    }

    pub fn threads(&self) -> (r: Option<usize>)
        ensures
            r == self.threads,
    {
        self.threads
    }

    pub fn read_buffer_size(&self) -> (r: usize)
        ensures
            r == self.read_buffer_size,
    {
        self.read_buffer_size
    }

    pub fn cancellation_token(&self) -> (r: Option<&CancellationToken>)
        ensures
            r is Some <==> self.cancellation is Some,
    {
        match &self.cancellation {
            Some(token) => Some(token),
            None => None,
        }
    }
}

/// Builds a `ScanConfig`; every option has a default.
#[derive(Clone, Debug)]
pub struct ScanConfigBuilder {
    pub roots: Vec<String>,
    pub detection: DetectionConfig,
    pub includes: Vec<String>,
    pub exclude: Vec<String>,
    pub follow_gitignore: bool,
    pub include_hidden: bool,
    pub builtin_excludes: bool,
    pub sort_config: SortConfig,
    pub filter_config: FilterConfig,
    pub max_file_size: Option<u64>,
    pub threads: Option<usize>,
    pub read_buffer_size: usize,
    pub cancellation: Option<CancellationToken>,
}

impl ScanConfigBuilder {
    /// Everything except the fields a builder method names stays as it
    /// was.
    pub open spec fn spec_same_except_roots(&self, o: &ScanConfigBuilder) -> bool {
        &&& self.detection == o.detection
        &&& self.includes == o.includes
        &&& self.exclude == o.exclude
        &&& self.follow_gitignore == o.follow_gitignore
        &&& self.include_hidden == o.include_hidden
        &&& self.builtin_excludes == o.builtin_excludes
        &&& self.sort_config == o.sort_config
        &&& self.filter_config == o.filter_config
        &&& self.max_file_size == o.max_file_size
        &&& self.threads == o.threads
        &&& self.read_buffer_size == o.read_buffer_size
        &&& self.cancellation == o.cancellation
    }

    pub open spec fn spec_is_default(&self) -> bool {
        &&& self.roots@.len() == 0
        &&& self.detection.spec_pattern() == spec_default_mark_regex()
        &&& self.includes@.len() == 0
        &&& self.exclude@.len() == 0
        &&& self.follow_gitignore
        &&& !self.include_hidden
        &&& self.builtin_excludes
        &&& self.sort_config.pipeline@.len() == 2
        &&& self.sort_config.pipeline@[0] is Mark
        &&& self.sort_config.pipeline@[0]->Mark_0.overrides@.len() == 0
        &&& self.sort_config.pipeline@[1] is Language
        &&& self.sort_config.pipeline@[1]->Language_0.order
            == crate::sort::config::LanguageOrder::CountDescNameAsc
        &&& self.filter_config.rules@.len() == 0
        &&& self.max_file_size is None
        &&& self.threads is None
        &&& self.read_buffer_size == 65536
        &&& self.cancellation is None
    }

    pub fn new() -> (r: ScanConfigBuilder)
        ensures
            r.spec_is_default(),
    {
        ScanConfigBuilder {
            roots: Vec::new(),
            detection: DetectionConfig::Regex { pattern: default_mark_regex() },
            includes: Vec::new(),
            exclude: Vec::new(),
            follow_gitignore: true,
            include_hidden: false,
            builtin_excludes: true,
            sort_config: SortConfig::default(),
            filter_config: FilterConfig::default(),
            max_file_size: None,
            threads: None,
            read_buffer_size: 65536,
            cancellation: None,
        }
    }

    /// Append one scan root.
    pub fn root(self, root: String) -> (r: ScanConfigBuilder)
        ensures
            r.roots@ == self.roots@.push(root),
            r.spec_same_except_roots(&self),
    {
        let mut this = self;
        this.roots.push(root);
        this
    }

    /// Append many scan roots.
    pub fn roots(self, roots: Vec<String>) -> (r: ScanConfigBuilder)
        ensures
            r.roots@ == self.roots@ + roots@,
            r.spec_same_except_roots(&self),
    {
        let mut this = self;
        let mut more = roots;
        this.roots.append(&mut more);
        this
    }

    /// Override the detection regex.
    pub fn regex(self, pattern: String) -> (r: ScanConfigBuilder)
        ensures
            r.detection == (DetectionConfig::Regex { pattern }),
            r.roots == self.roots,
            r.includes == self.includes,
            r.exclude == self.exclude,
            r.follow_gitignore == self.follow_gitignore,
            r.include_hidden == self.include_hidden,
            r.builtin_excludes == self.builtin_excludes,
            r.sort_config == self.sort_config,
            r.filter_config == self.filter_config,
            r.max_file_size == self.max_file_size,
            r.threads == self.threads,
            r.read_buffer_size == self.read_buffer_size,
            r.cancellation == self.cancellation,
    {
        let mut this = self;
        this.detection = DetectionConfig::Regex { pattern };
        this
    }

    /// Append one includes glob.
    pub fn includes(self, pattern: String) -> (r: ScanConfigBuilder)
        ensures
            r.includes@ == self.includes@.push(pattern),
            r.roots == self.roots,
            r.detection == self.detection,
            r.exclude == self.exclude,
            r.follow_gitignore == self.follow_gitignore,
            r.include_hidden == self.include_hidden,
            r.builtin_excludes == self.builtin_excludes,
            r.sort_config == self.sort_config,
            r.filter_config == self.filter_config,
            r.max_file_size == self.max_file_size,
            r.threads == self.threads,
            r.read_buffer_size == self.read_buffer_size,
            r.cancellation == self.cancellation,
    {
        let mut this = self;
        this.includes.push(pattern);
        this
    }

    /// Append one exclude glob.
    pub fn exclude(self, pattern: String) -> (r: ScanConfigBuilder)
        ensures
            r.exclude@ == self.exclude@.push(pattern),
            r.roots == self.roots,
            r.detection == self.detection,
            r.includes == self.includes,
            r.follow_gitignore == self.follow_gitignore,
            r.include_hidden == self.include_hidden,
            r.builtin_excludes == self.builtin_excludes,
            r.sort_config == self.sort_config,
            r.filter_config == self.filter_config,
            r.max_file_size == self.max_file_size,
            r.threads == self.threads,
            r.read_buffer_size == self.read_buffer_size,
            r.cancellation == self.cancellation,
    {
        let mut this = self;
        this.exclude.push(pattern);
        this
    }

    /// Honour ignore files; on by default.
    pub fn follow_gitignore(self, yes: bool) -> (r: ScanConfigBuilder)
        ensures
            r.follow_gitignore == yes,
            r.roots == self.roots,
            r.detection == self.detection,
            r.includes == self.includes,
            r.exclude == self.exclude,
            r.include_hidden == self.include_hidden,
            r.builtin_excludes == self.builtin_excludes,
            r.sort_config == self.sort_config,
            r.filter_config == self.filter_config,
            r.max_file_size == self.max_file_size,
            r.threads == self.threads,
            r.read_buffer_size == self.read_buffer_size,
            r.cancellation == self.cancellation,
    {
        let mut this = self;
        this.follow_gitignore = yes;
        this
    }

    /// Scan hidden files; off by default.
    pub fn include_hidden(self, yes: bool) -> (r: ScanConfigBuilder)
        ensures
            r.include_hidden == yes,
            r.roots == self.roots,
            r.detection == self.detection,
            r.includes == self.includes,
            r.exclude == self.exclude,
            r.follow_gitignore == self.follow_gitignore,
            r.builtin_excludes == self.builtin_excludes,
            r.sort_config == self.sort_config,
            r.filter_config == self.filter_config,
            r.max_file_size == self.max_file_size,
            r.threads == self.threads,
            r.read_buffer_size == self.read_buffer_size,
            r.cancellation == self.cancellation,
    {
        let mut this = self;
        this.include_hidden = yes;
        this
    }

    /// Apply the built-in exclude list; on by default.
    pub fn builtin_excludes(self, yes: bool) -> (r: ScanConfigBuilder)
        ensures
            r.builtin_excludes == yes,
            r.roots == self.roots,
            r.detection == self.detection,
            r.includes == self.includes,
            r.exclude == self.exclude,
            r.follow_gitignore == self.follow_gitignore,
            r.include_hidden == self.include_hidden,
            r.sort_config == self.sort_config,
            r.filter_config == self.filter_config,
            r.max_file_size == self.max_file_size,
            r.threads == self.threads,
            r.read_buffer_size == self.read_buffer_size,
            r.cancellation == self.cancellation,
    {
        let mut this = self;
        this.builtin_excludes = yes;
        this
    }

    /// Replace the ordering configuration.
    pub fn sort_config(self, sort_config: SortConfig) -> (r: ScanConfigBuilder)
        ensures
            r.sort_config == sort_config,
            r.roots == self.roots,
            r.detection == self.detection,
            r.includes == self.includes,
            r.exclude == self.exclude,
            r.follow_gitignore == self.follow_gitignore,
            r.include_hidden == self.include_hidden,
            r.builtin_excludes == self.builtin_excludes,
            r.filter_config == self.filter_config,
            r.max_file_size == self.max_file_size,
            r.threads == self.threads,
            r.read_buffer_size == self.read_buffer_size,
            r.cancellation == self.cancellation,
    {
        let mut this = self;
        this.sort_config = sort_config;
        this
    }

    /// Replace the ordering pipeline.
    pub fn sort_pipeline(self, pipeline: Vec<DimensionStage>) -> (r: ScanConfigBuilder)
        ensures
            r.sort_config.pipeline == pipeline,
            r.roots == self.roots,
            r.detection == self.detection,
            r.includes == self.includes,
            r.exclude == self.exclude,
            r.follow_gitignore == self.follow_gitignore,
            r.include_hidden == self.include_hidden,
            r.builtin_excludes == self.builtin_excludes,
            r.filter_config == self.filter_config,
            r.max_file_size == self.max_file_size,
            r.threads == self.threads,
            r.read_buffer_size == self.read_buffer_size,
            r.cancellation == self.cancellation,
    {
        let mut this = self;
        this.sort_config = SortConfig::with_pipeline(pipeline);
        this
    }

    /// Replace the filter rules.
    pub fn filter_config(self, filter_config: FilterConfig) -> (r: ScanConfigBuilder)
        ensures
            r.filter_config == filter_config,
            r.roots == self.roots,
            r.detection == self.detection,
            r.includes == self.includes,
            r.exclude == self.exclude,
            r.follow_gitignore == self.follow_gitignore,
            r.include_hidden == self.include_hidden,
            r.builtin_excludes == self.builtin_excludes,
            r.sort_config == self.sort_config,
            r.max_file_size == self.max_file_size,
            r.threads == self.threads,
            r.read_buffer_size == self.read_buffer_size,
            r.cancellation == self.cancellation,
    {
        let mut this = self;
        this.filter_config = filter_config;
        this
    }

    /// Limit candidate files to this many bytes.
    pub fn max_file_size(self, max_file_size: Option<u64>) -> (r: ScanConfigBuilder)
        ensures
            r.max_file_size == max_file_size,
            r.roots == self.roots,
            r.detection == self.detection,
            r.includes == self.includes,
            r.exclude == self.exclude,
            r.follow_gitignore == self.follow_gitignore,
            r.include_hidden == self.include_hidden,
            r.builtin_excludes == self.builtin_excludes,
            r.sort_config == self.sort_config,
            r.filter_config == self.filter_config,
            r.threads == self.threads,
            r.read_buffer_size == self.read_buffer_size,
            r.cancellation == self.cancellation,
    {
        let mut this = self;
        this.max_file_size = max_file_size;
        this
    }

    /// Worker count; `None` lets the runtime decide.
    pub fn threads(self, threads: Option<usize>) -> (r: ScanConfigBuilder)
        ensures
            r.threads == threads,
            r.roots == self.roots,
            r.detection == self.detection,
            r.includes == self.includes,
            r.exclude == self.exclude,
            r.follow_gitignore == self.follow_gitignore,
            r.include_hidden == self.include_hidden,
            r.builtin_excludes == self.builtin_excludes,
            r.sort_config == self.sort_config,
            r.filter_config == self.filter_config,
            r.max_file_size == self.max_file_size,
            r.read_buffer_size == self.read_buffer_size,
            r.cancellation == self.cancellation,
    {
        let mut this = self;
        this.threads = threads;
        this
    }

    /// The I/O read buffer, clamped to at least 8 KiB.
    pub fn read_buffer_size(self, bytes: usize) -> (r: ScanConfigBuilder)
        ensures
            r.read_buffer_size == if bytes >= 8192 {
                bytes as int
            } else {
                8192
            },
            r.roots == self.roots,
            r.detection == self.detection,
            r.includes == self.includes,
            r.exclude == self.exclude,
            r.follow_gitignore == self.follow_gitignore,
            r.include_hidden == self.include_hidden,
            r.builtin_excludes == self.builtin_excludes,
            r.sort_config == self.sort_config,
            r.filter_config == self.filter_config,
            r.max_file_size == self.max_file_size,
            r.threads == self.threads,
            r.cancellation == self.cancellation,
    {
        let mut this = self;
        this.read_buffer_size = if bytes >= 8192 {
            bytes
        } else {
            8192
        };
        this
    }

    /// Attach a cancellation source.
    pub fn cancellation_token(self, token: CancellationToken) -> (r: ScanConfigBuilder)
        ensures
            r.cancellation is Some,
            r.roots == self.roots,
            r.detection == self.detection,
            r.includes == self.includes,
            r.exclude == self.exclude,
            r.follow_gitignore == self.follow_gitignore,
            r.include_hidden == self.include_hidden,
            r.builtin_excludes == self.builtin_excludes,
            r.sort_config == self.sort_config,
            r.filter_config == self.filter_config,
            r.max_file_size == self.max_file_size,
            r.threads == self.threads,
            r.read_buffer_size == self.read_buffer_size,
    {
        let mut this = self;
        this.cancellation = Some(token);
        this
    }

    /// Freeze the options into a `ScanConfig`.
    pub fn build(self) -> (r: ScanConfig)
        ensures
            r.roots == self.roots,
            r.detection == self.detection,
            r.includes == self.includes,
            r.exclude == self.exclude,
            r.follow_gitignore == self.follow_gitignore,
            r.include_hidden == self.include_hidden,
            r.builtin_excludes == self.builtin_excludes,
            r.sort_config == self.sort_config,
            r.filter_config == self.filter_config,
            r.max_file_size == self.max_file_size,
            r.threads == self.threads,
            r.read_buffer_size == self.read_buffer_size,
            r.cancellation == self.cancellation,
    {
        ScanConfig {
            roots: self.roots,
            detection: self.detection,
            includes: self.includes,
            exclude: self.exclude,
            follow_gitignore: self.follow_gitignore,
            include_hidden: self.include_hidden,
            builtin_excludes: self.builtin_excludes,
            sort_config: self.sort_config,
            filter_config: self.filter_config,
            max_file_size: self.max_file_size,
            threads: self.threads,
            read_buffer_size: self.read_buffer_size,
            cancellation: self.cancellation,
        }
    }
}

impl Default for ScanConfigBuilder {
    fn default() -> (r: ScanConfigBuilder)
        ensures
            r.spec_is_default(),
    {
        ScanConfigBuilder::new()
    }
}

} // verus!
