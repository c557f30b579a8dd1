//! Toolkit configuration: defaults and environment overrides.
use vstd::prelude::*;
use crate::database::texts;

verus! {

/// The whole configuration.
#[derive(Debug, Clone)]
pub struct NeodosConfig {
    pub workspace: WorkspaceConfig,
    pub cache: CacheConfig,
    pub indexing: IndexingConfig,
}

/// Which directories are indexed and how.
#[derive(Debug, Clone)]
pub struct WorkspaceConfig {
    pub roots: Vec<String>,
    pub max_files: usize,
    pub exclude_patterns: Vec<String>,
    pub watch_enabled: bool,
}

/// Size of the document cache.
#[derive(Debug, Clone)]
pub struct CacheConfig {
    pub documents: usize,
}

/// How indexing runs.
#[derive(Debug, Clone)]
pub struct IndexingConfig {
    pub strategy: IndexingStrategy,
    pub threads: usize,
}

/// Indexing strategies.
#[derive(Debug, Clone, Copy, PartialEq, Eq, Structural)]
pub enum IndexingStrategy {
    Incremental,
}

pub open spec fn default_excludes() -> Seq<Seq<char>> {
    seq![
        "target/**"@,
        ".git/**"@,
        "**/*.bin"@,
        "**/*.elf"@,
        "**/*.efi"@,
        "**/*.img"@,
        "**/*.vdi"@,
        "**/*.log"@,
    ]
}

/// The defaults: the current directory as root, at most 10000 files, build
/// outputs and images excluded, watching on, 256 cached documents,
/// incremental indexing on all cores.
pub open spec fn is_default_config(c: NeodosConfig) -> bool {
    &&& texts(c.workspace.roots@) == seq!["."@]
    &&& c.workspace.max_files == 10000
    &&& texts(c.workspace.exclude_patterns@) == default_excludes()
    &&& c.workspace.watch_enabled
    &&& c.cache.documents == 256
    &&& c.indexing.strategy == IndexingStrategy::Incremental
    &&& c.indexing.threads == 0
}

impl Default for NeodosConfig {
    fn default() -> (r: NeodosConfig)
        ensures
            is_default_config(r),
    {
        let mut roots: Vec<String> = Vec::new();
        roots.push(String::from_str("."));
        let mut ex: Vec<String> = Vec::new();
        ex.push(String::from_str("target/**"));
        ex.push(String::from_str(".git/**"));
        ex.push(String::from_str("**/*.bin"));
        ex.push(String::from_str("**/*.elf"));
        ex.push(String::from_str("**/*.efi"));
        ex.push(String::from_str("**/*.img"));
        ex.push(String::from_str("**/*.vdi"));
        ex.push(String::from_str("**/*.log"));
        let r = NeodosConfig {
            workspace: WorkspaceConfig {
                roots,
                max_files: 10000,
                exclude_patterns: ex,
                watch_enabled: true,
            },
            cache: CacheConfig { documents: 256 },
            indexing: IndexingConfig { strategy: IndexingStrategy::Incremental, threads: 0 },
        };
        assert(texts(r.workspace.roots@) =~= seq!["."@]);
        assert(texts(r.workspace.exclude_patterns@) =~= default_excludes());
        r
    }
}

/// The values of the `NEODOS_LSP_ROOT`, `NEODOS_TOOLKIT_MAX_FILES`,
/// `NEODOS_TOOLKIT_CACHE_SIZE`, `NEODOS_TOOLKIT_THREADS` and
/// `NEODOS_TOOLKIT_WATCH` variables, where set.
#[derive(Debug, Clone)]
pub struct EnvOverrides {
    pub root: Option<String>,
    pub max_files: Option<String>,
    pub cache_size: Option<String>,
    pub threads: Option<String>,
    pub watch: Option<String>,
}

/// `usize::from_str`.
pub open spec fn parse_usize_spec(s: Seq<char>) -> Option<usize> {
    match crate::text::parse_u64_spec(s) {
        Some(n) => if n <= usize::MAX {
            Some(n as usize)
        } else {
            None
        },
        None => None,
    }
}

pub fn parse_usize(s: &str) -> (r: Option<usize>)
    ensures
        r == parse_usize_spec(s@),
{
    let cs = crate::text::chars_of(s);
    match crate::text::parse_u64(cs.as_slice()) {
        Some(n) => if n <= usize::MAX as u64 {
            Some(n as usize)
        } else {
            None
        },
        None => None,
    }
}

pub open spec fn ascii_lower(c: char) -> char {
    if 'A' <= c <= 'Z' {
        ((c as u32) + 32) as char
    } else {
        c
    }
}

/// `str::eq_ignore_ascii_case`.
pub open spec fn eq_ignore_ascii_case_spec(a: Seq<char>, b: Seq<char>) -> bool {
    a.len() == b.len() && forall|i: int| 0 <= i < a.len() ==> ascii_lower(#[trigger] a[i]) == ascii_lower(b[i])
}

fn lower_ascii(c: char) -> (r: char)
    ensures
        r == ascii_lower(c),
{
    if 'A' <= c && c <= 'Z' {
        ((c as u32) + 32) as u8 as char
    } else {
        c
    }
}

pub fn eq_ignore_ascii_case(a: &[char], b: &[char]) -> (r: bool)
    ensures
        r == eq_ignore_ascii_case_spec(a@, b@),
{
    if a.len() != b.len() {
        return false;
    }
    let mut i: usize = 0;
    while i < a.len()
        invariant
            a@.len() == b@.len(),
            i <= a@.len(),
            forall|k: int| 0 <= k < i ==> ascii_lower(#[trigger] a@[k]) == ascii_lower(b@[k]),
        decreases a@.len() - i,
    {
        if lower_ascii(a[i]) != lower_ascii(b[i]) {
            return false;
        }
        i = i + 1;
    }
    true
}

/// Watching is on for `1` and for `true` in any ASCII case.
pub open spec fn watch_value(v: Seq<char>) -> bool {
    v == "1"@ || eq_ignore_ascii_case_spec(v, "true"@)
}

/// `c` with the environment's overrides applied: a root replaces the roots;
/// numbers that parse replace the limits; a watch value sets watching.
pub open spec fn with_overrides(c: NeodosConfig, e: EnvOverrides, r: NeodosConfig) -> bool {
    &&& texts(r.workspace.roots@) == match e.root {
        Some(v) => seq![v@],
        None => texts(c.workspace.roots@),
    }
    &&& r.workspace.max_files == match e.max_files {
        Some(v) => match parse_usize_spec(v@) {
            Some(n) => n,
            None => c.workspace.max_files,
        },
        None => c.workspace.max_files,
    }
    &&& r.cache.documents == match e.cache_size {
        Some(v) => match parse_usize_spec(v@) {
            Some(n) => n,
            None => c.cache.documents,
        },
        None => c.cache.documents,
    }
    &&& r.indexing.threads == match e.threads {
        Some(v) => match parse_usize_spec(v@) {
            Some(n) => n,
            None => c.indexing.threads,
        },
        None => c.indexing.threads,
    }
    &&& r.workspace.watch_enabled == match e.watch {
        Some(v) => watch_value(v@),
        None => c.workspace.watch_enabled,
    }
    &&& texts(r.workspace.exclude_patterns@) == texts(c.workspace.exclude_patterns@)
    &&& r.indexing.strategy == c.indexing.strategy
}

impl NeodosConfig {
    /// The default configuration with the environment's overrides applied.
    pub fn detection(env: &EnvOverrides) -> (r: NeodosConfig)
        ensures
            exists|d: NeodosConfig| is_default_config(d) && with_overrides(d, *env, r),
    {
        let d = NeodosConfig::default();
        let ghost dg = d;
        let mut cfg = d;
        if let Some(v) = &env.root {
            let mut roots: Vec<String> = Vec::new();
            roots.push(v.clone());
            cfg.workspace.roots = roots;
            assert(texts(cfg.workspace.roots@) =~= seq![v@]);
        }
        if let Some(v) = &env.max_files {
            if let Some(n) = parse_usize(v.as_str()) {
                cfg.workspace.max_files = n;
            }
        }
        if let Some(v) = &env.cache_size {
            if let Some(n) = parse_usize(v.as_str()) {
                cfg.cache.documents = n;
            }
        }
        if let Some(v) = &env.threads {
            if let Some(n) = parse_usize(v.as_str()) {
                cfg.indexing.threads = n;
            }
        }
        if let Some(v) = &env.watch {
            let vc = crate::text::chars_of(v.as_str());
            let one = crate::text::chars_of("1");
            let tr = crate::text::chars_of("true");
            cfg.workspace.watch_enabled = crate::indexer::chars_eq(vc.as_slice(), one.as_slice())
                || eq_ignore_ascii_case(vc.as_slice(), tr.as_slice());
        }
        assert(with_overrides(dg, *env, cfg));
        cfg
    }
}

} // verus!
