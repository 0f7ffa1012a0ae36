//! File-name search over a directory: request validation, the keyword test
//! applied to each file name, and the collector that keeps at most `limit`
//! matches and tells the directory walk when to stop.
use vstd::prelude::*;
use crate::text::{chars_of, contains_chars, contains_seq, extend_str, string_of, trim, trim_str};
use crate::unicode::{lowercase_chars, lowercase_string, unicode_lowercase};

verus! {

/// Query of a file-name search: the directory, the keyword and the largest
/// number of results (100 when absent).
pub struct FsSearchQuery {
    pub dir: String,
    pub q: String,
    pub limit: Option<usize>,
}

/// A file or directory whose name matched.
pub struct FsSearchItem {
    pub name: String,
    pub path: String,
    pub size: u64,
    pub is_directory: bool,
    pub extension: Option<String>,
    /// Seconds since the Unix epoch.
    pub mtime: Option<u64>,
}

/// Answer of a file-name search; `source` is `everything`, `fast_walk` or
/// `none`.
pub struct FsSearchResponse {
    pub items: Vec<FsSearchItem>,
    pub total: usize,
    pub duration_ms: u64,
    pub source: String,
    pub error: Option<String>,
}

/// The default result limit of a query.
pub fn default_fs_limit() -> (r: Option<usize>)
    ensures
        r == Some(100usize),
{
    Some(100)
}

/// The limit used: the requested one (100 when absent), clamped to 1..=2000.
pub open spec fn fs_limit_spec(limit: Option<usize>) -> int {
    let l: int = match limit {
        Some(l) => l as int,
        None => 100,
    };
    if l < 1 {
        1
    } else if l > 2000 {
        2000
    } else {
        l
    }
}

/// The limit a query is served with.
pub fn effective_fs_limit(limit: Option<usize>) -> (r: usize)
    ensures
        r == fs_limit_spec(limit),
{
    let l = match limit {
        Some(l) => l,
        None => 100,
    };
    if l < 1 {
        1
    } else if l > 2000 {
        2000
    } else {
        l
    }
}

/// What a search request comes to.
pub enum FsSearchPlan {
    /// No directory given (HTTP 400).
    MissingDir,
    /// The directory does not exist (HTTP 404).
    DirNotFound { dir: String },
    /// An empty keyword: no results (HTTP 200).
    EmptyKeyword,
    /// Search `dir` for names containing `keyword`, keeping at most `limit`.
    Search { dir: String, keyword: String, limit: usize },
}

/// The directory of a query, trimmed.
pub fn search_dir(query: &FsSearchQuery) -> (r: String)
    ensures
        r@ == trim(query.dir@),
{
    trim_str(query.dir.as_str())
}

/// Decides a search request; `dir_exists` tells whether the trimmed
/// directory exists (only consulted when it is not empty).
pub fn plan_fs_search(query: &FsSearchQuery, dir_exists: bool) -> (r: FsSearchPlan)
    ensures
        trim(query.dir@).len() == 0 ==> r is MissingDir,
        trim(query.dir@).len() > 0 && !dir_exists ==> (r matches FsSearchPlan::DirNotFound { dir } && dir@
            == trim(query.dir@)),
        trim(query.dir@).len() > 0 && dir_exists && trim(query.q@).len() == 0 ==> r is EmptyKeyword,
        trim(query.dir@).len() > 0 && dir_exists && trim(query.q@).len() > 0 ==> (r matches FsSearchPlan::Search {
            dir,
            keyword,
            limit,
        } && dir@ == trim(query.dir@) && keyword@ == trim(query.q@) && limit == fs_limit_spec(query.limit)),
{
    let dir = trim_str(query.dir.as_str());
    let q = trim_str(query.q.as_str());
    let limit = effective_fs_limit(query.limit);
    if chars_of(dir.as_str()).len() == 0 {
        FsSearchPlan::MissingDir
    } else if !dir_exists {
        FsSearchPlan::DirNotFound { dir }
    } else if chars_of(q.as_str()).len() == 0 {
        FsSearchPlan::EmptyKeyword
    } else {
        FsSearchPlan::Search { dir, keyword: q, limit }
    }
}

impl FsSearchPlan {
    /// The HTTP status of the plan's answer.
    pub fn status_code(&self) -> (r: u16)
        ensures
            r == match self {
                FsSearchPlan::MissingDir => 400u16,
                FsSearchPlan::DirNotFound { .. } => 404u16,
                _ => 200u16,
            },
    {
        match self {
            FsSearchPlan::MissingDir => 400,
            FsSearchPlan::DirNotFound { .. } => 404,
            _ => 200,
        }
    }

    /// The answer of a plan that does not search, after `duration_ms`;
    /// `None` for a search.
    pub fn immediate_response(&self, duration_ms: u64) -> (r: Option<FsSearchResponse>)
        ensures
            (r is None) == (self is Search),
            r matches Some(resp) ==> resp.items@.len() == 0 && resp.total == 0 && resp.duration_ms
                == duration_ms,
            r matches Some(resp) ==> (resp.error is None <==> self is EmptyKeyword),
            r matches Some(resp) ==> resp.source@ == (if self is EmptyKeyword {
                "fast_walk"@
            } else {
                "none"@
            }),
            self matches FsSearchPlan::DirNotFound { dir } ==> (r matches Some(resp) && resp.error
                matches Some(e) && e@ == "搜索目录不存在: "@ + dir@),
    {
        match self {
            FsSearchPlan::MissingDir => Some(
                FsSearchResponse {
                    items: Vec::new(),
                    total: 0,
                    duration_ms,
                    source: "none".to_owned(),
                    error: Some("缺少必要参数 'dir' 或路径为空".to_owned()),
                },
            ),
            FsSearchPlan::DirNotFound { dir } => {
                let mut msg = chars_of("搜索目录不存在: ");
                extend_str(&mut msg, dir.as_str());
                Some(
                    FsSearchResponse {
                        items: Vec::new(),
                        total: 0,
                        duration_ms,
                        source: "none".to_owned(),
                        error: Some(string_of(&msg)),
                    },
                )
            },
            FsSearchPlan::EmptyKeyword => Some(
                FsSearchResponse {
                    items: Vec::new(),
                    total: 0,
                    duration_ms,
                    source: "fast_walk".to_owned(),
                    error: None,
                },
            ),
            FsSearchPlan::Search { .. } => None,
        }
    }
}

/// The keyword as names are compared with it: lower-cased.
pub fn fs_keyword(keyword: &str) -> (r: String)
    ensures
        r@ == unicode_lowercase(keyword@),
{
    lowercase_string(keyword)
}

/// Whether a file name matches a lower-cased keyword: its lower-cased form
/// contains the keyword.
pub fn name_matches(file_name: &str, keyword_lower: &str) -> (r: bool)
    ensures
        r == contains_seq(unicode_lowercase(file_name@), keyword_lower@),
{
    let name = lowercase_chars(&chars_of(file_name));
    contains_chars(&name, &chars_of(keyword_lower))
}

/// The matches a directory walk has found: every offered match is counted,
/// the first `limit` are kept.
pub struct FsMatchCollector {
    items: Vec<FsSearchItem>,
    count: usize,
    limit: usize,
}

impl FsMatchCollector {
    /// The matches kept so far.
    pub closed spec fn kept(&self) -> Seq<FsSearchItem> {
        self.items@
    }

    /// How many matches were offered (wrapping at `usize::MAX`).
    pub closed spec fn offered(&self) -> usize {
        self.count
    }

    /// The largest number of matches kept.
    pub closed spec fn cap(&self) -> usize {
        self.limit
    }

    /// A collector keeping at most `limit` matches.
    pub fn new(limit: usize) -> (r: FsMatchCollector)
        ensures
            r.kept().len() == 0,
            r.offered() == 0,
            r.cap() == limit,
    {
        FsMatchCollector { items: Vec::new(), count: 0, limit }
    }

    /// Records a match: it is kept while fewer than `limit` are kept. Returns
    /// whether the walk should go on (fewer than `limit` offered so far).
    pub fn offer(&mut self, item: FsSearchItem) -> (go_on: bool)
        ensures
            final(self).cap() == old(self).cap(),
            final(self).offered() == old(self).offered().wrapping_add(1),
            final(self).kept() == (if old(self).kept().len() < old(self).cap() {
                old(self).kept().push(item)
            } else {
                old(self).kept()
            }),
            go_on == (final(self).offered() < old(self).cap()),
    {
        let current = self.count.wrapping_add(1);
        self.count = current;
        if self.items.len() < self.limit {
            self.items.push(item);
        }
        current < self.limit
    }

    /// The matches kept.
    pub fn into_items(self) -> (r: Vec<FsSearchItem>)
        ensures
            r@ == self.kept(),
    {
        self.items
    }
}

/// A search never keeps more matches than its limit, however many it is
/// offered: each offer keeps the collector within its cap.
pub proof fn law_matches_within_limit(before: FsMatchCollector, after: FsMatchCollector, item: FsSearchItem)
    requires
        before.kept().len() <= before.cap(),
        after.cap() == before.cap(),
        after.kept() == (if before.kept().len() < before.cap() {
            before.kept().push(item)
        } else {
            before.kept()
        }),
    ensures
        after.kept().len() <= after.cap(),
        after.kept().len() >= before.kept().len(),
{
}

} // verus!
