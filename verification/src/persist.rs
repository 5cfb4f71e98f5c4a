//! Bookkeeping of the story store: where it keeps its data, how many stories each shard holds,
//! and what became of the scrapes handed to it.
use vstd::prelude::*;

use crate::shard::Shard;

verus! {

/// Stories and scrapes in one shard.
#[derive(Clone, Copy, Debug, PartialEq, Eq, Structural)]
pub struct ShardSummary {
    pub story_count: usize,
    pub scrape_count: usize,
}

impl Default for ShardSummary {
    fn default() -> (r: Self)
        ensures
            r.story_count == 0 && r.scrape_count == 0,
    {
        ShardSummary { story_count: 0, scrape_count: 0 }
    }
}

/// Stories and scrapes per shard (by the shard's name), and in all.
pub struct StorageSummary {
    pub by_shard: Vec<(String, ShardSummary)>,
    pub total: ShardSummary,
}

/// Search hits per shard, and in all.
pub struct SearchSummary {
    pub by_shard: Vec<(String, usize)>,
    pub total: usize,
}

/// What can ride along with a story fetched from the store.
pub trait StoryScrapePayload {}

impl StoryScrapePayload for () {}

impl StoryScrapePayload for Shard {}

/// What became of one scrape handed to the store.
#[derive(Clone, Copy, Debug, PartialEq, Eq, Structural, Hash, PartialOrd, Ord)]
pub enum ScrapePersistResult {
    /// The story was merged with an existing story whilst we tried to re-insert it.
    MergedWithExistingStory,
    /// The scrape has already been added.
    AlreadyPartOfExistingStory,
    /// This is a new story.
    NewStory,
    /// The story was not found whilst we tried to re-insert it.
    NotFound,
}

/// How many scrapes ended each way.
#[derive(Clone, Copy, Debug, PartialEq, Eq, Structural)]
pub struct ScrapePersistResultSummary {
    pub merged: usize,
    pub existing: usize,
    pub new: usize,
    pub not_found: usize,
}

impl Default for ScrapePersistResultSummary {
    fn default() -> (r: Self)
        ensures
            r == (ScrapePersistResultSummary { merged: 0, existing: 0, new: 0, not_found: 0 }),
    {
        ScrapePersistResultSummary { merged: 0, existing: 0, new: 0, not_found: 0 }
    }
}

/// The number of times `x` occurs in `s`.
pub open spec fn count_of(s: Seq<ScrapePersistResult>, x: ScrapePersistResult) -> nat
    decreases s.len(),
{
    if s.len() == 0 {
        0
    } else {
        count_of(s.drop_last(), x) + if s.last() == x { 1nat } else { 0nat }
    }
}

proof fn lemma_count_bound(s: Seq<ScrapePersistResult>, x: ScrapePersistResult)
    ensures
        count_of(s, x) <= s.len(),
    decreases s.len(),
{
    if s.len() > 0 {
        lemma_count_bound(s.drop_last(), x);
    }
}

impl ScrapePersistResultSummary {
    /// Adds another summary's counts to this one's.
    pub fn add_assign(&mut self, rhs: Self)
        requires
            old(self).merged + rhs.merged <= usize::MAX,
            old(self).existing + rhs.existing <= usize::MAX,
            old(self).new + rhs.new <= usize::MAX,
            old(self).not_found + rhs.not_found <= usize::MAX,
        ensures
            final(self).merged == old(self).merged + rhs.merged,
            final(self).existing == old(self).existing + rhs.existing,
            final(self).new == old(self).new + rhs.new,
            final(self).not_found == old(self).not_found + rhs.not_found,
    {
        self.merged = self.merged + rhs.merged;
        self.existing = self.existing + rhs.existing;
        self.new = self.new + rhs.new;
        self.not_found = self.not_found + rhs.not_found;
    }
}

/// Every result is counted once: the four counts add up to the number of results.
pub proof fn lemma_counts_add_up(s: Seq<ScrapePersistResult>)
    ensures
        count_of(s, ScrapePersistResult::MergedWithExistingStory) + count_of(
            s,
            ScrapePersistResult::AlreadyPartOfExistingStory,
        ) + count_of(s, ScrapePersistResult::NewStory) + count_of(s, ScrapePersistResult::NotFound)
            == s.len(),
    decreases s.len(),
{
    if s.len() > 0 {
        lemma_counts_add_up(s.drop_last());
    }
}

/// Summarizes a list of results.
pub trait ScrapePersistResultSummarizer {
    fn summary(&self) -> ScrapePersistResultSummary;
}

impl ScrapePersistResultSummarizer for Vec<ScrapePersistResult> {
    fn summary(&self) -> (r: ScrapePersistResultSummary)
        ensures
            r.merged == count_of(self@, ScrapePersistResult::MergedWithExistingStory),
            r.existing == count_of(self@, ScrapePersistResult::AlreadyPartOfExistingStory),
            r.new == count_of(self@, ScrapePersistResult::NewStory),
            r.not_found == count_of(self@, ScrapePersistResult::NotFound),
    {
        let mut summary = ScrapePersistResultSummary { merged: 0, existing: 0, new: 0, not_found: 0 };
        let mut i: usize = 0;
        while i < self.len()
            invariant
                i <= self@.len(),
                summary.merged == count_of(self@.take(i as int), ScrapePersistResult::MergedWithExistingStory),
                summary.existing == count_of(self@.take(i as int), ScrapePersistResult::AlreadyPartOfExistingStory),
                summary.new == count_of(self@.take(i as int), ScrapePersistResult::NewStory),
                summary.not_found == count_of(self@.take(i as int), ScrapePersistResult::NotFound),
            decreases self@.len() - i,
        {
            assert(self@.take(i + 1).drop_last() =~= self@.take(i as int));
            proof {
                lemma_count_bound(self@.take(i as int), ScrapePersistResult::MergedWithExistingStory);
                lemma_count_bound(self@.take(i as int), ScrapePersistResult::AlreadyPartOfExistingStory);
                lemma_count_bound(self@.take(i as int), ScrapePersistResult::NewStory);
                lemma_count_bound(self@.take(i as int), ScrapePersistResult::NotFound);
            }
            match self[i] {
                ScrapePersistResult::MergedWithExistingStory => summary.merged = summary.merged + 1,
                ScrapePersistResult::AlreadyPartOfExistingStory => summary.existing = summary.existing + 1,
                ScrapePersistResult::NewStory => summary.new = summary.new + 1,
                ScrapePersistResult::NotFound => summary.not_found = summary.not_found + 1,
            }
            i = i + 1;
        }
        assert(self@.take(self@.len() as int) =~= self@);
        summary
    }
}

/// Where the store keeps its data.
#[derive(Clone, Debug)]
pub enum PersistLocation {
    /// In memory.
    Memory,
    /// Under the given path.
    Path(String),
}

/// Whether `p` is joined onto `base` the same way on every platform: `p` is not empty, starts
/// with no separator (a slash or a backslash) and holds no `:` (so it has neither root nor drive), and
/// `base` does not start with a backslash (so it is no verbatim or network path).
pub open spec fn plain_join(base: Seq<char>, p: Seq<char>) -> bool {
    &&& p.len() > 0
    &&& p[0] != '/'
    &&& p[0] != '\\'
    &&& !p.contains(':')
    &&& !(base.len() > 0 && base[0] == '\\')
}

/// `q` is `base` followed by `p`, with at most one separator between them, and none where
/// `base` is empty or ends with `/`.
pub open spec fn joined_as(base: Seq<char>, p: Seq<char>, q: Seq<char>) -> bool {
    &&& q == base + p || q == base + seq!['/'] + p || q == base + seq!['\\'] + p
    &&& (base.len() == 0 || base.last() == '/') ==> q == base + p
}

/// `Path::join` (that is, `PathBuf::push`) of two UTF-8 texts, read back as text. For a plain
/// relative `p`, `std` documents that the base is extended by `p`, after a separator where the
/// base does not end in one; which separator, and what an absolute `p` does, depend on the
/// platform and are left unsaid.
#[verifier::external_body]
fn join_path(base: &str, p: &str) -> (r: String)
    ensures
        plain_join(base@, p@) ==> joined_as(base@, p@, r@),
{
    std::path::Path::new(base).join(p).to_string_lossy().into_owned()
}

impl PersistLocation {
    /// The location `p` below this one; memory stays memory.
    pub fn join(&self, p: &str) -> (r: PersistLocation)
        ensures
            self is Memory <==> r is Memory,
            self matches PersistLocation::Path(b) ==> r matches PersistLocation::Path(q) && (plain_join(b@, p@)
                ==> joined_as(b@, p@, q@)),
    {
        match self {
            PersistLocation::Memory => PersistLocation::Memory,
            PersistLocation::Path(path) => PersistLocation::Path(join_path(path.as_str(), p)),
        }
    }
}

/// How a shard's backup went.
#[derive(Clone, Copy, Debug, PartialEq, Eq, Structural)]
pub enum BackupResult {
    Empty,
    NoChange,
    Success(usize),
}

/// Backs shards up into a directory.
pub struct BackerUpper {
    pub path: String,
}

impl BackerUpper {
    pub fn new(path: &str) -> (r: Self)
        ensures
            r.path@ == path@,
    {
        BackerUpper { path: path.to_owned() }
    }
}

} // verus!
