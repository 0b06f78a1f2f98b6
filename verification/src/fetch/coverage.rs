//! What an acquisition records about itself: the requested, verified and actually observed
//! ranges, the retained pages, and what is still unresolved.

use crate::dataset::{find_object, is_object, ObjectRecord};
use crate::market::{DatasetRole, NativeGranularity};
use crate::search::first_where;
use crate::text::{copy_optional, refusal, same_text};
use vstd::prelude::*;
use vstd::string::*;

verus! {

/// The object path of the coverage record.
pub const COVERAGE_PATH: &'static str = "provenance/coverage.json";

/// The object path of the current acquisition's page bundle.
pub const BUNDLE_PATH: &'static str = "raw/pages.bin";

/// Object paths beneath which a seeded generation retains its seed's manifest and objects.
pub const SEED_PREFIX: &'static str = "seed/";

/// The acquisition outcome that leaves the intent pending for the next invocation.
pub const BUDGET_SHORTFALL: &'static str = "budget";

/// The provider's latest observation lies before the requested end: not a gap in what was
/// acquired.
pub const TAIL_SHORTFALL: &'static str = "unresolved_tail";

/// A page held no row.
pub const EMPTY_SHORTFALL: &'static str = "empty_page";

/// A page reached no further back than the pages before it.
pub const STALLED_SHORTFALL: &'static str = "no_progress";

/// A range of moments: the start belongs to it, the end does not.
#[derive(Debug, Clone, Copy, PartialEq, Eq, Structural)]
pub struct Range {
    pub start: i64,
    pub end: i64,
}

/// The first and last event times of a set of rows.
#[derive(Debug, Clone, Copy, PartialEq, Eq, Structural)]
pub struct Actual {
    pub first: i64,
    pub last: i64,
}

/// Which request of which acquisition a page came from.
#[derive(Debug)]
pub struct OccurrenceIdentity {
    pub acquisition_id: String,
    pub intent: Option<String>,
    pub ordinal: u64,
}

/// One retained page: the object that holds it and what it covers.
#[derive(Debug)]
pub struct PageCoverage {
    pub occurrence: Option<OccurrenceIdentity>,
    pub path: String,
    pub sha256: String,
    pub bytes: u64,
    /// Byte offset within `path` when it names a bundle; absent for single-page objects.
    pub offset: Option<u64>,
    pub anchor: Option<String>,
    pub rows: u64,
    pub first: Option<i64>,
    pub last: Option<i64>,
    /// Local receipt time of the request that produced the page; absent in records written
    /// before it was retained.
    pub receipt_time: Option<i64>,
}

/// Why an acquisition stopped early and the range that it leaves unresolved.
#[derive(Debug)]
pub struct Shortfall {
    pub reason: String,
    pub unresolved: Range,
}

/// The imported generation a lineage extends and the source context it was bound to.
#[derive(Debug)]
pub struct SeedLineage {
    pub generation: String,
    pub source_identity: String,
}

/// The identity of the current acquisition's raw page bundle.
#[derive(Debug)]
pub struct ObjectIdentitySummary {
    pub sha256: String,
    pub bytes: u64,
}

/// Requested, directly observed, and verified coverage are separate immutable facts.
#[derive(Debug)]
pub struct HistoryCoverage {
    pub schema_version: u32,
    pub source_identity: String,
    pub broker: String,
    pub provider_symbol: String,
    pub role: DatasetRole,
    pub requested: Range,
    pub verified: Option<Range>,
    pub actual: Option<Actual>,
    pub rows: u64,
    pub pages: Vec<PageCoverage>,
    /// This acquisition's bundle; carried bundles are bound by their source object records.
    pub bundle: Option<ObjectIdentitySummary>,
    pub shortfall: Option<Shortfall>,
    pub tail_shortfall: Option<Shortfall>,
    pub native_granularity: NativeGranularity,
    pub seed: Option<SeedLineage>,
}

/// One request made in this invocation, recorded whether or not its bytes were new.
#[derive(Debug)]
pub struct PageReceipt {
    pub occurrence: Option<OccurrenceIdentity>,
    pub anchor: Option<String>,
    pub sha256: String,
    pub bytes: u64,
    pub rows: u64,
    pub receipt_time: i64,
}

/// Durable progress of one bounded acquisition: the pinned baseline and range, and every
/// retained page in request order. Resuming replays the pages from their retained bytes.
#[derive(Debug)]
pub struct Progress {
    pub baseline: Option<String>,
    pub start: i64,
    pub cutoff: i64,
    pub pages: Vec<PageCoverage>,
}

/// What a durable store of progress is told. The header is told once, and a page that is replayed
/// is not told again: `crate::fetch::progress` decides it.
pub enum ProgressEvent<'a> {
    Started(&'a Progress),
    Received(&'a PageCoverage),
    Page(&'a PageCoverage),
    Invalidate,
}

/// How many passes a repeated acquisition makes.
#[derive(Debug, Clone, Copy, PartialEq, Eq, Structural)]
pub enum PassLimit {
    Unbounded,
    Exactly(usize),
}

/// The range one pass acquires: an explicit range, or everything from the acquisition frontier
/// (less the configured overlap) up to a pinned cutoff.
#[derive(Debug, Clone, Copy, PartialEq, Eq, Structural)]
pub enum Requested {
    Explicit { start: i64, end: i64 },
    Advance { cutoff: i64 },
}

impl Clone for OccurrenceIdentity {
    fn clone(&self) -> (copy: Self)
        ensures
            copy == *self,
    {
        OccurrenceIdentity {
            acquisition_id: self.acquisition_id.clone(),
            intent: copy_optional(&self.intent),
            ordinal: self.ordinal,
        }
    }
}

/// A copy of an optional request identity.
pub fn copy_occurrence(value: &Option<OccurrenceIdentity>) -> (copy: Option<OccurrenceIdentity>)
    ensures
        copy == *value,
{
    match value {
        Some(identity) => Some(identity.clone()),
        None => None,
    }
}

impl Clone for PageCoverage {
    fn clone(&self) -> (copy: Self)
        ensures
            copy == *self,
    {
        PageCoverage {
            occurrence: copy_occurrence(&self.occurrence),
            path: self.path.clone(),
            sha256: self.sha256.clone(),
            bytes: self.bytes,
            offset: self.offset,
            anchor: copy_optional(&self.anchor),
            rows: self.rows,
            first: self.first,
            last: self.last,
            receipt_time: self.receipt_time,
        }
    }
}

impl Clone for Shortfall {
    fn clone(&self) -> (copy: Self)
        ensures
            copy == *self,
    {
        Shortfall { reason: self.reason.clone(), unresolved: self.unresolved }
    }
}

impl Clone for SeedLineage {
    fn clone(&self) -> (copy: Self)
        ensures
            copy == *self,
    {
        SeedLineage {
            generation: self.generation.clone(),
            source_identity: self.source_identity.clone(),
        }
    }
}

/// What a shortfall says: its reason and its unresolved range.
pub open spec fn shortfall_of(value: Option<Shortfall>) -> Option<(Seq<char>, Range)> {
    match value {
        Some(shortfall) => Some((shortfall.reason@, shortfall.unresolved)),
        None => None,
    }
}

/// Whether two optional shortfalls say the same.
pub fn same_shortfall(left: &Option<Shortfall>, right: &Option<Shortfall>) -> (same: bool)
    ensures
        same == (shortfall_of(*left) == shortfall_of(*right)),
{
    match (left, right) {
        (Some(left), Some(right)) => same_text(left.reason.as_str(), right.reason.as_str())
            && left.unresolved == right.unresolved,
        (None, None) => true,
        _ => false,
    }
}

/// Whether two optional ranges are the same.
pub fn same_range(left: &Option<Range>, right: &Option<Range>) -> (same: bool)
    ensures
        same == (*left == *right),
{
    match (left, right) {
        (Some(left), Some(right)) => *left == *right,
        (None, None) => true,
        _ => false,
    }
}

/// The receipt of a page that was received at a known time.
pub open spec fn receipt_of(page: PageCoverage, receipt: PageReceipt) -> bool {
    &&& receipt.occurrence == page.occurrence
    &&& receipt.anchor == page.anchor
    &&& receipt.sha256 == page.sha256
    &&& receipt.bytes == page.bytes
    &&& receipt.rows == page.rows
    &&& page.receipt_time == Some(receipt.receipt_time)
}

/// The receipt of a page, where the page recorded when it was received.
pub fn page_receipt(page: &PageCoverage) -> (receipt: Option<PageReceipt>)
    ensures
        receipt is Some <==> page.receipt_time is Some,
        receipt is Some ==> receipt_of(*page, receipt->0),
{
    match page.receipt_time {
        Some(receipt_time) => Some(
            PageReceipt {
                occurrence: copy_occurrence(&page.occurrence),
                anchor: copy_optional(&page.anchor),
                sha256: page.sha256.clone(),
                bytes: page.bytes,
                rows: page.rows,
                receipt_time,
            },
        ),
        None => None,
    }
}

/// The bundle path under which a descendant carries its ancestor's pages.
pub fn carried_bundle_path(generation: &str) -> (path: String)
    ensures
        path@ == "raw/"@ + generation@ + "/pages.bin"@,
{
    let mut path = String::from_str("raw/");
    path.append(generation);
    path.append("/pages.bin");
    path
}

/// The path of one page object.
pub fn page_path(sha256: &str) -> (path: String)
    ensures
        path@ == "raw/"@ + sha256@ + ".json"@,
{
    let mut path = String::from_str("raw/");
    path.append(sha256);
    path.append(".json");
    path
}

/// Who reads the coverage of a generation.
#[derive(Debug, Clone, Copy, PartialEq, Eq, Structural)]
pub enum CoverageReader {
    /// A refresh, of the generation that it extends.
    Prior,
    /// A first acquisition, of the daily root that seeds it.
    Root,
    /// A descendant, of a daily generation.
    Daily,
    /// Whatever reads the history of a generation that is not daily.
    History,
}

/// What is reported where a generation has no coverage.
pub open spec fn coverage_absent(reader: CoverageReader) -> Seq<char> {
    match reader {
        CoverageReader::Prior => "fetch: prior coverage object missing"@,
        CoverageReader::Root => "fetch: daily continuation root coverage missing"@,
        CoverageReader::Daily => "daily coverage absent"@,
        CoverageReader::History => "history coverage absent"@,
    }
}

/// Finds the coverage of a generation.
pub fn coverage_object(objects: &Vec<ObjectRecord>, reader: CoverageReader) -> (found: Result<
    usize,
    String,
>)
    ensures
        match first_where(objects@, is_object(COVERAGE_PATH@)) {
            Some(at) => found matches Ok(found) && found == at,
            None => refusal(found) == Some(coverage_absent(reader)),
        },
{
    match find_object(objects, COVERAGE_PATH) {
        Some(at) => Ok(at),
        None => Err(
            match reader {
                CoverageReader::Prior => "fetch: prior coverage object missing",
                CoverageReader::Root => "fetch: daily continuation root coverage missing",
                CoverageReader::Daily => "daily coverage absent",
                CoverageReader::History => "history coverage absent",
            }.to_owned(),
        ),
    }
}

} // verus!
