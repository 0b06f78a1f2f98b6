//! What one pass fixes before the first request: the baseline that is extended and the range
//! that is acquired.

use crate::dataset::{GenerationManifest, Layout, PriceRepresentation, SourceKind};
use crate::fetch::acquire::Baseline;
use crate::fetch::coverage::{
    HistoryCoverage, Range, Requested, SeedLineage, BUDGET_SHORTFALL,
};
use crate::market::{
    clamped, frontier, frontier_of, later, later_of, saturating_difference, DatasetRole,
    NativeGranularity,
};
use crate::text::{refusal, same_text, text_of};
use vstd::prelude::*;
use vstd::string::*;

verus! {

/// What an acquisition looks for in a retained generation.
#[derive(Debug)]
pub struct Wanted {
    pub instrument: String,
    pub broker: String,
    pub provider_symbol: String,
    pub role: DatasetRole,
    pub native_granularity: NativeGranularity,
    pub price_representation: PriceRepresentation,
    pub source_identity: String,
    pub seed_generation: Option<String>,
}

/// Whether a retained generation holds history of the wanted instrument, role and granularity
/// that is not the seed itself.
pub open spec fn relevant(manifest: GenerationManifest, wanted: Wanted) -> bool {
    &&& text_of(wanted.seed_generation) != Some(manifest.generation@)
    &&& manifest.source_kind == SourceKind::BrokerHistory
    &&& manifest.instrument@ == wanted.instrument@
    &&& manifest.role == wanted.role
    &&& manifest.native_granularity == wanted.native_granularity
}

/// Judges a retained manifest: irrelevant ones are passed over, a relevant one at another price
/// representation is an error.
pub fn judge_manifest(manifest: &GenerationManifest, wanted: &Wanted) -> (judged: Result<
    bool,
    String,
>)
    ensures
        refusal(judged) == (if relevant(*manifest, *wanted) && manifest.price_representation
            != wanted.price_representation {
            Some("fetch: prior history price scale differs from configuration"@)
        } else {
            None
        }),
        judged matches Ok(candidate) ==> candidate == relevant(*manifest, *wanted),
{
    let is_seed: bool = match &wanted.seed_generation {
        Some(generation) => same_text(generation.as_str(), manifest.generation.as_str()),
        None => false,
    };
    if is_seed || manifest.source_kind != SourceKind::BrokerHistory || !same_text(
        manifest.instrument.as_str(),
        wanted.instrument.as_str(),
    ) || manifest.role != wanted.role || manifest.native_granularity != wanted.native_granularity {
        return Ok(false);
    }
    if manifest.price_representation != wanted.price_representation {
        return Err("fetch: prior history price scale differs from configuration".to_owned());
    }
    Ok(true)
}

/// The generation a seed lineage names.
pub open spec fn seed_named(seed: Option<SeedLineage>) -> Option<Seq<char>> {
    match seed {
        Some(seed) => Some(seed.generation@),
        None => None,
    }
}

/// Whether coverage was collected under the wanted source and extends the wanted seed.
pub open spec fn same_lineage(coverage: HistoryCoverage, wanted: Wanted) -> bool {
    &&& coverage.source_identity@ == wanted.source_identity@
    &&& seed_named(coverage.seed) == text_of(wanted.seed_generation)
}

/// Whether coverage is that of its own manifest and of the wanted instrument.
pub open spec fn coverage_identifies(coverage: HistoryCoverage, row_count: u64, wanted: Wanted) -> bool {
    &&& coverage.schema_version == 1
    &&& coverage.broker@ == wanted.broker@
    &&& coverage.provider_symbol@ == wanted.provider_symbol@
    &&& coverage.role == wanted.role
    &&& coverage.rows == row_count
}

/// Judges the coverage of a relevant manifest: another lineage is passed over, a coverage that
/// does not identify its own manifest is an error.
pub fn judge_coverage(coverage: &HistoryCoverage, row_count: u64, wanted: &Wanted) -> (judged:
    Result<bool, String>)
    ensures
        refusal(judged) == (if same_lineage(*coverage, *wanted) && !coverage_identifies(
            *coverage,
            row_count,
            *wanted,
        ) {
            Some("fetch: prior coverage identity mismatch"@)
        } else {
            None
        }),
        judged matches Ok(candidate) ==> candidate == same_lineage(*coverage, *wanted),
{
    let same_seed: bool = match (&coverage.seed, &wanted.seed_generation) {
        (Some(seed), Some(generation)) => same_text(seed.generation.as_str(), generation.as_str()),
        (None, None) => true,
        _ => false,
    };
    if !same_text(coverage.source_identity.as_str(), wanted.source_identity.as_str()) || !same_seed {
        return Ok(false);
    }
    if coverage.schema_version != 1 || !same_text(coverage.broker.as_str(), wanted.broker.as_str())
        || !same_text(coverage.provider_symbol.as_str(), wanted.provider_symbol.as_str())
        || coverage.role != wanted.role || coverage.rows != row_count {
        return Err("fetch: prior coverage identity mismatch".to_owned());
    }
    Ok(true)
}

/// What decides between two candidates.
#[derive(Debug, Clone, Copy, PartialEq, Eq, Structural)]
pub struct Rank {
    /// The generation is split by day.
    pub daily: bool,
    /// The verified range; without one, the empty range from the greatest to the least moment.
    pub start: i64,
    pub end: i64,
    /// The acquisition was not cut short by its budget.
    pub closed: bool,
    pub pages: usize,
    /// The rows of the page inventory.
    pub page_rows: u64,
}

/// The rank of a candidate.
pub open spec fn rank(coverage: HistoryCoverage, layout: Option<Layout>, page_rows: u64) -> Rank {
    Rank {
        daily: layout is Some,
        start: match coverage.verified {
            Some(range) => range.start,
            None => i64::MAX,
        },
        end: match coverage.verified {
            Some(range) => range.end,
            None => i64::MIN,
        },
        closed: !(coverage.shortfall is Some && coverage.shortfall->0.reason@ == BUDGET_SHORTFALL@),
        pages: coverage.pages@.len() as usize,
        page_rows,
    }
}

/// The rank of a candidate.
pub fn rank_of(coverage: &HistoryCoverage, layout: Option<Layout>, page_rows: u64) -> (found: Rank)
    ensures
        found == rank(*coverage, layout, page_rows),
{
    let (start, end): (i64, i64) = match coverage.verified {
        Some(range) => (range.start, range.end),
        None => (i64::MAX, i64::MIN),
    };
    let closed: bool = match &coverage.shortfall {
        Some(shortfall) => !same_text(shortfall.reason.as_str(), BUDGET_SHORTFALL),
        None => true,
    };
    Rank { daily: layout.is_some(), start, end, closed, pages: coverage.pages.len(), page_rows }
}

/// Whether `left` outranks `right`: a daily layout first, then the later verified end, the
/// earlier verified start, a closed acquisition, more retained pages, and more page rows.
pub open spec fn outranks(left: Rank, right: Rank) -> bool {
    if left.daily != right.daily {
        left.daily
    } else if left.end != right.end {
        left.end > right.end
    } else if left.start != right.start {
        left.start < right.start
    } else if left.closed != right.closed {
        left.closed
    } else if left.pages != right.pages {
        left.pages > right.pages
    } else {
        left.page_rows > right.page_rows
    }
}

fn is_outranked(left: Rank, right: Rank) -> (higher: bool)
    ensures
        higher == outranks(left, right),
{
    if left.daily != right.daily {
        left.daily
    } else if left.end != right.end {
        left.end > right.end
    } else if left.start != right.start {
        left.start < right.start
    } else if left.closed != right.closed {
        left.closed
    } else if left.pages != right.pages {
        left.pages > right.pages
    } else {
        left.page_rows > right.page_rows
    }
}

/// Ranking is a strict order in which any two candidates with different ranks are comparable.
pub proof fn ranking_is_a_strict_order(a: Rank, b: Rank, c: Rank)
    ensures
        !outranks(a, a),
        outranks(a, b) && outranks(b, c) ==> outranks(a, c),
        a == b || outranks(a, b) || outranks(b, a),
{
}

/// A retained generation: its manifest, its coverage, and the rows of its page inventory.
#[derive(Debug)]
pub struct Retained {
    pub manifest: GenerationManifest,
    pub coverage: HistoryCoverage,
    pub page_rows: u64,
}

impl Retained {
    /// Its rank.
    pub open spec fn rank(&self) -> Rank {
        rank(self.coverage, self.manifest.layout, self.page_rows)
    }

    /// Whether it is a candidate: the wanted history, of the wanted lineage.
    pub open spec fn is_candidate(&self, wanted: Wanted) -> bool {
        relevant(self.manifest, wanted) && same_lineage(self.coverage, wanted)
    }

    /// Why it keeps any baseline from being chosen, if it does.
    pub open spec fn prior_refusal(&self, wanted: Wanted) -> Option<Seq<char>> {
        if relevant(self.manifest, wanted) && self.manifest.price_representation
            != wanted.price_representation {
            Some("fetch: prior history price scale differs from configuration"@)
        } else if self.is_candidate(wanted) && !coverage_identifies(
            self.coverage,
            self.manifest.row_count,
            wanted,
        ) {
            Some("fetch: prior coverage identity mismatch"@)
        } else {
            None
        }
    }
}

/// The prior generation that an acquisition extends, among the first `count`.
pub open spec fn prior_of(retained: Seq<Retained>, wanted: Wanted, count: nat) -> Result<
    Option<int>,
    Seq<char>,
>
    decreases count,
{
    if count == 0 {
        Ok(None)
    } else {
        match prior_of(retained, wanted, (count - 1) as nat) {
            Err(message) => Err(message),
            Ok(best) => {
                let next = retained[count - 1];
                match next.prior_refusal(wanted) {
                    Some(message) => Err(message),
                    None => if !next.is_candidate(wanted) {
                        Ok(best)
                    } else {
                        match best {
                            Some(at) => if outranks(next.rank(), retained[at].rank()) {
                                Ok(Some(count - 1))
                            } else {
                                Ok(Some(at))
                            },
                            None => Ok(Some(count - 1)),
                        }
                    },
                }
            },
        }
    }
}

proof fn prior_refusal_stands(retained: Seq<Retained>, wanted: Wanted, count: nat, total: nat)
    requires
        count <= total,
        prior_of(retained, wanted, count) is Err,
    ensures
        prior_of(retained, wanted, total) == prior_of(retained, wanted, count),
    decreases total - count,
{
    if count < total {
        prior_refusal_stands(retained, wanted, count, (total - 1) as nat);
    }
}

/// The prior generation that an acquisition extends, if any: the candidate that no other
/// outranks, among equals the first one considered.
pub fn prior(retained: &Vec<Retained>, wanted: &Wanted) -> (selected: Result<
    Option<usize>,
    String,
>)
    ensures
        match prior_of(retained@, *wanted, retained@.len()) {
            Err(message) => refusal(selected) == Some(message),
            Ok(None) => selected == Ok::<Option<usize>, String>(None),
            Ok(Some(at)) => selected matches Ok(Some(best)) && best == at,
        },
{
    let mut best: Option<usize> = None;
    let mut i: usize = 0;
    while i < retained.len()
        invariant
            i <= retained@.len(),
            match best {
                None => prior_of(retained@, *wanted, i as nat) == Ok::<Option<int>, Seq<char>>(None),
                Some(at) => at < i && prior_of(retained@, *wanted, i as nat) == Ok::<
                    Option<int>,
                    Seq<char>,
                >(Some(at as int)),
            },
        decreases retained@.len() - i,
    {
        let next = &retained[i];
        let judged = match judge_manifest(&next.manifest, wanted) {
            Ok(true) => judge_coverage(&next.coverage, next.manifest.row_count, wanted),
            Ok(false) => Ok(false),
            Err(message) => Err(message),
        };
        match judged {
            Err(message) => {
                proof {
                    prior_refusal_stands(retained@, *wanted, (i + 1) as nat, retained@.len());
                }
                return Err(message);
            },
            Ok(candidate) => {
                if candidate {
                    let better: bool = match best {
                        None => true,
                        Some(at) => {
                            let old = &retained[at];
                            is_outranked(
                                rank_of(&next.coverage, next.manifest.layout, next.page_rows),
                                rank_of(&old.coverage, old.manifest.layout, old.page_rows),
                            )
                        },
                    };
                    if better {
                        best = Some(i);
                    }
                }
            },
        }
        i = i + 1;
    }
    Ok(best)
}

/// A chosen prior generation is a candidate that no other candidate outranks; where none is
/// chosen there is no candidate.
pub proof fn the_widest_candidate_is_extended(retained: Seq<Retained>, wanted: Wanted, count: nat)
    requires
        count <= retained.len(),
        prior_of(retained, wanted, count) is Ok,
    ensures
        match prior_of(retained, wanted, count)->Ok_0 {
            Some(at) => {
                &&& 0 <= at < count
                &&& retained[at].is_candidate(wanted)
                &&& forall|i: int|
                    0 <= i < count && (#[trigger] retained[i]).is_candidate(wanted) ==> !outranks(
                        retained[i].rank(),
                        retained[at].rank(),
                    )
            },
            None => forall|i: int|
                0 <= i < count ==> !(#[trigger] retained[i]).is_candidate(wanted),
        },
    decreases count,
{
    if count > 0 {
        the_widest_candidate_is_extended(retained, wanted, (count - 1) as nat);
        let next = retained[count - 1];
        if next.is_candidate(wanted) {
            if let Some(at) = prior_of(retained, wanted, (count - 1) as nat)->Ok_0 {
                assert forall|i: int|
                    0 <= i < count && (#[trigger] retained[i]).is_candidate(wanted)
                        implies !outranks(
                    retained[i].rank(),
                    retained[prior_of(retained, wanted, count)->Ok_0->0].rank(),
                ) by {
                    ranking_is_a_strict_order(
                        retained[i].rank(),
                        next.rank(),
                        retained[at].rank(),
                    );
                    ranking_is_a_strict_order(next.rank(), next.rank(), next.rank());
                }
            } else {
                ranking_is_a_strict_order(next.rank(), next.rank(), next.rank());
            }
        }
    }
}

/// Where the baseline of an acquisition comes from.
#[derive(Debug, Clone, Copy, PartialEq, Eq, Structural)]
pub enum BaselineChoice {
    Prior,
    Seed,
    Nothing,
}

/// The message of a pending intent whose pinned baseline is gone.
pub open spec fn lost_baseline_message(instrument: Seq<char>, pinned: Seq<char>) -> Seq<char> {
    "fetch "@ + instrument + ": the pending intent's baseline "@ + pinned + " is no longer readable"@
}

/// Chooses the baseline: a prior generation first, then the bound seed unless a pending intent
/// pins another generation; a pinned baseline that is neither is an error.
pub fn choose_baseline(
    instrument: &str,
    prior: bool,
    seed: &Option<String>,
    pinned: &Option<String>,
) -> (chosen: Result<BaselineChoice, String>)
    ensures
        refusal(chosen) == (if !prior && pinned is Some && text_of(*seed) != text_of(*pinned) {
            Some(lost_baseline_message(instrument@, pinned->0@))
        } else {
            None
        }),
        chosen matches Ok(choice) ==> choice == (if prior {
            BaselineChoice::Prior
        } else if seed is Some {
            BaselineChoice::Seed
        } else {
            BaselineChoice::Nothing
        }),
{
    if prior {
        return Ok(BaselineChoice::Prior);
    }
    match pinned {
        Some(generation) => {
            if let Some(seed) = seed {
                if same_text(seed.as_str(), generation.as_str()) {
                    return Ok(BaselineChoice::Seed);
                }
            }
            let mut message = String::from_str("fetch ");
            message.append(instrument);
            message.append(": the pending intent's baseline ");
            message.append(generation.as_str());
            message.append(" is no longer readable");
            Err(message)
        },
        None => if seed.is_some() {
            Ok(BaselineChoice::Seed)
        } else {
            Ok(BaselineChoice::Nothing)
        },
    }
}

/// Why a range is refused.
#[derive(Debug, Clone, Copy, PartialEq, Eq, Structural)]
pub enum RangeRefusal {
    /// The requested range narrows the retained lineage; retained rows are never clipped.
    Narrows { start: i64, end: i64, retained_start: i64, frontier: i64 },
    /// The requested start does not precede the end.
    Empty,
}

/// The range one pass asks for: a pending intent's range is authoritative; an advance starts at
/// the frontier less the overlap, but not before the history.
pub open spec fn range_of(
    resume: Option<Range>,
    requested: Requested,
    history_start: int,
    granularity: NativeGranularity,
    overlap_seconds: Option<u32>,
    baseline: Option<&Baseline>,
) -> Range {
    let seconds = match overlap_seconds {
        Some(seconds) => seconds as int,
        None => 0,
    };
    match (resume, requested) {
        (Some(range), _) => range,
        (None, Requested::Explicit { start, end }) => Range { start, end },
        (None, Requested::Advance { cutoff }) => {
            let reached = match baseline {
                Some(prior) => frontier_of(granularity, prior.last_time as int),
                None => history_start,
            };
            Range {
                start: later_of(history_start, clamped(reached - seconds * 1_000_000)) as i64,
                end: cutoff,
            }
        },
    }
}

/// Why a range is refused, if it is.
pub open spec fn range_refusal(
    range: Range,
    history_start: i64,
    granularity: NativeGranularity,
    baseline: Option<&Baseline>,
) -> Option<RangeRefusal> {
    let seeded = baseline is Some && baseline->0.seed is Some;
    let reached = frontier_of(granularity, baseline->0.last_time as int);
    if seeded && (history_start > baseline->0.first_time || range.end < reached) {
        Some(
            RangeRefusal::Narrows {
                start: history_start,
                end: range.end,
                retained_start: baseline->0.first_time,
                frontier: reached as i64,
            },
        )
    } else if range.start >= range.end {
        Some(RangeRefusal::Empty)
    } else {
        None
    }
}

/// Fixes the acquisition range. A seeded lineage is extended, never narrowed: the declared start
/// covers every retained row and the end lies beyond the retained frontier.
pub fn plan_range(
    resume: Option<Range>,
    requested: Requested,
    history_start: i64,
    granularity: NativeGranularity,
    overlap_seconds: Option<u32>,
    baseline: Option<&Baseline>,
) -> (planned: Result<Range, RangeRefusal>)
    ensures
        ({
            let range = range_of(
                resume,
                requested,
                history_start as int,
                granularity,
                overlap_seconds,
                baseline,
            );
            planned == (match range_refusal(range, history_start, granularity, baseline) {
                Some(refused) => Err::<Range, RangeRefusal>(refused),
                None => Ok(range),
            })
        }),
{
    let seconds: i64 = match overlap_seconds {
        Some(seconds) => seconds as i64,
        None => 0,
    };
    let range: Range = match (resume, requested) {
        (Some(range), _) => range,
        (None, Requested::Explicit { start, end }) => Range { start, end },
        (None, Requested::Advance { cutoff }) => {
            let reached: i64 = match baseline {
                Some(prior) => frontier(granularity, prior.last_time),
                None => history_start,
            };
            Range {
                start: later(history_start, saturating_difference(reached, seconds * 1_000_000)),
                end: cutoff,
            }
        },
    };
    if let Some(prior) = baseline {
        if prior.seed.is_some() {
            let reached: i64 = frontier(granularity, prior.last_time);
            if history_start > prior.first_time || range.end < reached {
                return Err(
                    RangeRefusal::Narrows {
                        start: history_start,
                        end: range.end,
                        retained_start: prior.first_time,
                        frontier: reached,
                    },
                );
            }
        }
    }
    if range.start >= range.end {
        return Err(RangeRefusal::Empty);
    }
    Ok(range)
}

/// The moments of a refused range, as the report shows them.
#[derive(Debug)]
pub struct RangeTexts {
    pub start: String,
    pub end: String,
    pub retained_start: String,
    pub frontier: String,
}

/// The message of a refused range.
pub fn range_message(refused: RangeRefusal, instrument: &str, times: &RangeTexts) -> (message:
    String)
    ensures
        message@ == (match refused {
            RangeRefusal::Narrows { .. } => "fetch "@ + instrument@ + ": the requested range "@
                + times.start@ + " to "@ + times.end@ + " narrows the retained lineage "@
                + times.retained_start@ + " to "@ + times.frontier@
                + "; retained rows are never clipped"@,
            RangeRefusal::Empty => "fetch: requested start must precede end"@,
        }),
{
    match refused {
        RangeRefusal::Narrows { .. } => {
            let mut message = String::from_str("fetch ");
            message.append(instrument);
            message.append(": the requested range ");
            message.append(times.start.as_str());
            message.append(" to ");
            message.append(times.end.as_str());
            message.append(" narrows the retained lineage ");
            message.append(times.retained_start.as_str());
            message.append(" to ");
            message.append(times.frontier.as_str());
            message.append("; retained rows are never clipped");
            message
        },
        RangeRefusal::Empty => "fetch: requested start must precede end".to_owned(),
    }
}

/// A seeded lineage is never narrowed: an accepted range ends at or beyond the retained
/// frontier and the history starts at or before the first retained row.
pub proof fn accepted_ranges_keep_the_lineage(
    range: Range,
    history_start: i64,
    granularity: NativeGranularity,
    baseline: &Baseline,
)
    requires
        baseline.seed is Some,
        range_refusal(range, history_start, granularity, Some(baseline)) is None,
    ensures
        history_start <= baseline.first_time,
        range.end >= frontier_of(granularity, baseline.last_time as int),
        range.start < range.end,
{
}

/// The message of a seed that was collected under another source.
pub open spec fn seed_source_message(
    instrument: Seq<char>,
    seed: Seq<char>,
    collected: Seq<char>,
    configured: Seq<char>,
) -> Seq<char> {
    "fetch "@ + instrument + ": seed "@ + seed + " was collected under source identity "@ + collected
        + ", not the configured broker's "@ + configured
}

/// A seed must have been collected under exactly the configured broker's source identity.
pub fn check_seed_source(instrument: &str, seed: &SeedLineage, configured: &str) -> (checked:
    Result<(), String>)
    ensures
        refusal(checked) == (if seed.source_identity@ == configured@ {
            None
        } else {
            Some(
                seed_source_message(
                    instrument@,
                    seed.generation@,
                    seed.source_identity@,
                    configured@,
                ),
            )
        }),
{
    if same_text(seed.source_identity.as_str(), configured) {
        return Ok(());
    }
    let mut message = String::from_str("fetch ");
    message.append(instrument);
    message.append(": seed ");
    message.append(seed.generation.as_str());
    message.append(" was collected under source identity ");
    message.append(seed.source_identity.as_str());
    message.append(", not the configured broker's ");
    message.append(configured);
    Err(message)
}

/// The texts of a role and a granularity as messages show them.
#[derive(Debug)]
pub struct DataTexts {
    pub role: String,
    pub granularity: String,
}

/// The message of a seed of other data than the history's.
pub open spec fn seed_data_message(
    manifest: GenerationManifest,
    found: DataTexts,
    wanted: Wanted,
    expected: DataTexts,
) -> Seq<char> {
    "fetch "@ + wanted.instrument@ + ": seed "@ + manifest.generation@ + " is "@
        + manifest.instrument@ + " "@ + found.role@ + " "@ + found.granularity@ + " data, not "@
        + wanted.instrument@ + " "@ + expected.role@ + " "@ + expected.granularity@
        + " data at the configured price scale"@
}

/// A seed must match the history's instrument, role, granularity, and price interpretation.
pub fn check_seed_data(
    manifest: &GenerationManifest,
    found: &DataTexts,
    wanted: &Wanted,
    expected: &DataTexts,
) -> (checked: Result<(), String>)
    ensures
        refusal(checked) == (if manifest.instrument@ == wanted.instrument@ && manifest.role
            == wanted.role && manifest.native_granularity == wanted.native_granularity
            && manifest.price_representation == wanted.price_representation {
            None
        } else {
            Some(seed_data_message(*manifest, *found, *wanted, *expected))
        }),
{
    if same_text(manifest.instrument.as_str(), wanted.instrument.as_str()) && manifest.role
        == wanted.role && manifest.native_granularity == wanted.native_granularity
        && manifest.price_representation == wanted.price_representation {
        return Ok(());
    }
    let mut message = String::from_str("fetch ");
    message.append(wanted.instrument.as_str());
    message.append(": seed ");
    message.append(manifest.generation.as_str());
    message.append(" is ");
    message.append(manifest.instrument.as_str());
    message.append(" ");
    message.append(found.role.as_str());
    message.append(" ");
    message.append(found.granularity.as_str());
    message.append(" data, not ");
    message.append(wanted.instrument.as_str());
    message.append(" ");
    message.append(expected.role.as_str());
    message.append(" ");
    message.append(expected.granularity.as_str());
    message.append(" data at the configured price scale");
    Err(message)
}

/// Whether a seed is itself broker history split by day, and so continues with its own coverage.
pub fn continues_with_coverage(manifest: &GenerationManifest) -> (continues: bool)
    ensures
        continues == (manifest.layout == Some(Layout::DailyV2) && manifest.source_kind
            == SourceKind::BrokerHistory),
{
    match manifest.layout {
        Some(layout) => layout == Layout::DailyV2 && manifest.source_kind
            == SourceKind::BrokerHistory,
        None => false,
    }
}

/// The coverage with which a daily seed continues: it must identify the seed's manifest and the
/// wanted history, and from here on names the seed as its own lineage.
pub fn continuation_coverage(
    coverage: HistoryCoverage,
    manifest: &GenerationManifest,
    wanted: &Wanted,
    source_identity: String,
) -> (continued: Result<HistoryCoverage, String>)
    ensures
        refusal(continued) == (if coverage_identifies(coverage, manifest.row_count, *wanted)
            && coverage.source_identity@ == wanted.source_identity@ && coverage.native_granularity
            == wanted.native_granularity {
            None
        } else {
            Some("fetch: continuation root coverage identity mismatch"@)
        }),
        continued matches Ok(next) ==> {
            &&& next.seed == Some(
                SeedLineage { generation: manifest.generation, source_identity },
            )
            &&& next.schema_version == coverage.schema_version
            &&& next.source_identity == coverage.source_identity
            &&& next.broker == coverage.broker
            &&& next.provider_symbol == coverage.provider_symbol
            &&& next.role == coverage.role
            &&& next.requested == coverage.requested
            &&& next.verified == coverage.verified
            &&& next.actual == coverage.actual
            &&& next.rows == coverage.rows
            &&& next.pages == coverage.pages
            &&& next.bundle == coverage.bundle
            &&& next.shortfall == coverage.shortfall
            &&& next.tail_shortfall == coverage.tail_shortfall
            &&& next.native_granularity == coverage.native_granularity
        },
{
    if coverage.schema_version != 1 || !same_text(
        coverage.source_identity.as_str(),
        wanted.source_identity.as_str(),
    ) || !same_text(coverage.broker.as_str(), wanted.broker.as_str()) || !same_text(
        coverage.provider_symbol.as_str(),
        wanted.provider_symbol.as_str(),
    ) || coverage.role != wanted.role || coverage.native_granularity != wanted.native_granularity
        || coverage.rows != manifest.row_count {
        return Err("fetch: continuation root coverage identity mismatch".to_owned());
    }
    let mut coverage = coverage;
    coverage.seed = Some(SeedLineage { generation: manifest.generation.clone(), source_identity });
    Ok(coverage)
}

} // verus!
