//! The days of a generation: their inventory, and what evidence covers them.

use crate::dataset::ObjectRecord;
use crate::fetch::coverage::{
    shortfall_of, Actual, HistoryCoverage, Range, SeedLineage, Shortfall,
};
use crate::lineage::ranges::{canonical, clip, complement, covers, merge_ranges, proper};
use crate::market::{DatasetRole, NativeGranularity};
use crate::search::{first_where, first_where_absent, first_where_found};
use crate::text::{copy_optional, copy_texts, join, join3, refusal, same_text, text_of, views};
use vstd::prelude::*;
use vstd::string::*;

verus! {

/// What a day's object holds.
#[derive(Debug, Clone, Copy, PartialEq, Eq, Structural)]
pub enum DayFamily {
    Observations,
    Pages,
}

/// How much of a day is known.
#[derive(Debug, Clone, Copy, PartialEq, Eq, Structural)]
pub enum DayState {
    Complete,
    EmptyKnown,
    Partial,
    Unknown,
}

/// One day of a generation.
#[derive(Debug)]
pub struct DayInventoryEntry {
    pub date: String,
    pub family: DayFamily,
    pub object: Option<String>,
    pub rows: u64,
    pub first_time: Option<i64>,
    pub last_time: Option<i64>,
    pub state: DayState,
    pub reason: Option<String>,
    pub unresolved: Vec<Range>,
}

/// The evidence about one day.
#[derive(Debug)]
pub struct DayCoverage {
    pub date: String,
    pub family: DayFamily,
    pub acquisition_ids: Vec<String>,
    pub basis: String,
    pub verified: Vec<Range>,
    pub unresolved: Vec<Range>,
    pub reason: Option<String>,
}

/// What one acquisition claims.
#[derive(Debug)]
pub struct AcquisitionCoverage {
    pub acquisition_id: String,
    pub source_identity: String,
    pub requested: Vec<Range>,
    pub verified: Vec<Range>,
    pub shortfalls: Vec<Shortfall>,
    pub unresolved: Vec<Range>,
}

/// The path of a day's object in a generation.
pub open spec fn day_path(date: Seq<char>, family: DayFamily) -> Seq<char> {
    match family {
        DayFamily::Observations => "observations/"@ + date + ".parquet"@,
        DayFamily::Pages => "pages/"@ + date + ".parquet"@,
    }
}

/// The path of a day's object in a generation.
pub fn logical_path(date: &str, family: DayFamily) -> (path: String)
    ensures
        path@ == day_path(date@, family),
{
    match family {
        DayFamily::Observations => join3("observations/", date, ".parquet"),
        DayFamily::Pages => join3("pages/", date, ".parquet"),
    }
}

/// The inventory of a day that was just written: nothing is claimed of the whole day.
pub fn entry(
    date: &str,
    family: DayFamily,
    key: &str,
    rows: u64,
    first_time: Option<i64>,
    last_time: Option<i64>,
) -> (day: DayInventoryEntry)
    ensures
        day.date@ == date@,
        day.family == family,
        text_of(day.object) == Some(key@),
        day.rows == rows,
        day.first_time == first_time,
        day.last_time == last_time,
        day.state is Unknown,
        text_of(day.reason) == Some("source evidence without whole-day completeness"@),
        day.unresolved@.len() == 0,
{
    DayInventoryEntry {
        date: date.to_owned(),
        family,
        object: Some(key.to_owned()),
        rows,
        first_time,
        last_time,
        state: DayState::Unknown,
        reason: Some("source evidence without whole-day completeness".to_owned()),
        unresolved: Vec::new(),
    }
}

/// Whether an object is that of a day.
pub open spec fn is_day_object(object: ObjectRecord, day: DayInventoryEntry) -> bool {
    text_of(day.object) == Some(object.key@) && object.path@ == day_path(day.date@, day.family)
}

/// Finds the object of a day.
pub fn old_object(objects: &Vec<ObjectRecord>, day: &DayInventoryEntry) -> (found: Result<
    usize,
    String,
>)
    ensures
        match found {
            Ok(at) => at < objects@.len() && first_where(
                objects@,
                |object: ObjectRecord| is_day_object(object, *day),
            ) == Some(at as int),
            Err(message) => message@ == "daily inventory object absent"@ && first_where(
                objects@,
                |object: ObjectRecord| is_day_object(object, *day),
            ) is None,
        },
{
    let ghost wanted = |object: ObjectRecord| is_day_object(object, *day);
    let path = logical_path(day.date.as_str(), day.family);
    let mut i: usize = 0;
    while i < objects.len()
        invariant
            i <= objects@.len(),
            path@ == day_path(day.date@, day.family),
            wanted == (|object: ObjectRecord| is_day_object(object, *day)),
            forall|j: int| 0 <= j < i ==> !wanted(#[trigger] objects@[j]),
        decreases objects@.len() - i,
    {
        let keyed: bool = match &day.object {
            Some(key) => same_text(key.as_str(), objects[i].key.as_str()),
            None => false,
        };
        if keyed && same_text(objects[i].path.as_str(), path.as_str()) {
            proof {
                first_where_found(objects@, wanted, i as int);
            }
            return Ok(i);
        }
        i = i + 1;
    }
    proof {
        first_where_absent(objects@, wanted);
    }
    Err("daily inventory object absent".to_owned())
}

/// Whether a range list covers exactly the moments that another does.
pub open spec fn same_moments(a: Seq<Range>, b: Seq<Range>) -> bool {
    forall|moment: int| #[trigger] covers(a, moment) == covers(b, moment)
}

/// Whether a range list covers exactly the moments of bounds that another does not.
pub open spec fn is_rest_of(rest: Seq<Range>, bounds: Range, covered: Seq<Range>) -> bool {
    &&& canonical(rest)
    &&& forall|moment: int| #[trigger]
        covers(rest, moment) == (bounds.has(moment) && !covers(covered, moment))
}

fn copy_ranges(ranges: &Vec<Range>) -> (copy: Vec<Range>)
    ensures
        copy@ == ranges@,
{
    let mut copy: Vec<Range> = Vec::new();
    let mut i: usize = 0;
    while i < ranges.len()
        invariant
            i <= ranges@.len(),
            copy@ == ranges@.take(i as int),
        decreases ranges@.len() - i,
    {
        copy.push(ranges[i]);
        i = i + 1;
        assert(copy@ =~= ranges@.take(i as int));
    }
    assert(ranges@.take(i as int) =~= ranges@);
    copy
}

/// Whether a day's evidence closes: what is verified and what is not make up the day, and a
/// reason stands exactly where something is missing.
pub open spec fn closes_day(evidence: DayCoverage, bounds: Range) -> bool {
    &&& is_rest_of(evidence.unresolved@, bounds, evidence.verified@)
    &&& (evidence.reason is Some) == (evidence.unresolved@.len() > 0)
}

/// Whether evidence is what an import claims of a day: all of it where its source says so, and
/// otherwise nothing.
pub open spec fn is_import_evidence(
    evidence: DayCoverage,
    day: DayInventoryEntry,
    bounds: Range,
    acquisition: Seq<char>,
) -> bool {
    let complete = day.state is Complete || day.state is EmptyKnown;
    &&& evidence.date@ == day.date@
    &&& evidence.family == day.family
    &&& views(evidence.acquisition_ids@) == seq![acquisition]
    &&& evidence.basis@ == (match day.family {
        DayFamily::Observations => "retained import source metadata"@,
        DayFamily::Pages =>
            "retained import response occurrences; no whole-day occurrence claim"@,
    })
    &&& evidence.verified@ == (if complete {
        seq![bounds]
    } else {
        Seq::empty()
    })
    &&& evidence.unresolved@ == (if complete {
        Seq::empty()
    } else {
        seq![bounds]
    })
    &&& text_of(evidence.reason) == (if complete {
        None
    } else if day.reason is Some {
        text_of(day.reason)
    } else {
        Some("source has no verified whole-day coverage"@)
    })
    &&& closes_day(evidence, bounds)
}

/// What an import claims of a day: all of it where its source says so, and otherwise nothing.
pub fn import_day(day: &DayInventoryEntry, bounds: Range, acquisition: &str) -> (evidence:
    DayCoverage)
    requires
        bounds.start < bounds.end,
    ensures
        is_import_evidence(evidence, *day, bounds, acquisition@),
{
    let complete: bool = day.state == DayState::Complete || day.state == DayState::EmptyKnown;
    let mut verified: Vec<Range> = Vec::new();
    if complete {
        verified.push(bounds);
    }
    let unresolved = complement(bounds, &verified);
    let reason: Option<String> = if complete {
        None
    } else {
        match &day.reason {
            Some(reason) => Some(reason.clone()),
            None => Some("source has no verified whole-day coverage".to_owned()),
        }
    };
    let basis: &str = match day.family {
        DayFamily::Observations => "retained import source metadata",
        DayFamily::Pages =>
            "retained import response occurrences; no whole-day occurrence claim",
    };
    let mut acquisition_ids: Vec<String> = Vec::new();
    acquisition_ids.push(acquisition.to_owned());
    proof {
        whole_or_nothing(bounds, verified@, unresolved@);
        assert(views(acquisition_ids@) =~= seq![acquisition@]);
        assert(verified@ =~= if complete {
            seq![bounds]
        } else {
            Seq::empty()
        });
    }
    DayCoverage {
        date: day.date.clone(),
        family: day.family,
        acquisition_ids,
        basis: basis.to_owned(),
        verified,
        unresolved,
        reason,
    }
}

proof fn whole_or_nothing(bounds: Range, verified: Seq<Range>, unresolved: Seq<Range>)
    requires
        bounds.start < bounds.end,
        verified.len() == 0 || verified == seq![bounds],
        is_rest_of(unresolved, bounds, verified),
    ensures
        unresolved == (if verified.len() == 0 {
            seq![bounds]
        } else {
            Seq::empty()
        }),
{
    if verified.len() == 0 {
        let whole = seq![bounds];
        assert forall|moment: int| #[trigger]
            covers(whole, moment) == covers(unresolved, moment) by {
            assert(!covers(verified, moment));
            if covers(whole, moment) {
                assert(bounds.has(moment));
            }
            if bounds.has(moment) {
                assert(whole[0].has(moment));
            }
        }
        crate::lineage::ranges::one_canonical_list(whole, unresolved);
    } else {
        if unresolved.len() > 0 {
            let moment = unresolved[0].start as int;
            assert(unresolved[0].has(moment));
            assert(covers(unresolved, moment));
            assert(verified[0].has(moment));
            assert(covers(verified, moment));
        }
        assert(unresolved =~= Seq::empty());
    }
}

/// Whether evidence is what retained claims say of a day: all of it, what its gaps leave, or
/// nothing.
pub open spec fn is_migration_evidence(
    evidence: DayCoverage,
    day: DayInventoryEntry,
    bounds: Range,
    acquisition: Seq<char>,
) -> bool {
    &&& evidence.date@ == day.date@
    &&& evidence.family == day.family
    &&& views(evidence.acquisition_ids@) == seq![acquisition]
    &&& evidence.basis@ == (match day.family {
        DayFamily::Observations =>
            "retained v1 source metadata and acquisition coverage, bound by migration lineage"@,
        DayFamily::Pages =>
            "migration census of retained response occurrences; no whole-day occurrence claim"@,
    })
    &&& match day.state {
        DayState::Complete => evidence.verified@ == seq![bounds],
        DayState::EmptyKnown => evidence.verified@ == seq![bounds],
        DayState::Partial => is_rest_of(evidence.verified@, bounds, day.unresolved@),
        DayState::Unknown => evidence.verified@ == Seq::<Range>::empty(),
    }
    &&& text_of(evidence.reason) == (if evidence.unresolved@.len() == 0 {
        None
    } else if day.reason is Some {
        text_of(day.reason)
    } else {
        Some("retained source has no verified whole-day coverage"@)
    })
    &&& closes_day(evidence, bounds)
}

/// What retained claims say of a day that is carried over: all of it, what its gaps leave, or
/// nothing. The times of observations never claim completeness.
pub fn migration_day(day: &DayInventoryEntry, bounds: Range, acquisition: &str) -> (evidence:
    DayCoverage)
    requires
        bounds.start < bounds.end,
    ensures
        is_migration_evidence(evidence, *day, bounds, acquisition@),
{
    let mut verified: Vec<Range> = Vec::new();
    match day.state {
        DayState::Complete => {
            verified.push(bounds);
        },
        DayState::EmptyKnown => {
            verified.push(bounds);
        },
        DayState::Partial => {
            verified = complement(bounds, &day.unresolved);
        },
        DayState::Unknown => {},
    }
    let unresolved = complement(bounds, &verified);
    let reason: Option<String> = if unresolved.len() == 0 {
        None
    } else {
        match &day.reason {
            Some(reason) => Some(reason.clone()),
            None => Some("retained source has no verified whole-day coverage".to_owned()),
        }
    };
    let basis: &str = match day.family {
        DayFamily::Observations =>
            "retained v1 source metadata and acquisition coverage, bound by migration lineage",
        DayFamily::Pages =>
            "migration census of retained response occurrences; no whole-day occurrence claim",
    };
    let mut acquisition_ids: Vec<String> = Vec::new();
    acquisition_ids.push(acquisition.to_owned());
    assert(views(acquisition_ids@) =~= seq![acquisition@]);
    DayCoverage {
        date: day.date.clone(),
        family: day.family,
        acquisition_ids,
        basis: basis.to_owned(),
        verified,
        unresolved,
        reason,
    }
}

/// The evidence about a day of a family.
pub open spec fn evidence_at(days: Seq<DayCoverage>, date: Seq<char>, family: DayFamily) -> Option<
    int,
> {
    first_where(days, |day: DayCoverage| day.date@ == date && day.family == family)
}

fn find_evidence(days: &Vec<DayCoverage>, date: &str, family: DayFamily) -> (found: Option<usize>)
    ensures
        found matches Some(at) ==> at < days@.len() && evidence_at(days@, date@, family) == Some(
            at as int,
        ),
        found is None ==> evidence_at(days@, date@, family) is None,
{
    let ghost wanted = |day: DayCoverage| day.date@ == date@ && day.family == family;
    let mut i: usize = 0;
    while i < days.len()
        invariant
            i <= days@.len(),
            wanted == (|day: DayCoverage| day.date@ == date@ && day.family == family),
            forall|j: int| 0 <= j < i ==> !wanted(#[trigger] days@[j]),
        decreases days@.len() - i,
    {
        if days[i].family == family && same_text(days[i].date.as_str(), date) {
            proof {
                first_where_found(days@, wanted, i as int);
            }
            return Some(i);
        }
        i = i + 1;
    }
    proof {
        first_where_absent(days@, wanted);
    }
    None
}

/// The moments that earlier evidence verifies of a day.
pub open spec fn verified_before(
    previous: Seq<DayCoverage>,
    day: DayInventoryEntry,
) -> Seq<Range> {
    match evidence_at(previous, day.date@, day.family) {
        Some(at) => previous[at].verified@,
        None => Seq::empty(),
    }
}

/// The acquisitions that earlier evidence names for a day.
pub open spec fn acquisitions_before(
    previous: Seq<DayCoverage>,
    day: DayInventoryEntry,
) -> Seq<Seq<char>> {
    match evidence_at(previous, day.date@, day.family) {
        Some(at) => views(previous[at].acquisition_ids@),
        None => Seq::empty(),
    }
}

/// Whether all evidence about days is of proper ranges.
pub open spec fn proper_days(days: Seq<DayCoverage>) -> bool {
    forall|i: int| 0 <= i < days.len() ==> proper((#[trigger] days[i]).verified@)
}

/// Whether evidence is what a descendant claims of a day: what was claimed before, and for
/// observations what its acquisition verified of the day.
pub open spec fn is_descendant_evidence(
    evidence: DayCoverage,
    previous: Seq<DayCoverage>,
    day: DayInventoryEntry,
    bounds: Range,
    acquired: Seq<Range>,
    acquisition: Seq<char>,
) -> bool {
    &&& evidence.date@ == day.date@
    &&& evidence.family == day.family
    &&& views(evidence.acquisition_ids@) == acquisitions_before(previous, day).push(acquisition)
    &&& evidence.basis@ == (match day.family {
        DayFamily::Observations =>
            "cumulative verified acquisition ranges and retained import evidence"@,
        DayFamily::Pages =>
            "retained response occurrences; market coverage does not prove occurrence completeness"@,
    })
    &&& canonical(evidence.verified@)
    &&& forall|moment: int| #[trigger]
        covers(evidence.verified@, moment) == (covers(verified_before(previous, day), moment) || (
        day.family is Observations && bounds.has(moment) && covers(acquired, moment)))
    &&& text_of(evidence.reason) == (if evidence.unresolved@.len() == 0 {
        None
    } else {
        Some("acquisition evidence does not cover the whole UTC day"@)
    })
    &&& closes_day(evidence, bounds)
}

/// What a descendant claims of a day: what was claimed before, and for observations what its
/// acquisition verified of the day.
pub fn descendant_day(
    previous: &Vec<DayCoverage>,
    day: &DayInventoryEntry,
    bounds: Range,
    acquired: &Vec<Range>,
    acquisition: &str,
) -> (evidence: DayCoverage)
    requires
        proper_days(previous@),
    ensures
        is_descendant_evidence(evidence, previous@, *day, bounds, acquired@, acquisition@),
{
    let old = find_evidence(previous, day.date.as_str(), day.family);
    let mut verified: Vec<Range> = match old {
        Some(at) => copy_ranges(&previous[at].verified),
        None => Vec::new(),
    };
    let mut acquisition_ids: Vec<String> = match old {
        Some(at) => copy_texts(&previous[at].acquisition_ids),
        None => Vec::new(),
    };
    let ghost before = verified@;
    let ghost ids = views(acquisition_ids@);
    assert(before == verified_before(previous@, *day));
    assert(ids =~= acquisitions_before(previous@, *day));
    let ghost mut added: Seq<Range> = Seq::empty();
    if day.family == DayFamily::Observations {
        let mut inside = clip(bounds, acquired);
        proof {
            added = inside@;
        }
        verified.append(&mut inside);
    }
    assert(verified@ =~= before + added);
    acquisition_ids.push(acquisition.to_owned());
    assert(views(acquisition_ids@) =~= ids.push(acquisition@));
    proof {
        assert(proper(before));
        assert(proper(added));
        assert(proper(verified@));
    }
    let merged = merge_ranges(&verified);
    let unresolved = complement(bounds, &merged);
    let reason: Option<String> = if unresolved.len() == 0 {
        None
    } else {
        Some("acquisition evidence does not cover the whole UTC day".to_owned())
    };
    let basis: &str = match day.family {
        DayFamily::Observations =>
            "cumulative verified acquisition ranges and retained import evidence",
        DayFamily::Pages =>
            "retained response occurrences; market coverage does not prove occurrence completeness",
    };
    proof {
        assert forall|moment: int| #[trigger]
            covers(merged@, moment) == (covers(before, moment) || (day.family is Observations
                && bounds.has(moment) && covers(acquired@, moment))) by {
            covers_sum(before, added, moment);
            assert(covers(merged@, moment) == covers(verified@, moment));
            if day.family is Observations {
                assert(covers(added, moment) == (covers(acquired@, moment) && bounds.has(moment)));
            }
        }
    }
    DayCoverage {
        date: day.date.clone(),
        family: day.family,
        acquisition_ids,
        basis: basis.to_owned(),
        verified: merged,
        unresolved,
        reason,
    }
}

proof fn covers_sum(a: Seq<Range>, b: Seq<Range>, moment: int)
    ensures
        covers(a + b, moment) == (covers(a, moment) || covers(b, moment)),
{
    let both = a + b;
    if covers(a, moment) {
        let i = choose|i: int| 0 <= i < a.len() && (#[trigger] a[i]).has(moment);
        assert(both[i].has(moment));
    }
    if covers(b, moment) {
        let i = choose|i: int| 0 <= i < b.len() && (#[trigger] b[i]).has(moment);
        assert(both[i + a.len()].has(moment));
    }
    if covers(both, moment) {
        let i = choose|i: int| 0 <= i < both.len() && (#[trigger] both[i]).has(moment);
        if i < a.len() {
            assert(a[i].has(moment));
        } else {
            assert(b[i - a.len()].has(moment));
        }
    }
}

/// A descendant never takes back what was verified of a day.
pub proof fn descendants_keep_verified_moments(
    evidence: DayCoverage,
    previous: Seq<DayCoverage>,
    day: DayInventoryEntry,
    bounds: Range,
    acquired: Seq<Range>,
    acquisition: Seq<char>,
    moment: int,
)
    requires
        is_descendant_evidence(evidence, previous, day, bounds, acquired, acquisition),
        covers(verified_before(previous, day), moment),
    ensures
        covers(evidence.verified@, moment),
{
}

/// Enters evidence into the inventory, with the state that it gives the day.
pub fn apply_day(day: &mut DayInventoryEntry, evidence: &DayCoverage, state: DayState)
    ensures
        final(day).date == old(day).date,
        final(day).family == old(day).family,
        final(day).object == old(day).object,
        final(day).rows == old(day).rows,
        final(day).first_time == old(day).first_time,
        final(day).last_time == old(day).last_time,
        final(day).state == state,
        text_of(final(day).reason) == text_of(evidence.reason),
        final(day).unresolved@ == evidence.unresolved@,
{
    day.state = state;
    day.reason = copy_optional(&evidence.reason);
    day.unresolved = copy_ranges(&evidence.unresolved);
}

/// The ranges of the observations among the first `count` days.
pub open spec fn observed_bounds(
    days: Seq<DayInventoryEntry>,
    bounds: Seq<Range>,
    count: nat,
) -> Seq<Range>
    decreases count,
{
    if count == 0 {
        Seq::empty()
    } else {
        let before = observed_bounds(days, bounds, (count - 1) as nat);
        if days[count - 1].family is Observations {
            before.push(bounds[count - 1])
        } else {
            before
        }
    }
}

/// What is verified of the observations among the first `count` days.
pub open spec fn observed_verified(
    days: Seq<DayInventoryEntry>,
    evidence: Seq<DayCoverage>,
    count: nat,
) -> Seq<Range>
    decreases count,
{
    if count == 0 {
        Seq::empty()
    } else {
        let before = observed_verified(days, evidence, (count - 1) as nat);
        if days[count - 1].family is Observations {
            before + evidence[count - 1].verified@
        } else {
            before
        }
    }
}

/// Whether an acquisition's claim sums up the observations of days: what it asked for, what of
/// it is verified, and what is left.
pub open spec fn sums_up(
    claim: AcquisitionCoverage,
    days: Seq<DayInventoryEntry>,
    bounds: Seq<Range>,
    evidence: Seq<DayCoverage>,
) -> bool {
    &&& canonical(claim.requested@)
    &&& same_moments(claim.requested@, observed_bounds(days, bounds, days.len()))
    &&& canonical(claim.verified@)
    &&& same_moments(claim.verified@, observed_verified(days, evidence, days.len()))
    &&& canonical(claim.unresolved@)
    &&& forall|moment: int| #[trigger]
        covers(claim.unresolved@, moment) == (covers(claim.requested@, moment) && !covers(
            claim.verified@,
            moment,
        ))
}

fn unresolved_of(requested: &Vec<Range>, verified: &Vec<Range>) -> (unresolved: Vec<Range>)
    requires
        canonical(requested@),
    ensures
        canonical(unresolved@),
        forall|moment: int| #[trigger]
            covers(unresolved@, moment) == (covers(requested@, moment) && !covers(
                verified@,
                moment,
            )),
{
    let mut unresolved: Vec<Range> = Vec::new();
    let mut i: usize = 0;
    while i < requested.len()
        invariant
            i <= requested@.len(),
            canonical(requested@),
            canonical(unresolved@),
            forall|j: int, k: int|
                0 <= j < unresolved@.len() && i <= k < requested@.len() ==> (
                #[trigger] unresolved@[j]).end < (#[trigger] requested@[k]).start,
            forall|moment: int| #[trigger]
                covers(unresolved@, moment) == (covers(requested@.take(i as int), moment)
                    && !covers(verified@, moment)),
        decreases requested@.len() - i,
    {
        let ghost before = unresolved@;
        let mut missing = complement(requested[i], verified);
        let ghost added = missing@;
        unresolved.append(&mut missing);
        proof {
            assert(unresolved@ =~= before + added);
            assert forall|j: int| 0 <= j < added.len() implies requested@[i as int].start <= (
            #[trigger] added[j]).start && added[j].end <= requested@[i as int].end by {
                assert(added[j].has(added[j].start as int));
                assert(covers(added, added[j].start as int));
                assert(added[j].has(added[j].end - 1));
                assert(covers(added, added[j].end - 1));
            }
            assert forall|moment: int| #[trigger]
                covers(unresolved@, moment) == (covers(requested@.take(i + 1), moment) && !covers(
                    verified@,
                    moment,
                )) by {
                covers_sum(before, added, moment);
                assert(requested@.take(i + 1) =~= requested@.take(i as int)
                    + seq![requested@[i as int]]);
                covers_sum(requested@.take(i as int), seq![requested@[i as int]], moment);
                assert(covers(before, moment) == (covers(requested@.take(i as int), moment)
                    && !covers(verified@, moment)));
                assert(covers(added, moment) == (requested@[i as int].has(moment) && !covers(
                    verified@,
                    moment,
                )));
                let one = seq![requested@[i as int]];
                if requested@[i as int].has(moment) {
                    assert(one[0].has(moment));
                }
                if covers(one, moment) {
                    assert(requested@[i as int].has(moment));
                }
            }
        }
        i = i + 1;
    }
    assert(requested@.take(i as int) =~= requested@);
    unresolved
}

/// The claim of an import or a migration about all of its observations.
pub fn total_claim(
    acquisition_id: String,
    source_identity: String,
    days: &Vec<DayInventoryEntry>,
    bounds: &Vec<Range>,
    evidence: &Vec<DayCoverage>,
) -> (claim: AcquisitionCoverage)
    requires
        bounds@.len() == days@.len(),
        evidence@.len() == days@.len(),
        proper(bounds@),
        proper_days(evidence@),
    ensures
        claim.acquisition_id == acquisition_id,
        claim.source_identity == source_identity,
        claim.shortfalls@.len() == 0,
        sums_up(claim, days@, bounds@, evidence@),
{
    let mut asked: Vec<Range> = Vec::new();
    let mut found: Vec<Range> = Vec::new();
    let mut i: usize = 0;
    while i < days.len()
        invariant
            i <= days@.len(),
            bounds@.len() == days@.len(),
            evidence@.len() == days@.len(),
            proper(bounds@),
            proper_days(evidence@),
            proper(asked@),
            proper(found@),
            asked@ == observed_bounds(days@, bounds@, i as nat),
            found@ == observed_verified(days@, evidence@, i as nat),
        decreases days@.len() - i,
    {
        if days[i].family == DayFamily::Observations {
            asked.push(bounds[i]);
            let ghost before = found@;
            assert(proper(evidence@[i as int].verified@));
            let mut more = copy_ranges(&evidence[i].verified);
            found.append(&mut more);
            assert(found@ =~= before + evidence@[i as int].verified@);
        }
        i = i + 1;
    }
    let requested = merge_ranges(&asked);
    let verified = merge_ranges(&found);
    let unresolved = unresolved_of(&requested, &verified);
    AcquisitionCoverage {
        acquisition_id,
        source_identity,
        requested,
        verified,
        shortfalls: Vec::new(),
        unresolved,
    }
}

/// The shortfalls of a history, the tail's last.
pub open spec fn shortfalls_of(coverage: HistoryCoverage) -> Seq<(Seq<char>, Range)> {
    let first: Seq<(Seq<char>, Range)> = match shortfall_of(coverage.shortfall) {
        Some(one) => seq![one],
        None => Seq::empty(),
    };
    match shortfall_of(coverage.tail_shortfall) {
        Some(one) => first.push(one),
        None => first,
    }
}

/// What shortfalls say.
pub open spec fn shortfall_views(list: Seq<Shortfall>) -> Seq<(Seq<char>, Range)> {
    list.map_values(|one: Shortfall| (one.reason@, one.unresolved))
}

/// Whether a claim is that of one acquired history.
pub open spec fn is_history_claim(
    claim: AcquisitionCoverage,
    acquisition_id: Seq<char>,
    coverage: HistoryCoverage,
) -> bool {
    &&& claim.acquisition_id@ == acquisition_id
    &&& claim.source_identity == coverage.source_identity
    &&& claim.requested@ == seq![coverage.requested]
    &&& claim.verified@ == (match coverage.verified {
        Some(range) => seq![range],
        None => Seq::empty(),
    })
    &&& is_rest_of(claim.unresolved@, coverage.requested, claim.verified@)
    &&& shortfall_views(claim.shortfalls@) == shortfalls_of(coverage)
}

/// The claim of one acquired history.
pub fn history_claim(acquisition_id: String, coverage: &HistoryCoverage) -> (claim:
    AcquisitionCoverage)
    ensures
        is_history_claim(claim, acquisition_id@, *coverage),
{
    let mut requested: Vec<Range> = Vec::new();
    requested.push(coverage.requested);
    let mut verified: Vec<Range> = Vec::new();
    if let Some(range) = &coverage.verified {
        verified.push(*range);
    }
    let unresolved = complement(coverage.requested, &verified);
    let mut shortfalls: Vec<Shortfall> = Vec::new();
    if let Some(one) = &coverage.shortfall {
        shortfalls.push(one.clone());
    }
    if let Some(one) = &coverage.tail_shortfall {
        shortfalls.push(one.clone());
    }
    assert(shortfall_views(shortfalls@) =~= shortfalls_of(*coverage));
    assert(requested@ =~= seq![coverage.requested]);
    AcquisitionCoverage {
        acquisition_id,
        source_identity: coverage.source_identity.clone(),
        requested,
        verified,
        shortfalls,
        unresolved,
    }
}

/// The identifier under which an old history's claim is carried over.
pub fn history_id(generation: &str) -> (id: String)
    ensures
        id@ == "v1-history:"@ + generation@,
{
    join("v1-history:", generation)
}

/// Whether two claims say the same.
pub open spec fn claims_agree(a: AcquisitionCoverage, b: AcquisitionCoverage) -> bool {
    &&& a.acquisition_id@ == b.acquisition_id@
    &&& a.source_identity@ == b.source_identity@
    &&& a.requested@ == b.requested@
    &&& a.verified@ == b.verified@
    &&& shortfall_views(a.shortfalls@) == shortfall_views(b.shortfalls@)
    &&& a.unresolved@ == b.unresolved@
}

fn same_ranges(a: &Vec<Range>, b: &Vec<Range>) -> (same: bool)
    ensures
        same == (a@ == b@),
{
    if a.len() != b.len() {
        return false;
    }
    let mut i: usize = 0;
    while i < a.len()
        invariant
            i <= a@.len(),
            a@.len() == b@.len(),
            forall|j: int| 0 <= j < i ==> a@[j] == b@[j],
        decreases a@.len() - i,
    {
        if a[i] != b[i] {
            return false;
        }
        i = i + 1;
    }
    assert(a@ =~= b@);
    true
}

fn same_shortfalls(a: &Vec<Shortfall>, b: &Vec<Shortfall>) -> (same: bool)
    ensures
        same == (shortfall_views(a@) == shortfall_views(b@)),
{
    if a.len() != b.len() {
        assert(shortfall_views(a@).len() != shortfall_views(b@).len());
        return false;
    }
    let mut i: usize = 0;
    while i < a.len()
        invariant
            i <= a@.len(),
            a@.len() == b@.len(),
            forall|j: int|
                0 <= j < i ==> shortfall_views(a@)[j] == #[trigger] shortfall_views(b@)[j],
        decreases a@.len() - i,
    {
        if a[i].unresolved != b[i].unresolved || !same_text(
            a[i].reason.as_str(),
            b[i].reason.as_str(),
        ) {
            assert(shortfall_views(a@)[i as int] != shortfall_views(b@)[i as int]);
            return false;
        }
        i = i + 1;
    }
    assert(shortfall_views(a@) =~= shortfall_views(b@));
    true
}

fn same_claim(a: &AcquisitionCoverage, b: &AcquisitionCoverage) -> (same: bool)
    ensures
        same == claims_agree(*a, *b),
{
    same_text(a.acquisition_id.as_str(), b.acquisition_id.as_str()) && same_text(
        a.source_identity.as_str(),
        b.source_identity.as_str(),
    ) && same_ranges(&a.requested, &b.requested) && same_ranges(&a.verified, &b.verified)
        && same_shortfalls(&a.shortfalls, &b.shortfalls) && same_ranges(
        &a.unresolved,
        &b.unresolved,
    )
}

/// What holds of a claim of an acquisition.
pub open spec fn is_claim_of(id: Seq<char>) -> spec_fn(AcquisitionCoverage) -> bool {
    |claim: AcquisitionCoverage| claim.acquisition_id@ == id
}

/// Where the claim of an acquisition stands.
pub open spec fn claim_at(claims: Seq<AcquisitionCoverage>, id: Seq<char>) -> Option<int> {
    first_where(claims, is_claim_of(id))
}

/// Where the claim of an acquisition stands.
pub fn find_claim(claims: &Vec<AcquisitionCoverage>, id: &str) -> (found: Option<usize>)
    ensures
        found matches Some(at) ==> at < claims@.len() && claim_at(claims@, id@) == Some(at as int),
        found is None ==> claim_at(claims@, id@) is None,
{
    let ghost wanted = is_claim_of(id@);
    let mut i: usize = 0;
    while i < claims.len()
        invariant
            i <= claims@.len(),
            wanted == is_claim_of(id@),
            forall|j: int| 0 <= j < i ==> !wanted(#[trigger] claims@[j]),
        decreases claims@.len() - i,
    {
        if same_text(claims[i].acquisition_id.as_str(), id) {
            proof {
                first_where_found(claims@, wanted, i as int);
            }
            return Some(i);
        }
        i = i + 1;
    }
    proof {
        first_where_absent(claims@, wanted);
    }
    None
}

/// Takes over a claim of a snapshot that is superseded: one that is there already must say the
/// same.
pub fn inherit_claim(claims: &mut Vec<AcquisitionCoverage>, claim: AcquisitionCoverage) -> (taken:
    Result<(), String>)
    ensures
        match claim_at(old(claims)@, claim.acquisition_id@) {
            Some(at) => {
                &&& final(claims)@ == old(claims)@
                &&& refusal(taken) == (if claims_agree(old(claims)@[at], claim) {
                    None
                } else {
                    Some("conflicting acquisition evidence in resumed snapshots"@)
                })
            },
            None => taken is Ok && final(claims)@ == old(claims)@.push(claim),
        },
{
    match find_claim(claims, claim.acquisition_id.as_str()) {
        Some(at) => if same_claim(&claims[at], &claim) {
            Ok(())
        } else {
            Err("conflicting acquisition evidence in resumed snapshots".to_owned())
        },
        None => {
            claims.push(claim);
            Ok(())
        },
    }
}

/// Adds the claim of a new acquisition: its identity must be new.
pub fn publish_claim(claims: &mut Vec<AcquisitionCoverage>, claim: AcquisitionCoverage) -> (added:
    Result<(), String>)
    ensures
        refusal(added) == (if claim_at(old(claims)@, claim.acquisition_id@) is Some {
            Some("daily acquisition identity was already published"@)
        } else {
            None
        }),
        final(claims)@ == (if added is Ok {
            old(claims)@.push(claim)
        } else {
            old(claims)@
        }),
{
    if find_claim(claims, claim.acquisition_id.as_str()).is_some() {
        return Err("daily acquisition identity was already published".to_owned());
    }
    claims.push(claim);
    Ok(())
}

/// Makes sure that an acquisition whose pages are retained has a claim, if only an empty one.
pub fn mention_claim(claims: &mut Vec<AcquisitionCoverage>, id: &str, source_identity: &str)
    ensures
        claim_at(old(claims)@, id@) is Some ==> final(claims)@ == old(claims)@,
        claim_at(old(claims)@, id@) is None ==> {
            let added = final(claims)@.last();
            &&& final(claims)@.drop_last() == old(claims)@
            &&& final(claims)@.len() == old(claims)@.len() + 1
            &&& added.acquisition_id@ == id@
            &&& added.source_identity@ == source_identity@
            &&& added.requested@.len() == 0
            &&& added.verified@.len() == 0
            &&& added.shortfalls@.len() == 0
            &&& added.unresolved@.len() == 0
        },
{
    if find_claim(claims, id).is_none() {
        let ghost before = claims@;
        claims.push(
            AcquisitionCoverage {
                acquisition_id: id.to_owned(),
                source_identity: source_identity.to_owned(),
                requested: Vec::new(),
                verified: Vec::new(),
                shortfalls: Vec::new(),
                unresolved: Vec::new(),
            },
        );
        assert(claims@.drop_last() =~= before);
    }
}

/// Why an acquisition's claim is not that of one continuation.
pub open spec fn continuation_refusal(
    claims: Seq<AcquisitionCoverage>,
    id: Option<Seq<char>>,
) -> Option<Seq<char>> {
    match id {
        None => Some("continuation acquisition absent"@),
        Some(id) => match claim_at(claims, id) {
            None => Some("continuation acquisition has no coverage"@),
            Some(at) => if claims[at].requested@.len() != 1 {
                Some("continuation needs one requested range"@)
            } else if claims[at].verified@.len() > 1 {
                Some("continuation needs one verified range"@)
            } else {
                None
            },
        },
    }
}

/// What a generation says of itself.
#[derive(Debug, Clone, Copy)]
pub struct Identity<'a> {
    pub broker: &'a str,
    pub provider_symbol: &'a str,
    pub role: DatasetRole,
    pub native_granularity: NativeGranularity,
    pub row_count: u64,
    pub first_event_time: i64,
    pub last_event_time: i64,
}

/// The history that a daily generation continues, read from the claim of its acquisition.
pub fn history_coverage(
    claims: &Vec<AcquisitionCoverage>,
    id: Option<&str>,
    manifest: Identity<'_>,
    seed: Option<SeedLineage>,
) -> (coverage: Result<HistoryCoverage, String>)
    ensures
        refusal(coverage) == continuation_refusal(
            claims@,
            crate::live::control::seen(id),
        ),
        coverage matches Ok(coverage) ==> {
            let claim = claims@[claim_at(claims@, id->0@)->0];
            &&& coverage.schema_version == 1
            &&& coverage.source_identity == claim.source_identity
            &&& coverage.broker@ == manifest.broker@
            &&& coverage.provider_symbol@ == manifest.provider_symbol@
            &&& coverage.role == manifest.role
            &&& coverage.requested == claim.requested@[0]
            &&& coverage.verified == (if claim.verified@.len() > 0 {
                Some(claim.verified@[0])
            } else {
                None
            })
            &&& coverage.actual == Some(
                Actual { first: manifest.first_event_time, last: manifest.last_event_time },
            )
            &&& coverage.rows == manifest.row_count
            &&& coverage.pages@.len() == 0
            &&& coverage.bundle is None
            &&& coverage.shortfall == (if claim.shortfalls@.len() > 0 {
                Some(claim.shortfalls@[0])
            } else {
                None
            })
            &&& coverage.tail_shortfall == (if claim.shortfalls@.len() > 1 {
                Some(claim.shortfalls@[1])
            } else {
                None
            })
            &&& coverage.native_granularity == manifest.native_granularity
            &&& coverage.seed == seed
        },
{
    let id: &str = match id {
        Some(id) => id,
        None => {
            return Err("continuation acquisition absent".to_owned());
        },
    };
    let claim = match find_claim(claims, id) {
        Some(at) => &claims[at],
        None => {
            return Err("continuation acquisition has no coverage".to_owned());
        },
    };
    if claim.requested.len() != 1 {
        return Err("continuation needs one requested range".to_owned());
    }
    if claim.verified.len() > 1 {
        return Err("continuation needs one verified range".to_owned());
    }
    Ok(
        HistoryCoverage {
            schema_version: 1,
            source_identity: claim.source_identity.clone(),
            broker: manifest.broker.to_owned(),
            provider_symbol: manifest.provider_symbol.to_owned(),
            role: manifest.role,
            requested: claim.requested[0],
            verified: if claim.verified.len() > 0 {
                Some(claim.verified[0])
            } else {
                None
            },
            actual: Some(
                Actual { first: manifest.first_event_time, last: manifest.last_event_time },
            ),
            rows: manifest.row_count,
            pages: Vec::new(),
            bundle: None,
            shortfall: if claim.shortfalls.len() > 0 {
                Some(claim.shortfalls[0].clone())
            } else {
                None
            },
            tail_shortfall: if claim.shortfalls.len() > 1 {
                Some(claim.shortfalls[1].clone())
            } else {
                None
            },
            native_granularity: manifest.native_granularity,
            seed,
        },
    )
}

} // verus!
