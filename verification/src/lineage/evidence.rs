//! The evidence of a whole generation: what is claimed of each of its days, by an import, a
//! migration or a descendant, and what becomes of the days by it.

use crate::dataset::ObjectRecord;
use crate::fetch::coverage::{HistoryCoverage, Range};
use crate::lineage::days::{
    apply_day, claim_at, descendant_day, find_claim, history_claim, history_id, import_day,
    is_descendant_evidence, is_history_claim, is_import_evidence, is_migration_evidence,
    migration_day, proper_days, sums_up, total_claim, AcquisitionCoverage, DayCoverage,
    DayInventoryEntry, DayState,
};
use crate::lineage::ranges::proper;
use crate::table::Table;
use crate::text::{join, refusal, text_of};
use vstd::prelude::*;
use vstd::string::*;

verus! {

/// What is known of a generation: of each day, and of each acquisition.
#[derive(Debug)]
pub struct DailyEvidence {
    pub days: Vec<DayCoverage>,
    pub acquisitions: Vec<AcquisitionCoverage>,
}

/// The identifier of an import: its response log, else the generation that it replaces.
pub fn import_id(raw_pages: Option<&str>, generation: &str) -> (id: String)
    ensures
        id@ == (match raw_pages {
            Some(sha256) => sha256@,
            None => generation@,
        }),
{
    match raw_pages {
        Some(sha256) => sha256.to_owned(),
        None => generation.to_owned(),
    }
}

/// The evidence of an import.
pub fn import_coverage(
    id: String,
    source_kind: &str,
    days: &Vec<DayInventoryEntry>,
    bounds: &Vec<Range>,
) -> (evidence: DailyEvidence)
    requires
        bounds@.len() == days@.len(),
        proper(bounds@),
    ensures
        evidence.days@.len() == days@.len(),
        forall|i: int|
            0 <= i < days@.len() ==> is_import_evidence(
                #[trigger] evidence.days@[i],
                days@[i],
                bounds@[i],
                id@,
            ),
        evidence.acquisitions@.len() == 1,
        evidence.acquisitions@[0].acquisition_id@ == id@,
        evidence.acquisitions@[0].source_identity@ == "import:"@ + source_kind@,
        evidence.acquisitions@[0].shortfalls@.len() == 0,
        sums_up(evidence.acquisitions@[0], days@, bounds@, evidence.days@),
{
    let mut found: Vec<DayCoverage> = Vec::new();
    let mut i: usize = 0;
    while i < days.len()
        invariant
            i <= days@.len(),
            bounds@.len() == days@.len(),
            proper(bounds@),
            found@.len() == i,
            proper_days(found@),
            forall|j: int|
                0 <= j < i ==> is_import_evidence(
                    #[trigger] found@[j],
                    days@[j],
                    bounds@[j],
                    id@,
                ),
        decreases days@.len() - i,
    {
        assert(bounds@[i as int].start < bounds@[i as int].end);
        let one = import_day(&days[i], bounds[i], id.as_str());
        assert(proper(one.verified@));
        found.push(one);
        i = i + 1;
    }
    let claim = total_claim(id, join("import:", source_kind), days, bounds, &found);
    let mut acquisitions: Vec<AcquisitionCoverage> = Vec::new();
    acquisitions.push(claim);
    DailyEvidence { days: found, acquisitions }
}

/// The identifier of a migration's source.
pub fn migration_id(generation: &str) -> (id: String)
    ensures
        id@ == "migration-source:"@ + generation@,
{
    join("migration-source:", generation)
}

/// The evidence of a migration: the claims about its days, and the histories that it retains.
/// The times of observations never claim completeness.
pub fn migration_coverage(
    id: String,
    source_identity: String,
    days: &Vec<DayInventoryEntry>,
    bounds: &Vec<Range>,
    histories: &Vec<(String, HistoryCoverage)>,
) -> (evidence: DailyEvidence)
    requires
        bounds@.len() == days@.len(),
        proper(bounds@),
    ensures
        evidence.days@.len() == days@.len(),
        forall|i: int|
            0 <= i < days@.len() ==> is_migration_evidence(
                #[trigger] evidence.days@[i],
                days@[i],
                bounds@[i],
                id@,
            ),
        evidence.acquisitions@.len() == histories@.len() + 1,
        evidence.acquisitions@[0].acquisition_id@ == id@,
        evidence.acquisitions@[0].source_identity@ == source_identity@,
        evidence.acquisitions@[0].shortfalls@.len() == 0,
        sums_up(evidence.acquisitions@[0], days@, bounds@, evidence.days@),
        forall|i: int|
            0 <= i < histories@.len() ==> is_history_claim(
                #[trigger] evidence.acquisitions@[i + 1],
                "v1-history:"@ + histories@[i].0@,
                histories@[i].1,
            ),
{
    let mut found: Vec<DayCoverage> = Vec::new();
    let mut i: usize = 0;
    while i < days.len()
        invariant
            i <= days@.len(),
            bounds@.len() == days@.len(),
            proper(bounds@),
            found@.len() == i,
            proper_days(found@),
            forall|j: int|
                0 <= j < i ==> is_migration_evidence(
                    #[trigger] found@[j],
                    days@[j],
                    bounds@[j],
                    id@,
                ),
        decreases days@.len() - i,
    {
        assert(bounds@[i as int].start < bounds@[i as int].end);
        let one = migration_day(&days[i], bounds[i], id.as_str());
        assert(proper(one.verified@));
        found.push(one);
        i = i + 1;
    }
    let claim = total_claim(id, source_identity, days, bounds, &found);
    let mut acquisitions: Vec<AcquisitionCoverage> = Vec::new();
    acquisitions.push(claim);
    let mut k: usize = 0;
    while k < histories.len()
        invariant
            k <= histories@.len(),
            acquisitions@.len() == k + 1,
            acquisitions@[0] == claim,
            forall|j: int|
                1 <= j <= k ==> is_history_claim(
                    #[trigger] acquisitions@[j],
                    "v1-history:"@ + histories@[j - 1].0@,
                    histories@[j - 1].1,
                ),
        decreases histories@.len() - k,
    {
        let history = &histories[k];
        acquisitions.push(history_claim(history_id(history.0.as_str()), &history.1));
        k = k + 1;
    }
    DailyEvidence { days: found, acquisitions }
}

/// The evidence of a descendant's days, from that of its baseline and the claim of its own
/// acquisition.
pub fn descendant_days(
    previous: &Vec<DayCoverage>,
    days: &Vec<DayInventoryEntry>,
    bounds: &Vec<Range>,
    claims: &Vec<AcquisitionCoverage>,
    acquisition: &str,
) -> (evidence: Result<Vec<DayCoverage>, String>)
    requires
        bounds@.len() == days@.len(),
        proper_days(previous@),
    ensures
        refusal(evidence) == (if claim_at(claims@, acquisition@) is None {
            Some("missing acquisition claim"@)
        } else {
            None
        }),
        evidence matches Ok(evidence) ==> {
            &&& evidence@.len() == days@.len()
            &&& forall|i: int|
                0 <= i < days@.len() ==> is_descendant_evidence(
                    #[trigger] evidence@[i],
                    previous@,
                    days@[i],
                    bounds@[i],
                    claims@[claim_at(claims@, acquisition@)->0].verified@,
                    acquisition@,
                )
        },
{
    let acquired = match find_claim(claims, acquisition) {
        Some(at) => &claims[at].verified,
        None => {
            return Err("missing acquisition claim".to_owned());
        },
    };
    let mut evidence: Vec<DayCoverage> = Vec::new();
    let mut i: usize = 0;
    while i < days.len()
        invariant
            i <= days@.len(),
            bounds@.len() == days@.len(),
            proper_days(previous@),
            evidence@.len() == i,
            forall|j: int|
                0 <= j < i ==> is_descendant_evidence(
                    #[trigger] evidence@[j],
                    previous@,
                    days@[j],
                    bounds@[j],
                    acquired@,
                    acquisition@,
                ),
        decreases days@.len() - i,
    {
        evidence.push(descendant_day(previous, &days[i], bounds[i], acquired, acquisition));
        i = i + 1;
    }
    Ok(evidence)
}

/// Whether a day is what evidence makes of it: in the state that the evidence gives it, and
/// without an object where it is known to be empty.
pub open spec fn is_settled(
    after: DayInventoryEntry,
    before: DayInventoryEntry,
    evidence: DayCoverage,
    state: DayState,
) -> bool {
    &&& after.date == before.date
    &&& after.family == before.family
    &&& after.rows == before.rows
    &&& after.first_time == before.first_time
    &&& after.last_time == before.last_time
    &&& after.state == state
    &&& text_of(after.reason) == text_of(evidence.reason)
    &&& after.unresolved@ == evidence.unresolved@
    &&& after.object == (if state is EmptyKnown {
        None
    } else {
        before.object
    })
}

/// Whether an object belongs to a day that is known to be empty.
pub open spec fn is_of_empty_day(
    key: Seq<char>,
    days: Seq<DayInventoryEntry>,
    states: Seq<DayState>,
    count: int,
) -> bool {
    exists|i: int|
        0 <= i < count && (#[trigger] states[i]) is EmptyKnown && text_of(days[i].object) == Some(
            key,
        )
}

/// What holds of an object that a generation keeps.
pub open spec fn stays(days: Seq<DayInventoryEntry>, states: Seq<DayState>) -> spec_fn(
    ObjectRecord,
) -> bool {
    |object: ObjectRecord| !is_of_empty_day(object.key@, days, states, days.len() as int)
}

fn settle(
    days: &mut Vec<DayInventoryEntry>,
    evidence: &Vec<DayCoverage>,
    states: &Vec<DayState>,
) -> (empty: Table<()>)
    requires
        evidence@.len() == old(days)@.len(),
        states@.len() == old(days)@.len(),
    ensures
        final(days)@.len() == old(days)@.len(),
        forall|i: int|
            0 <= i < old(days)@.len() ==> is_settled(
                #[trigger] final(days)@[i],
                old(days)@[i],
                evidence@[i],
                states@[i],
            ),
        forall|key: Seq<char>| #[trigger]
            empty@.dom().contains(key) == is_of_empty_day(
                key,
                old(days)@,
                states@,
                old(days)@.len() as int,
            ),
{
    let ghost before = days@;
    let mut empty: Table<()> = Table::new();
    let mut i: usize = 0;
    while i < days.len()
        invariant
            i <= days@.len(),
            before == old(days)@,
            days@.len() == before.len(),
            evidence@.len() == before.len(),
            states@.len() == before.len(),
            forall|j: int|
                0 <= j < i ==> is_settled(
                    #[trigger] days@[j],
                    before[j],
                    evidence@[j],
                    states@[j],
                ),
            forall|j: int| i <= j < before.len() ==> #[trigger] days@[j] == before[j],
            forall|key: Seq<char>| #[trigger]
                empty@.dom().contains(key) == is_of_empty_day(key, before, states@, i as int),
        decreases days@.len() - i,
    {
        let ghost current = days@;
        let ghost known = empty@.dom();
        let mut day = days.remove(i);
        assert(day == before[i as int]);
        apply_day(&mut day, &evidence[i], states[i]);
        if states[i] == DayState::EmptyKnown {
            if let Some(key) = &day.object {
                empty.insert(key.clone(), ());
            }
            day.object = None;
        }
        days.insert(i, day);
        proof {
            assert forall|j: int| 0 <= j < before.len() && j != i implies #[trigger] days@[j]
                == current[j] by {}
            assert forall|key: Seq<char>| #[trigger]
                empty@.dom().contains(key) == is_of_empty_day(key, before, states@, i + 1) by {
                assert(known.contains(key) == is_of_empty_day(key, before, states@, i as int));
                if is_of_empty_day(key, before, states@, i as int) {
                    let j = choose|j: int|
                        0 <= j < i && (#[trigger] states@[j]) is EmptyKnown && text_of(
                            before[j].object,
                        ) == Some(key);
                    assert(states@[j] is EmptyKnown);
                }
                if is_of_empty_day(key, before, states@, i + 1) {
                    let j = choose|j: int|
                        0 <= j < i + 1 && (#[trigger] states@[j]) is EmptyKnown && text_of(
                            before[j].object,
                        ) == Some(key);
                    assert(states@[j] is EmptyKnown);
                }
                assert(states@[i as int] == states@[i as int]);
            }
        }
        i = i + 1;
    }
    empty
}

/// Enters evidence into the days of a generation, each with the state that its evidence gives it,
/// and drops the objects of days that are known to be empty.
pub fn settle_days(
    days: &mut Vec<DayInventoryEntry>,
    evidence: &Vec<DayCoverage>,
    states: &Vec<DayState>,
    objects: &Vec<ObjectRecord>,
) -> (kept: Vec<ObjectRecord>)
    requires
        evidence@.len() == old(days)@.len(),
        states@.len() == old(days)@.len(),
    ensures
        final(days)@.len() == old(days)@.len(),
        forall|i: int|
            0 <= i < old(days)@.len() ==> is_settled(
                #[trigger] final(days)@[i],
                old(days)@[i],
                evidence@[i],
                states@[i],
            ),
        kept@ == objects@.filter(stays(old(days)@, states@)),
{
    let ghost before = days@;
    let empty = settle(days, evidence, states);
    let ghost wanted = stays(before, states@);
    let mut kept: Vec<ObjectRecord> = Vec::new();
    let mut i: usize = 0;
    proof {
        reveal(Seq::filter);
        assert(objects@.take(0).filter(wanted) =~= Seq::empty());
    }
    while i < objects.len()
        invariant
            i <= objects@.len(),
            wanted == stays(before, states@),
            forall|key: Seq<char>| #[trigger]
                empty@.dom().contains(key) == is_of_empty_day(
                    key,
                    before,
                    states@,
                    before.len() as int,
                ),
            kept@ == objects@.take(i as int).filter(wanted),
        decreases objects@.len() - i,
    {
        if !empty.contains(objects[i].key.as_str()) {
            kept.push(objects[i].clone());
        }
        proof {
            reveal(Seq::filter);
            assert(objects@.take(i + 1).drop_last() =~= objects@.take(i as int));
            assert(objects@.take(i + 1).last() == objects@[i as int]);
        }
        i = i + 1;
    }
    assert(objects@.take(i as int) =~= objects@);
    kept
}

} // verus!
