//! What a descendant takes over from the generations before it: the claims of their
//! acquisitions, the pages that were received since, and the lineage that names them all.

use crate::dataset::{find_object, is_object, ObjectRecord};
use crate::fetch::coverage::{OccurrenceIdentity, PageCoverage, SeedLineage};
use crate::lineage::days::{
    claim_at, claims_agree, inherit_claim, is_claim_of, mention_claim, publish_claim,
    AcquisitionCoverage,
};
use crate::lineage::json::{among, find_text, member, member_text, set_member, Json};
use crate::lineage::occurrences::ReceiptState;
use crate::lineage::reclaim::{ancestors, descendant_ancestors, in_lineage, is_text, lists_text};
use crate::search::{first_where, first_where_meets};
use crate::table::{lists, Table};
use crate::text::{copy_optional, refusal, text_of, views};
use vstd::prelude::*;
use vstd::string::*;

verus! {

/// Where a generation keeps its lineage.
pub const LINEAGE_PATH: &'static str = "provenance/lineage.json";

/// Finds the lineage of a generation; one without names no ancestors.
pub fn lineage_object(objects: &Vec<ObjectRecord>) -> (found: Option<usize>)
    ensures
        match found {
            Some(at) => at < objects@.len() && first_where(objects@, is_object(LINEAGE_PATH@))
                == Some(at as int),
            None => first_where(objects@, is_object(LINEAGE_PATH@)) is None,
        },
{
    find_object(objects, LINEAGE_PATH)
}

/// The claims after those of superseded snapshots are taken over in order; none where two say
/// different things of one acquisition.
pub open spec fn inherited(
    claims: Seq<AcquisitionCoverage>,
    more: Seq<AcquisitionCoverage>,
    count: nat,
) -> Option<Seq<AcquisitionCoverage>>
    decreases count,
{
    if count == 0 {
        Some(claims)
    } else {
        match inherited(claims, more, (count - 1) as nat) {
            None => None,
            Some(list) => match claim_at(list, more[count - 1].acquisition_id@) {
                Some(at) => if claims_agree(list[at], more[count - 1]) {
                    Some(list)
                } else {
                    None
                },
                None => Some(list.push(more[count - 1])),
            },
        }
    }
}

proof fn conflict_stands(
    claims: Seq<AcquisitionCoverage>,
    more: Seq<AcquisitionCoverage>,
    count: nat,
    total: nat,
)
    requires
        count <= total,
        inherited(claims, more, count) is None,
    ensures
        inherited(claims, more, total) is None,
    decreases total - count,
{
    if count < total {
        conflict_stands(claims, more, count, (total - 1) as nat);
    }
}

/// The acquisitions of claims.
pub open spec fn ids_of(claims: Seq<AcquisitionCoverage>) -> Seq<Seq<char>> {
    claims.map_values(|claim: AcquisitionCoverage| claim.acquisition_id@)
}

/// Names with those of a second list that are not among them, each once.
pub open spec fn mentioned(
    names: Seq<Seq<char>>,
    more: Seq<Seq<char>>,
    count: nat,
) -> Seq<Seq<char>>
    decreases count,
{
    if count == 0 {
        names
    } else {
        let before = mentioned(names, more, (count - 1) as nat);
        if before.contains(more[count - 1]) {
            before
        } else {
            before.push(more[count - 1])
        }
    }
}

/// Whether a claim says nothing but that its acquisition has pages.
pub open spec fn claims_nothing(claim: AcquisitionCoverage, source_identity: Seq<char>) -> bool {
    &&& claim.source_identity@ == source_identity
    &&& claim.requested@.len() == 0
    &&& claim.verified@.len() == 0
    &&& claim.shortfalls@.len() == 0
    &&& claim.unresolved@.len() == 0
}

/// Whether claims are those before, with an empty claim for each acquisition that has none.
pub open spec fn mentions(
    claims: Seq<AcquisitionCoverage>,
    before: Seq<AcquisitionCoverage>,
    ids: Seq<Seq<char>>,
    source_identity: Seq<char>,
) -> bool {
    &&& claims.len() >= before.len()
    &&& claims.take(before.len() as int) == before
    &&& ids_of(claims) == mentioned(ids_of(before), ids, ids.len())
    &&& forall|i: int|
        before.len() <= i < claims.len() ==> claims_nothing(#[trigger] claims[i], source_identity)
}

proof fn claimed(claims: Seq<AcquisitionCoverage>, id: Seq<char>)
    ensures
        claim_at(claims, id) is Some <==> ids_of(claims).contains(id),
{
    first_where_meets(claims, is_claim_of(id));
    match claim_at(claims, id) {
        Some(at) => {
            assert(ids_of(claims)[at] == id);
        },
        None => {
            if ids_of(claims).contains(id) {
                let i = choose|i: int| 0 <= i < ids_of(claims).len() && ids_of(claims)[i] == id;
                assert(!is_claim_of(id)(claims[i]));
            }
        },
    }
}

/// Whether a page has no identity among the requests.
pub open spec fn is_anonymous(page: PageCoverage) -> bool {
    page.occurrence is None
}

/// The acquisitions that pages belong to.
pub fn acquisitions(pages: &Vec<PageCoverage>) -> (ids: Result<Vec<String>, String>)
    ensures
        refusal(ids) == (if exists|i: int| 0 <= i < pages@.len() && is_anonymous(#[trigger] pages@[i]) {
            Some("missing occurrence identity"@)
        } else {
            None
        }),
        ids matches Ok(ids) ==> views(ids@) == pages@.map_values(
            |page: PageCoverage| page.occurrence->0.acquisition_id@,
        ),
{
    let mut ids: Vec<String> = Vec::new();
    let mut i: usize = 0;
    while i < pages.len()
        invariant
            i <= pages@.len(),
            ids@.len() == i,
            forall|j: int| 0 <= j < i ==> !is_anonymous(#[trigger] pages@[j]),
            forall|j: int|
                0 <= j < i ==> (#[trigger] ids@[j])@ == pages@[j].occurrence->0.acquisition_id@,
        decreases pages@.len() - i,
    {
        match &pages[i].occurrence {
            Some(occurrence) => {
                ids.push(occurrence.acquisition_id.clone());
            },
            None => {
                assert(is_anonymous(pages@[i as int]));
                return Err("missing occurrence identity".to_owned());
            },
        }
        i = i + 1;
    }
    assert(views(ids@) =~= pages@.map_values(
        |page: PageCoverage| page.occurrence->0.acquisition_id@,
    ));
    Ok(ids)
}

/// Why the claims of a descendant do not go together.
pub open spec fn claims_refusal(
    baseline: Seq<AcquisitionCoverage>,
    superseded: Seq<AcquisitionCoverage>,
    id: Seq<char>,
) -> Option<Seq<char>> {
    match inherited(baseline, superseded, superseded.len()) {
        None => Some("conflicting acquisition evidence in resumed snapshots"@),
        Some(list) => if claim_at(list, id) is Some {
            Some("daily acquisition identity was already published"@)
        } else {
            None
        },
    }
}

/// The claims of a descendant: those of its baseline, those of the snapshots that it supersedes,
/// its own, and an empty one for every other acquisition whose pages it carries.
pub fn gather_claims(
    baseline: Vec<AcquisitionCoverage>,
    superseded: Vec<AcquisitionCoverage>,
    claim: AcquisitionCoverage,
    ids: &Vec<String>,
) -> (claims: Result<Vec<AcquisitionCoverage>, String>)
    ensures
        refusal(claims) == claims_refusal(baseline@, superseded@, claim.acquisition_id@),
        claims matches Ok(claims) ==> mentions(
            claims@,
            inherited(baseline@, superseded@, superseded@.len())->0.push(claim),
            views(ids@),
            claim.source_identity@,
        ),
{
    let ghost start = baseline@;
    let ghost all = superseded@;
    let mut claims = baseline;
    let mut rest = superseded;
    let ghost mut done: nat = 0;
    assert(all.skip(0) =~= all);
    while rest.len() > 0
        invariant
            done <= all.len(),
            start == baseline@,
            all == superseded@,
            rest@ == all.skip(done as int),
            inherited(start, all, done) == Some(claims@),
        decreases rest@.len(),
    {
        let next = rest.remove(0);
        assert(next == all[done as int]);
        assert(rest@ =~= all.skip(done + 1int));
        match inherit_claim(&mut claims, next) {
            Ok(()) => {},
            Err(message) => {
                proof {
                    conflict_stands(start, all, done + 1, all.len());
                }
                return Err(message);
            },
        }
        proof {
            done = done + 1;
        }
    }
    let source_identity = claim.source_identity.clone();
    match publish_claim(&mut claims, claim) {
        Ok(()) => {},
        Err(message) => {
            return Err(message);
        },
    }
    let ghost before = claims@;
    let ghost names = views(ids@);
    let mut i: usize = 0;
    assert(claims@.take(before.len() as int) =~= before);
    while i < ids.len()
        invariant
            i <= ids@.len(),
            names == views(ids@),
            source_identity == claim.source_identity,
            claims@.len() >= before.len(),
            claims@.take(before.len() as int) == before,
            ids_of(claims@) == mentioned(ids_of(before), names, i as nat),
            forall|j: int|
                before.len() <= j < claims@.len() ==> claims_nothing(
                    #[trigger] claims@[j],
                    claim.source_identity@,
                ),
        decreases ids@.len() - i,
    {
        let ghost earlier = claims@;
        proof {
            claimed(earlier, names[i as int]);
        }
        mention_claim(&mut claims, ids[i].as_str(), source_identity.as_str());
        proof {
            assert(names[i as int] == ids@[i as int]@);
            if claim_at(earlier, names[i as int]) is None {
                assert(claims@ =~= earlier.push(claims@.last()));
                assert(ids_of(claims@) =~= ids_of(earlier).push(names[i as int]));
                assert(claims@.take(before.len() as int) =~= earlier.take(before.len() as int));
            }
        }
        i = i + 1;
    }
    Ok(claims)
}

proof fn inherited_grows(
    claims: Seq<AcquisitionCoverage>,
    more: Seq<AcquisitionCoverage>,
    count: nat,
)
    requires
        inherited(claims, more, count) is Some,
    ensures
        inherited(claims, more, count)->0.len() >= claims.len(),
        inherited(claims, more, count)->0.take(claims.len() as int) == claims,
    decreases count,
{
    if count > 0 {
        inherited_grows(claims, more, (count - 1) as nat);
        let list = inherited(claims, more, (count - 1) as nat)->0;
        assert(list.push(more[count - 1]).take(claims.len() as int) =~= list.take(
            claims.len() as int,
        ));
    }
    assert(claims.take(claims.len() as int) =~= claims);
}

/// A descendant keeps every claim of its baseline as it was.
pub proof fn a_descendant_keeps_every_claim(
    baseline: Seq<AcquisitionCoverage>,
    superseded: Seq<AcquisitionCoverage>,
    claim: AcquisitionCoverage,
    ids: Seq<Seq<char>>,
    claims: Seq<AcquisitionCoverage>,
)
    requires
        claims_refusal(baseline, superseded, claim.acquisition_id@) is None,
        mentions(
            claims,
            inherited(baseline, superseded, superseded.len())->0.push(claim),
            ids,
            claim.source_identity@,
        ),
    ensures
        claims.len() > baseline.len(),
        claims.take(baseline.len() as int) == baseline,
{
    inherited_grows(baseline, superseded, superseded.len());
    let list = inherited(baseline, superseded, superseded.len())->0;
    let before = list.push(claim);
    assert forall|i: int| 0 <= i < baseline.len() implies claims[i] == baseline[i] by {
        assert(claims.take(before.len() as int)[i] == before[i]);
        assert(list.take(baseline.len() as int)[i] == baseline[i]);
    }
    assert(claims.take(baseline.len() as int) =~= baseline);
}

/// What a page is retained for.
#[derive(Debug, Clone, Copy, PartialEq, Eq, Structural)]
pub enum PageDisposition {
    Indexed,
    Diagnostic,
}

/// A page as an acquisition retains it, in the order of its requests.
#[derive(Debug)]
pub struct AcquiredPage {
    pub acquisition_id: String,
    pub intent: Option<String>,
    pub ordinal: u64,
    pub payload_sha256: String,
    pub request_token: Option<String>,
    pub request_anchor_utc: Option<i64>,
    pub receipt_time_utc: Option<i64>,
    pub receipt_state: ReceiptState,
    pub first_event_time: Option<i64>,
    pub last_event_time: Option<i64>,
    pub rows: u64,
    pub disposition: PageDisposition,
}

/// Puts a page of an acquisition together; its anchor was put on the universal clock before.
pub fn acquired_page(page: &PageCoverage, diagnostic: bool, anchor_utc: Option<i64>) -> (acquired:
    Result<AcquiredPage, String>)
    ensures
        refusal(acquired) == (if is_anonymous(*page) {
            Some("daily acquisition has no durable occurrence identity"@)
        } else {
            None
        }),
        acquired matches Ok(acquired) ==> {
            &&& acquired.acquisition_id@ == page.occurrence->0.acquisition_id@
            &&& text_of(acquired.intent) == text_of(page.occurrence->0.intent)
            &&& acquired.ordinal == page.occurrence->0.ordinal
            &&& acquired.payload_sha256@ == page.sha256@
            &&& text_of(acquired.request_token) == text_of(page.anchor)
            &&& acquired.request_anchor_utc == anchor_utc
            &&& acquired.receipt_time_utc == page.receipt_time
            &&& acquired.receipt_state == (if page.receipt_time is Some {
                ReceiptState::Recorded
            } else {
                ReceiptState::AbsentInLegacyRecord
            })
            &&& acquired.first_event_time == page.first
            &&& acquired.last_event_time == page.last
            &&& acquired.rows == page.rows
            &&& acquired.disposition == (if diagnostic {
                PageDisposition::Diagnostic
            } else {
                PageDisposition::Indexed
            })
        },
{
    let occurrence = match &page.occurrence {
        Some(occurrence) => occurrence,
        None => {
            return Err("daily acquisition has no durable occurrence identity".to_owned());
        },
    };
    Ok(
        AcquiredPage {
            acquisition_id: occurrence.acquisition_id.clone(),
            intent: copy_optional(&occurrence.intent),
            ordinal: occurrence.ordinal,
            payload_sha256: page.sha256.clone(),
            request_token: copy_optional(&page.anchor),
            request_anchor_utc: anchor_utc,
            receipt_time_utc: page.receipt_time,
            receipt_state: if page.receipt_time.is_some() {
                ReceiptState::Recorded
            } else {
                ReceiptState::AbsentInLegacyRecord
            },
            first_event_time: page.first,
            last_event_time: page.last,
            rows: page.rows,
            disposition: if diagnostic {
                PageDisposition::Diagnostic
            } else {
                PageDisposition::Indexed
            },
        },
    )
}

/// Whether a value is an array that lists a set of texts in byte order.
pub open spec fn lists_names(value: Json, names: Set<Seq<char>>) -> bool {
    value matches Json::Array(values) && {
        &&& forall|i: int| 0 <= i < values@.len() ==> #[trigger] values@[i] is Text
        &&& lists(values@.map_values(|one: Json| one->Text_0@), names)
    }
}

fn name_list(names: &Table<()>) -> (list: Json)
    ensures
        lists_names(list, names@.dom()),
{
    let count: usize = names.len();
    let ghost keys = names.keys();
    let mut values: Vec<Json> = Vec::new();
    let mut i: usize = 0;
    while i < count
        invariant
            i <= count,
            keys == names.keys(),
            count == keys.len(),
            values@.len() == i,
            forall|j: int|
                0 <= j < i ==> (#[trigger] values@[j]) is Text && values@[j]->Text_0@ == keys[j],
        decreases count - i,
    {
        let (name, _) = names.at(i);
        values.push(Json::Text(name.to_owned()));
        i = i + 1;
    }
    assert(values@.map_values(|one: Json| one->Text_0@) =~= keys);
    Json::Array(values)
}

/// Whether a value is an optional text.
pub open spec fn is_optional(value: Option<Json>, text: Option<Seq<char>>) -> bool {
    match text {
        Some(text) => value is Some && is_text(value->0, text),
        None => value == Some(Json::Null),
    }
}

/// Whether a value names the seed of a lineage, or none.
pub open spec fn names_seed(value: Option<Json>, seed: Option<SeedLineage>) -> bool {
    match seed {
        Some(seed) => {
            &&& value is Some
            &&& member_text(value->0, "generation"@) == Some(seed.generation@)
            &&& member_text(value->0, "source_identity"@) == Some(seed.source_identity@)
        },
        None => value == Some(Json::Null),
    }
}

/// Whether a value says which acquisition continued a lineage.
pub open spec fn says_continuation(
    value: Json,
    acquisition: OccurrenceIdentity,
    seed: Option<SeedLineage>,
) -> bool {
    &&& member_text(value, "acquisition_id"@) == Some(acquisition.acquisition_id@)
    &&& is_optional(member(value, "intent"@), text_of(acquisition.intent))
    &&& names_seed(member(value, "seed"@), seed)
}

fn optional_json(text: &Option<String>) -> (value: Json)
    ensures
        is_optional(Some(value), text_of(*text)),
{
    match text {
        Some(text) => Json::Text(text.clone()),
        None => Json::Null,
    }
}

fn seed_json(seed: &Option<SeedLineage>) -> (value: Json)
    ensures
        names_seed(Some(value), *seed),
{
    match seed {
        Some(seed) => {
            let mut members: Vec<(String, Json)> = Vec::new();
            set_member(&mut members, "generation", Json::Text(seed.generation.clone()));
            set_member(&mut members, "source_identity", Json::Text(seed.source_identity.clone()));
            proof {
                reveal_strlit("generation");
                reveal_strlit("source_identity");
                assert("generation"@.len() != "source_identity"@.len());
                assert(among(members@, "generation"@) is Some);
                assert(among(members@, "source_identity"@) is Some);
            }
            Json::Object(members)
        },
        None => Json::Null,
    }
}

fn continuation_json(acquisition: &OccurrenceIdentity, seed: &Option<SeedLineage>) -> (value: Json)
    ensures
        says_continuation(value, *acquisition, *seed),
{
    let mut members: Vec<(String, Json)> = Vec::new();
    set_member(
        &mut members,
        "acquisition_id",
        Json::Text(acquisition.acquisition_id.clone()),
    );
    set_member(&mut members, "intent", optional_json(&acquisition.intent));
    set_member(&mut members, "seed", seed_json(seed));
    proof {
        reveal_strlit("acquisition_id");
        reveal_strlit("intent");
        reveal_strlit("seed");
        assert("acquisition_id"@.len() == 14 && "intent"@.len() == 6 && "seed"@.len() == 4);
        assert(among(members@, "acquisition_id"@) is Some);
        assert(among(members@, "intent"@) is Some);
        assert(among(members@, "seed"@) is Some);
    }
    Json::Object(members)
}

/// The lineage that a descendant continues: its baseline's, or a new one.
pub open spec fn lineage_before(lineage: Json, inherited: Option<Json>) -> bool {
    match inherited {
        Some(value) => lineage == value,
        None => {
            &&& member(lineage, "schema_version"@) matches Some(Json::Number(version))
                && version@ == "1"@
            &&& forall|name: Seq<char>|
                name != "schema_version"@ ==> #[trigger] member(lineage, name) is None
        },
    }
}

/// Whether a lineage continues another: it flattens the ancestors, names its baseline as the
/// parent, keeps the root where there was one, and leaves everything else as it was.
pub open spec fn continues_lineage(
    lineage: Json,
    before: Json,
    baseline: Seq<char>,
    superseded: Seq<String>,
    acquisition: OccurrenceIdentity,
    seed: Option<SeedLineage>,
) -> bool {
    &&& member(lineage, "ancestors"@) is Some
    &&& lists_names(
        member(lineage, "ancestors"@)->0,
        descendant_ancestors(before, baseline, superseded),
    )
    &&& member_text(lineage, "parent_generation"@) == Some(baseline)
    &&& member_text(lineage, "root_generation"@) == (match member_text(before, "root_generation"@) {
        Some(root) => Some(root),
        None => Some(baseline),
    })
    &&& member(lineage, "continuation"@) is Some
    &&& says_continuation(member(lineage, "continuation"@)->0, acquisition, seed)
    &&& forall|name: Seq<char>|
        name != "ancestors"@ && name != "parent_generation"@ && name != "root_generation"@ && name
            != "continuation"@ ==> #[trigger] member(lineage, name) == member(before, name)
}

/// Continues the lineage of a baseline, an object or nothing.
pub fn continue_lineage(
    inherited: Option<Json>,
    baseline: &str,
    superseded: &Vec<String>,
    acquisition: &OccurrenceIdentity,
    seed: &Option<SeedLineage>,
) -> (lineage: Json)
    requires
        inherited matches Some(value) ==> value is Object || value is Null,
    ensures
        exists|before: Json| #[trigger]
            lineage_before(before, inherited) && continues_lineage(
                lineage,
                before,
                baseline@,
                superseded@,
                *acquisition,
                *seed,
            ),
{
    let before = match inherited {
        Some(value) => value,
        None => {
            let mut members: Vec<(String, Json)> = Vec::new();
            set_member(&mut members, "schema_version", Json::Number("1".to_owned()));
            let value = Json::Object(members);
            proof {
                assert(among(members@, "schema_version"@) is Some);
                assert forall|name: Seq<char>| name != "schema_version"@ implies #[trigger] member(
                    value,
                    name,
                ) is None by {
                    assert(among(members@, name) is None);
                }
            }
            value
        },
    };
    assert(lineage_before(before, inherited));
    let names = ancestors(&before, baseline, superseded);
    let has_root: bool = find_text(&before, "root_generation").is_some();
    let listed = name_list(&names);
    let continuation = continuation_json(acquisition, seed);
    let ghost start = before;
    let mut members: Vec<(String, Json)> = match before {
        Json::Object(members) => members,
        _ => Vec::new(),
    };
    assert forall|name: Seq<char>| #[trigger] among(members@, name) == member(start, name) by {}
    set_member(&mut members, "ancestors", listed);
    set_member(&mut members, "parent_generation", Json::Text(baseline.to_owned()));
    if !has_root {
        set_member(&mut members, "root_generation", Json::Text(baseline.to_owned()));
    }
    set_member(&mut members, "continuation", continuation);
    let lineage = Json::Object(members);
    proof {
        reveal_strlit("ancestors");
        reveal_strlit("parent_generation");
        reveal_strlit("root_generation");
        reveal_strlit("continuation");
        assert("ancestors"@.len() == 9 && "parent_generation"@.len() == 17
            && "root_generation"@.len() == 15 && "continuation"@.len() == 12);
        assert(among(members@, "ancestors"@) == Some(listed));
        assert(among(members@, "parent_generation"@) is Some);
        assert(among(members@, "continuation"@) == Some(continuation));
        assert(among(members@, "root_generation"@) is Some);
        assert forall|name: Seq<char>|
            name != "ancestors"@ && name != "parent_generation"@ && name != "root_generation"@
                && name != "continuation"@ implies #[trigger] member(lineage, name) == member(
            start,
            name,
        ) by {
            assert(among(members@, name) == member(start, name));
        }
        assert(continues_lineage(
            lineage,
            start,
            baseline@,
            superseded@,
            *acquisition,
            *seed,
        ));
    }
    lineage
}

/// A continued lineage still names every ancestor, its parent before, its baseline and what it
/// supersedes; and it is one in which its baseline can be replaced.
pub proof fn a_continued_lineage_names_every_ancestor(
    lineage: Json,
    before: Json,
    baseline: Seq<char>,
    superseded: Seq<String>,
    acquisition: OccurrenceIdentity,
    seed: Option<SeedLineage>,
    name: Seq<char>,
)
    requires
        continues_lineage(lineage, before, baseline, superseded, acquisition, seed),
    ensures
        lists_text(lineage, "ancestors"@, name) == descendant_ancestors(
            before,
            baseline,
            superseded,
        ).contains(name),
        lists_text(before, "ancestors"@, name) ==> lists_text(lineage, "ancestors"@, name),
        in_lineage(lineage, baseline, name),
{
    let names = descendant_ancestors(before, baseline, superseded);
    let values = member(lineage, "ancestors"@)->0->Array_0;
    let texts = values@.map_values(|one: Json| one->Text_0@);
    assert forall|text: Seq<char>| lists_text(lineage, "ancestors"@, text) == #[trigger] names.contains(
        text,
    ) by {
        if names.contains(text) {
            assert(texts.to_set().contains(text));
            let i = choose|i: int| 0 <= i < texts.len() && texts[i] == text;
            assert(is_text(values@[i], text));
        }
        if lists_text(lineage, "ancestors"@, text) {
            let i = choose|i: int| 0 <= i < values@.len() && is_text(#[trigger] values@[i], text);
            assert(texts[i] == text);
            assert(texts.contains(text));
            assert(texts.to_set().contains(text));
        }
    }
    assert(names.contains(baseline));
    assert(lists_text(before, "ancestors"@, name) ==> names.contains(name));
}

} // verus!
