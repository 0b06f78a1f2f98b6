//! The root of a lineage: the sources of an import, its days in order, and the proof that its
//! pages rebuild what they were taken from.

use crate::dataset::{find_object, is_object, ObjectRecord, ObjectRole};
use crate::digest::{digest, hex, sha256};
use crate::fetch::coverage::Range;
use crate::lineage::days::{day_path, logical_path, DayFamily, DayInventoryEntry, DayState};
use crate::lineage::json::{
    find_integer, find_text, is_set, json_of, member_integer, member_set, member_text, parse, parse_at,
    pointed, view_of, Json, JsonView,
};
use crate::lineage::lines::{
    contents, lines_from, lines_rebuild_the_file, rebuilt, Framed, Terminator,
};
use crate::lineage::rows::{claim_day, claim_of, day, day_of, DayClaim, DayMetadata};
use crate::search::{first_where, first_where_absent, first_where_found};
use crate::text::{
    begins_with, finishes_with, join, precedes, refusal, same_text, starts_with, strip_suffix,
    text_before, text_of, text_order,
};
use vstd::prelude::*;
use vstd::string::*;

verus! {

/// What an import keeps of an object of its provenance.
#[derive(Debug, Clone, Copy, PartialEq, Eq, Structural)]
pub enum Provenance {
    /// The instrument's own entry of a shared collection.
    InstrumentEntry,
    /// Nothing but its framing, since its lines are kept as pages.
    Framed,
    /// Nothing but that it was there.
    Marker,
    /// Its bytes.
    Verbatim,
}

/// Whether an object is the record of a shared collection.
pub open spec fn is_collection(path: Seq<char>) -> bool {
    begins_with(path, "collection/"@) && finishes_with(path, ".json"@)
}

/// Whether an object only marks that something was done, or that nothing was missing.
pub open spec fn is_marker(path: Seq<char>, rows: u64) -> bool {
    ||| finishes_with(path, "_SUCCESS"@)
    ||| finishes_with(path, ".conversion.lock"@)
    ||| finishes_with(path, "gaps.parquet"@) && rows == 0
}

/// What an import keeps of an object of its provenance.
pub open spec fn provenance_of(path: Seq<char>, has_entry: bool, rows: u64) -> Provenance {
    if is_collection(path) && has_entry {
        Provenance::InstrumentEntry
    } else if path == "raw_pages.ndjson"@ || path == "checkpoint.ndjson"@ {
        Provenance::Framed
    } else if is_marker(path, rows) {
        Provenance::Marker
    } else {
        Provenance::Verbatim
    }
}

fn ends_with(text: &str, suffix: &str) -> (found: bool)
    ensures
        found == finishes_with(text@, suffix@),
{
    strip_suffix(text, suffix).is_some()
}

/// Whether an object is the record of a shared collection.
pub fn is_collection_record(path: &str) -> (found: bool)
    ensures
        found == is_collection(path@),
{
    starts_with(path, "collection/") && ends_with(path, ".json")
}

/// Whether an object is a table of gaps, whose rows decide whether it is kept.
pub fn is_gap_table(path: &str) -> (found: bool)
    ensures
        found == finishes_with(path@, "gaps.parquet"@),
{
    ends_with(path, "gaps.parquet")
}

/// Decides what an import keeps of an object of its provenance: whether the collection has an
/// entry of the instrument, and how many rows a table of gaps has, were found before.
pub fn provenance(path: &str, has_entry: bool, rows: u64) -> (kept: Provenance)
    ensures
        kept == provenance_of(path@, has_entry, rows),
{
    if is_collection_record(path) && has_entry {
        return Provenance::InstrumentEntry;
    }
    if same_text(path, "raw_pages.ndjson") || same_text(path, "checkpoint.ndjson") {
        return Provenance::Framed;
    }
    if ends_with(path, "_SUCCESS") || ends_with(path, ".conversion.lock") || (is_gap_table(path)
        && rows == 0) {
        return Provenance::Marker;
    }
    Provenance::Verbatim
}

/// Whether an object of the provenance says what is known of a day.
pub fn is_metadata(role: ObjectRole, path: &str) -> (found: bool)
    ensures
        found == (role is Provenance && finishes_with(path@, ".meta.json"@)),
{
    role == ObjectRole::Provenance && ends_with(path, ".meta.json")
}

/// What the record of a shared collection says of one instrument.
#[derive(Debug)]
pub struct CollectionEntry {
    pub offset_seconds: Option<i64>,
    pub entry: Option<Json>,
}

/// The provider's offset after a record of a collection was read: the one it declares, else the
/// one that was known before.
pub open spec fn offset_after(record: Json, before: Option<i64>) -> Option<int> {
    match member_integer(record, "server_timestamp_offset_seconds"@) {
        Some(offset) => Some(offset),
        None => match before {
            Some(offset) => Some(offset as int),
            None => None,
        },
    }
}

/// Reads the record of a shared collection, which binds only the entry of one instrument.
pub fn read_collection(content: &[u8], symbol: &str, before: Option<i64>) -> (read: Result<
    CollectionEntry,
    String,
>)
    ensures
        match read {
            Err(message) => json_of(content@) == Err::<JsonView, Seq<char>>(message@),
            Ok(read) => exists|record: Json| #[trigger]
                json_of(content@) == Ok::<JsonView, Seq<char>>(view_of(record)) && (
                match read.offset_seconds {
                    Some(offset) => offset_after(record, before) == Some(offset as int),
                    None => offset_after(record, before) is None,
                }) && (match read.entry {
                    Some(entry) => pointed(view_of(record), "/assets/"@ + symbol@) == Some(
                        view_of(entry),
                    ),
                    None => pointed(view_of(record), "/assets/"@ + symbol@) is None,
                }),
        },
{
    let pointer = join("/assets/", symbol);
    match parse_at(content, pointer.as_str()) {
        Err(message) => Err(message),
        Ok((record, entry)) => {
            let offset_seconds: Option<i64> = match find_integer(
                &record,
                "server_timestamp_offset_seconds",
            ) {
                Some(offset) => Some(offset),
                None => before,
            };
            assert(json_of(content@) == Ok::<JsonView, Seq<char>>(view_of(record)));
            Ok(CollectionEntry { offset_seconds, entry })
        },
    }
}

/// What the metadata of a day says, or why it says nothing: it must name its date.
pub open spec fn says_of_day(value: Json, read: Result<(String, DayMetadata), String>) -> bool {
    match member_text(value, "date"@) {
        None => refusal(read) == Some("daily metadata date absent"@),
        Some(named) => {
            &&& read matches Ok((date, metadata))
            &&& date@ == named
            &&& metadata.complete == member_set(value, "complete"@)
            &&& metadata.clipped_by_retention == member_set(value, "clipped_by_retention"@)
            &&& metadata.clipped_by_now == member_set(value, "clipped_by_now"@)
            &&& metadata.market_closed == member_set(value, "market_closed"@)
        },
    }
}

/// Reads the metadata of a day.
pub fn read_metadata(content: &[u8]) -> (read: Result<(String, DayMetadata), String>)
    ensures
        match json_of(content@) {
            Err(message) => refusal(read) == Some(message),
            Ok(view) => exists|value: Json| #[trigger]
                view_of(value) == view && says_of_day(value, read),
        },
{
    let value = match parse(content) {
        Ok(value) => value,
        Err(message) => {
            return Err(message);
        },
    };
    assert(view_of(value) == json_of(content@)->Ok_0);
    let date: String = match find_text(&value, "date") {
        Some(date) => date.to_owned(),
        None => {
            return Err("daily metadata date absent".to_owned());
        },
    };
    let metadata = DayMetadata {
        complete: is_set(&value, "complete"),
        clipped_by_retention: is_set(&value, "clipped_by_retention"),
        clipped_by_now: is_set(&value, "clipped_by_now"),
        market_closed: is_set(&value, "market_closed"),
    };
    Ok((date, metadata))
}

/// Where a character stands last in a text.
pub open spec fn last_at(text: Seq<char>, c: char) -> Option<int>
    decreases text.len(),
{
    if text.len() == 0 {
        None
    } else if text.last() == c {
        Some(text.len() - 1)
    } else {
        last_at(text.drop_last(), c)
    }
}

fn find_last(text: &str, c: char, to: usize) -> (found: Option<usize>)
    requires
        to <= text@.len(),
    ensures
        match found {
            Some(at) => at < to && last_at(text@.take(to as int), c) == Some(at as int),
            None => last_at(text@.take(to as int), c) is None,
        },
{
    let mut i: usize = to;
    while i > 0
        invariant
            i <= to <= text@.len(),
            last_at(text@.take(to as int), c) == last_at(text@.take(i as int), c),
        decreases i,
    {
        proof {
            assert(text@.take(i as int).drop_last() =~= text@.take(i - 1));
        }
        if text.get_char(i - 1) == c {
            return Some(i - 1);
        }
        i = i - 1;
    }
    None
}

/// The date in the path of an imported day: between its last two underscores.
pub open spec fn path_date(path: Seq<char>) -> Option<Seq<char>> {
    match last_at(path, '_') {
        None => None,
        Some(end) => match last_at(path.take(end), '_') {
            None => None,
            Some(start) => Some(path.subrange(start + 1, end)),
        },
    }
}

/// The date in the path of an imported day.
pub fn import_date<'a>(path: &'a str) -> (date: Result<&'a str, String>)
    ensures
        match date {
            Ok(date) => path_date(path@) == Some(date@),
            Err(message) => path_date(path@) is None && message@
                == "daily import path has no date"@,
        },
{
    let length: usize = path.unicode_len();
    assert(path@.take(length as int) =~= path@);
    let end: usize = match find_last(path, '_', length) {
        Some(end) => end,
        None => {
            return Err("daily import path has no date".to_owned());
        },
    };
    match find_last(path, '_', end) {
        Some(start) => Ok(path.substring_char(start + 1, end)),
        None => Err("daily import path has no date".to_owned()),
    }
}

/// Whether a row ends the day whose rows are being gathered.
pub fn ends_day(last: Option<i64>, time: i64) -> (ends: bool)
    ensures
        ends == (last is Some && day_of(last->0 as int) != day_of(time as int)),
{
    match last {
        Some(last) => day(last) != day(time),
        None => false,
    }
}

/// Where the observations of a day stand in an inventory.
pub open spec fn observed_at(days: Seq<DayInventoryEntry>, date: Seq<char>) -> Option<int> {
    first_where(days, is_observed(date))
}

/// What holds of the observations of a day.
pub open spec fn is_observed(date: Seq<char>) -> spec_fn(DayInventoryEntry) -> bool {
    |day: DayInventoryEntry| day.family is Observations && day.date@ == date
}

fn find_observed(days: &Vec<DayInventoryEntry>, date: &str) -> (found: Option<usize>)
    ensures
        match found {
            Some(at) => at < days@.len() && observed_at(days@, date@) == Some(at as int),
            None => observed_at(days@, date@) is None,
        },
{
    let ghost wanted = is_observed(date@);
    let mut i: usize = 0;
    while i < days.len()
        invariant
            i <= days@.len(),
            wanted == is_observed(date@),
            forall|j: int| 0 <= j < i ==> !wanted(#[trigger] days@[j]),
        decreases days@.len() - i,
    {
        if days[i].family == DayFamily::Observations && same_text(days[i].date.as_str(), date) {
            proof {
                first_where_found(days@, wanted, i as int);
            }
            return Some(i);
        }
        i = i + 1;
    }
    proof {
        first_where_absent(days@, wanted);
    }
    None
}

/// Whether a day is known to hold no observations.
pub open spec fn is_known_empty(day: DayInventoryEntry, date: Seq<char>) -> bool {
    &&& day.date@ == date
    &&& day.family is Observations
    &&& day.object is None
    &&& day.rows == 0
    &&& day.first_time is None
    &&& day.last_time is None
    &&& day.state is EmptyKnown
    &&& day.reason is None
    &&& day.unresolved@.len() == 0
}

/// Whether a day with rows takes over what its metadata claims.
pub open spec fn takes_claim(
    after: DayInventoryEntry,
    before: DayInventoryEntry,
    metadata: DayMetadata,
    bounds: Range,
) -> bool {
    &&& after.date == before.date
    &&& after.family == before.family
    &&& after.object == before.object
    &&& after.rows == before.rows
    &&& after.first_time == before.first_time
    &&& after.last_time == before.last_time
    &&& match claim_of(metadata, true) {
        DayClaim::Complete => after.state is Complete && after.reason is None && after.unresolved
            == before.unresolved,
        DayClaim::Clipped => after.state is Partial && text_of(after.reason) == Some(
            "source day clipped by retention or collection cutoff; exact covered boundary unavailable"@,
        ) && after.unresolved@ == seq![bounds],
        _ => after == before,
    }
}

/// Enters what the metadata of a day claims. A day without rows is known to be empty, or needs an
/// empty object that says so, which only ticks have; `true` asks for that object.
pub fn settle_day(
    days: &mut Vec<DayInventoryEntry>,
    date: &str,
    metadata: DayMetadata,
    bounds: Range,
    ticks: bool,
) -> (needs_object: Result<bool, String>)
    ensures
        match observed_at(old(days)@, date@) {
            Some(at) => {
                &&& needs_object == Ok::<bool, String>(false)
                &&& final(days)@.len() == old(days)@.len()
                &&& takes_claim(final(days)@[at], old(days)@[at], metadata, bounds)
                &&& forall|i: int|
                    0 <= i < old(days)@.len() && i != at ==> final(days)@[i] == #[trigger] old(
                        days,
                    )@[i]
            },
            None => if claim_of(metadata, false) is EmptyKnown {
                &&& needs_object == Ok::<bool, String>(false)
                &&& final(days)@.len() == old(days)@.len() + 1
                &&& final(days)@.drop_last() == old(days)@
                &&& is_known_empty(final(days)@.last(), date@)
            } else {
                &&& final(days)@ == old(days)@
                &&& refusal(needs_object) == (if ticks {
                    None
                } else {
                    Some("tick metadata on bars"@)
                })
                &&& needs_object matches Ok(needs_object) ==> needs_object
            },
        },
{
    match find_observed(days, date) {
        Some(at) => {
            let ghost before = days@;
            let mut found = days.remove(at);
            claim_day(&mut found, metadata, bounds);
            days.insert(at, found);
            proof {
                assert forall|i: int| 0 <= i < before.len() && i != at implies days@[i]
                    == #[trigger] before[i] by {}
            }
            Ok(false)
        },
        None => if metadata.complete && !metadata.clipped_by_retention && !metadata.clipped_by_now
            && metadata.market_closed {
            let ghost before = days@;
            days.push(
                DayInventoryEntry {
                    date: date.to_owned(),
                    family: DayFamily::Observations,
                    object: None,
                    rows: 0,
                    first_time: None,
                    last_time: None,
                    state: DayState::EmptyKnown,
                    reason: None,
                    unresolved: Vec::new(),
                },
            );
            assert(days@.drop_last() =~= before);
            Ok(false)
        } else if ticks {
            Ok(true)
        } else {
            Err("tick metadata on bars".to_owned())
        },
    }
}

/// The order of days: observations first, each family by date.
pub open spec fn day_before(a: DayInventoryEntry, b: DayInventoryEntry) -> bool {
    ||| a.family is Observations && b.family is Pages
    ||| a.family == b.family && text_before(a.date@, b.date@)
}

/// Whether days are in order.
pub open spec fn days_in_order(days: Seq<DayInventoryEntry>) -> bool {
    forall|i: int, j: int| 0 <= i < j < days.len() ==> !day_before(days[j], days[i])
}

/// What holds of a day of a family and a date.
pub open spec fn is_day(family: DayFamily, date: Seq<char>) -> spec_fn(DayInventoryEntry) -> bool {
    |day: DayInventoryEntry| day.family == family && day.date@ == date
}

proof fn day_order(a: DayInventoryEntry, b: DayInventoryEntry, c: DayInventoryEntry)
    ensures
        !day_before(a, a),
        day_before(a, b) && day_before(b, c) ==> day_before(a, c),
        day_before(a, b) ==> !(a.family == b.family && a.date@ == b.date@),
{
    text_order(a.date@, b.date@, c.date@);
    text_order(a.date@, a.date@, a.date@);
}

fn comes_before_day(a: &DayInventoryEntry, b: &DayInventoryEntry) -> (before: bool)
    ensures
        before == day_before(*a, *b),
{
    if a.family == b.family {
        precedes(a.date.as_str(), b.date.as_str())
    } else {
        a.family == DayFamily::Observations
    }
}

proof fn none_kept(days: Seq<DayInventoryEntry>, wanted: spec_fn(DayInventoryEntry) -> bool)
    requires
        forall|i: int| 0 <= i < days.len() ==> !wanted(#[trigger] days[i]),
    ensures
        days.filter(wanted) == Seq::<DayInventoryEntry>::empty(),
    decreases days.len(),
{
    reveal(Seq::filter);
    if days.len() > 0 {
        none_kept(days.drop_last(), wanted);
    }
}

proof fn kept_of_placed(
    days: Seq<DayInventoryEntry>,
    at: int,
    day: DayInventoryEntry,
    family: DayFamily,
    date: Seq<char>,
)
    requires
        0 <= at <= days.len(),
        forall|i: int| at <= i < days.len() ==> day_before(day, #[trigger] days[i]),
    ensures
        days.insert(at, day).filter(is_day(family, date)) == days.push(day).filter(
            is_day(family, date),
        ),
{
    let wanted = is_day(family, date);
    let head = days.take(at);
    let tail = days.skip(at);
    let one = seq![day];
    assert(days.insert(at, day) =~= head + one + tail);
    assert(days.push(day) =~= head + tail + one);
    Seq::filter_distributes_over_add(head + one, tail, wanted);
    Seq::filter_distributes_over_add(head, one, wanted);
    Seq::filter_distributes_over_add(head + tail, one, wanted);
    Seq::filter_distributes_over_add(head, tail, wanted);
    if wanted(day) {
        assert forall|i: int| 0 <= i < tail.len() implies !wanted(#[trigger] tail[i]) by {
            day_order(day, days[at + i], day);
        }
        none_kept(tail, wanted);
    } else {
        none_kept(one, wanted);
    }
    assert(head.filter(wanted) + one.filter(wanted) + tail.filter(wanted) =~= head.filter(wanted)
        + tail.filter(wanted) + one.filter(wanted));
}

/// Puts the days of an inventory in order; days of one family and date stay as they stood.
pub fn in_day_order(days: Vec<DayInventoryEntry>) -> (sorted: Vec<DayInventoryEntry>)
    ensures
        days_in_order(sorted@),
        sorted@.len() == days@.len(),
        forall|family: DayFamily, date: Seq<char>|
            sorted@.filter(#[trigger] is_day(family, date)) == days@.filter(is_day(family, date)),
{
    let ghost all = days@;
    let mut rest = days;
    let mut sorted: Vec<DayInventoryEntry> = Vec::new();
    assert(all.take(0) =~= Seq::empty());
    let ghost mut done: nat = 0;
    assert(all.skip(0) =~= all);
    while rest.len() > 0
        invariant
            done <= all.len(),
            all == days@,
            rest@ == all.skip(done as int),
            days_in_order(sorted@),
            sorted@.len() == done,
            forall|family: DayFamily, date: Seq<char>|
                sorted@.filter(#[trigger] is_day(family, date)) == all.take(done as int).filter(
                    is_day(family, date),
                ),
        decreases rest@.len(),
    {
        let ghost before = sorted@;
        let next = rest.remove(0);
        let ghost item = next;
        assert(next == all[done as int]);
        assert(rest@ =~= all.skip(done + 1int));
        let mut at: usize = sorted.len();
        while at > 0 && comes_before_day(&next, &sorted[at - 1])
            invariant
                at <= sorted@.len(),
                sorted@ == before,
                forall|i: int| at <= i < sorted@.len() ==> day_before(next, #[trigger] sorted@[i]),
            decreases at,
        {
            at = at - 1;
        }
        sorted.insert(at, next);
        proof {
            assert(at == 0 || !day_before(item, before[at - 1]));
            assert forall|i: int, j: int| 0 <= i < j < sorted@.len() implies !day_before(
                sorted@[j],
                sorted@[i],
            ) by {
                if j == at {
                    assert(sorted@[i] == before[i]);
                    if day_before(item, before[i]) && i < at - 1 {
                        assert(!day_before(before[at - 1], before[i]));
                        not_before(item, before[at - 1], before[i]);
                    }
                } else if i == at {
                    assert(sorted@[j] == before[j - 1]);
                    day_order(item, before[j - 1], item);
                } else {
                    let a = if i < at {
                        i
                    } else {
                        i - 1
                    };
                    let b = if j < at {
                        j
                    } else {
                        j - 1
                    };
                    assert(!day_before(before[b], before[a]));
                }
            }
            assert forall|family: DayFamily, date: Seq<char>|
                sorted@.filter(#[trigger] is_day(family, date)) == all.take(done + 1int).filter(
                    is_day(family, date),
                ) by {
                kept_of_placed(before, at as int, item, family, date);
                assert(all.take(done + 1int) =~= all.take(done as int).push(item));
                let wanted = is_day(family, date);
                reveal(Seq::filter);
                assert(before.push(item).drop_last() =~= before);
                assert(all.take(done as int).push(item).drop_last() =~= all.take(done as int));
            }
            done = done + 1;
        }
    }
    assert(all.take(done as int) =~= all);
    sorted
}

proof fn not_before(a: DayInventoryEntry, b: DayInventoryEntry, c: DayInventoryEntry)
    requires
        !day_before(a, b),
        !day_before(b, c),
    ensures
        !day_before(a, c),
{
    text_order(a.date@, c.date@, b.date@);
    text_order(a.date@, b.date@, c.date@);
    text_order(b.date@, a.date@, c.date@);
    text_order(c.date@, b.date@, a.date@);
    text_order(b.date@, c.date@, a.date@);
}

/// Decides whether an import has pages: checkpoints alone have nothing to belong to, and pages
/// need the provider's offset.
pub fn page_offset(raw: bool, checkpoint: bool, offset: Option<i64>) -> (found: Result<
    Option<i64>,
    String,
>)
    ensures
        refusal(found) == (if !raw && checkpoint {
            Some("checkpoint without raw source; retain unresolved source"@)
        } else if raw && offset is None {
            Some("import pages have no recorded provider offset"@)
        } else {
            None
        }),
        found matches Ok(found) ==> found == (if raw {
            offset
        } else {
            None
        }),
{
    if !raw {
        if checkpoint {
            return Err("checkpoint without raw source; retain unresolved source".to_owned());
        }
        return Ok(None);
    }
    if offset.is_none() {
        return Err("import pages have no recorded provider offset".to_owned());
    }
    Ok(offset)
}

/// A page as it was read back from the object of its day.
#[derive(Debug)]
pub struct EncodedPage {
    pub acquisition_id: String,
    pub ordinal: u64,
    pub payload: Vec<u8>,
    pub checkpoint: Option<Vec<u8>>,
}

/// What holds of the page of a request.
pub open spec fn is_page(acquisition: Seq<char>, ordinal: u64) -> spec_fn(EncodedPage) -> bool {
    |page: EncodedPage| page.ordinal == ordinal && page.acquisition_id@ == acquisition
}

/// The bytes of a page: its payload, or its checkpoint.
pub open spec fn page_bytes(
    pages: Seq<EncodedPage>,
    acquisition: Seq<char>,
    ordinal: Option<u64>,
    checkpoint: bool,
) -> Result<Seq<u8>, Seq<char>> {
    match ordinal {
        None => Err("source occurrence missing from daily inventory"@),
        Some(ordinal) => match first_where(pages, is_page(acquisition, ordinal)) {
            None => Err("encoded occurrence absent"@),
            Some(at) => if !checkpoint {
                Ok(pages[at].payload@)
            } else {
                match pages[at].checkpoint {
                    Some(bytes) => Ok(bytes@),
                    None => Err("encoded checkpoint absent"@),
                }
            },
        },
    }
}

fn find_bytes<'a>(
    pages: &'a Vec<EncodedPage>,
    acquisition: &str,
    ordinal: Option<u64>,
    checkpoint: bool,
) -> (found: Result<&'a Vec<u8>, String>)
    ensures
        match page_bytes(pages@, acquisition@, ordinal, checkpoint) {
            Ok(bytes) => found matches Ok(found) && found@ == bytes,
            Err(message) => refusal(found) == Some(message),
        },
{
    let number: u64 = match ordinal {
        Some(number) => number,
        None => {
            return Err("source occurrence missing from daily inventory".to_owned());
        },
    };
    let ghost wanted = is_page(acquisition@, number);
    let mut i: usize = 0;
    while i < pages.len()
        invariant
            i <= pages@.len(),
            ordinal == Some(number),
            wanted == is_page(acquisition@, number),
            forall|j: int| 0 <= j < i ==> !wanted(#[trigger] pages@[j]),
        decreases pages@.len() - i,
    {
        if pages[i].ordinal == number && same_text(pages[i].acquisition_id.as_str(), acquisition) {
            proof {
                first_where_found(pages@, wanted, i as int);
            }
            if !checkpoint {
                return Ok(&pages[i].payload);
            }
            return match &pages[i].checkpoint {
                Some(bytes) => Ok(bytes),
                None => Err("encoded checkpoint absent".to_owned()),
            };
        }
        i = i + 1;
    }
    proof {
        first_where_absent(pages@, wanted);
    }
    Err("encoded occurrence absent".to_owned())
}

/// Finds the object with the pages of a day.
pub fn page_object(objects: &Vec<ObjectRecord>, date: &str) -> (found: Result<usize, String>)
    ensures
        match first_where(objects@, is_object(day_path(date@, DayFamily::Pages))) {
            Some(at) => found matches Ok(found) && found == at,
            None => refusal(found) == Some("daily page object absent"@),
        },
{
    let path = logical_path(date, DayFamily::Pages);
    match find_object(objects, path.as_str()) {
        Some(at) => Ok(at),
        None => Err("daily page object absent".to_owned()),
    }
}

/// The file that pages rebuild: the bytes of each line's page, and the line's own terminator.
pub open spec fn reassembled(
    lines: Seq<Framed>,
    owners: Seq<Option<u64>>,
    pages: Seq<EncodedPage>,
    acquisition: Seq<char>,
    checkpoint: bool,
    count: nat,
) -> Result<Seq<u8>, Seq<char>>
    decreases count,
{
    if count == 0 {
        Ok(Seq::empty())
    } else {
        match reassembled(lines, owners, pages, acquisition, checkpoint, (count - 1) as nat) {
            Err(message) => Err(message),
            Ok(before) => match page_bytes(pages, acquisition, owners[count - 1], checkpoint) {
                Err(message) => Err(message),
                Ok(bytes) => Ok(before + bytes + lines[count - 1].terminator.bytes()),
            },
        }
    }
}

proof fn failure_stands(
    lines: Seq<Framed>,
    owners: Seq<Option<u64>>,
    pages: Seq<EncodedPage>,
    acquisition: Seq<char>,
    checkpoint: bool,
    count: nat,
    total: nat,
)
    requires
        count <= total,
        reassembled(lines, owners, pages, acquisition, checkpoint, count) is Err,
    ensures
        reassembled(lines, owners, pages, acquisition, checkpoint, total) == reassembled(
            lines,
            owners,
            pages,
            acquisition,
            checkpoint,
            count,
        ),
    decreases total - count,
{
    if count < total {
        failure_stands(lines, owners, pages, acquisition, checkpoint, count, (total - 1) as nat);
    }
}

fn append_bytes(out: &mut Vec<u8>, bytes: &Vec<u8>)
    ensures
        final(out)@ == old(out)@ + bytes@,
{
    let ghost before = out@;
    let mut i: usize = 0;
    assert(out@ =~= before + bytes@.take(0));
    while i < bytes.len()
        invariant
            i <= bytes@.len(),
            out@ == before + bytes@.take(i as int),
        decreases bytes@.len() - i,
    {
        out.push(bytes[i]);
        i = i + 1;
        assert(out@ =~= before + bytes@.take(i as int));
    }
    assert(bytes@.take(i as int) =~= bytes@);
}

fn append_terminator(out: &mut Vec<u8>, terminator: Terminator)
    ensures
        final(out)@ == old(out)@ + terminator.bytes(),
{
    let ghost before = out@;
    match terminator {
        Terminator::CarriageReturnLineFeed => {
            out.push(13);
            out.push(10);
        },
        Terminator::LineFeed => {
            out.push(10);
        },
        Terminator::Missing => {},
    }
    assert(out@ =~= before + terminator.bytes());
}

/// Rebuilds a file from its pages in the order of its lines; `owners` gives the request that each
/// line belongs to.
pub fn reassemble(
    lines: &Vec<Framed>,
    owners: &Vec<Option<u64>>,
    pages: &Vec<EncodedPage>,
    acquisition: &str,
    checkpoint: bool,
) -> (file: Result<Vec<u8>, String>)
    requires
        owners@.len() == lines@.len(),
    ensures
        match reassembled(lines@, owners@, pages@, acquisition@, checkpoint, lines@.len()) {
            Ok(bytes) => file matches Ok(file) && file@ == bytes,
            Err(message) => refusal(file) == Some(message),
        },
{
    let mut file: Vec<u8> = Vec::new();
    let mut i: usize = 0;
    assert(file@ =~= Seq::empty());
    while i < lines.len()
        invariant
            i <= lines@.len(),
            owners@.len() == lines@.len(),
            reassembled(lines@, owners@, pages@, acquisition@, checkpoint, i as nat) == Ok::<
                Seq<u8>,
                Seq<char>,
            >(file@),
        decreases lines@.len() - i,
    {
        match find_bytes(pages, acquisition, owners[i], checkpoint) {
            Ok(bytes) => {
                append_bytes(&mut file, bytes);
                append_terminator(&mut file, lines[i].terminator);
            },
            Err(message) => {
                proof {
                    failure_stands(
                        lines@,
                        owners@,
                        pages@,
                        acquisition@,
                        checkpoint,
                        (i + 1) as nat,
                        lines@.len(),
                    );
                }
                return Err(message);
            },
        }
        i = i + 1;
    }
    Ok(file)
}

proof fn reassembled_prefix(
    data: Seq<u8>,
    lines: Seq<Framed>,
    owners: Seq<Option<u64>>,
    pages: Seq<EncodedPage>,
    acquisition: Seq<char>,
    checkpoint: bool,
    count: nat,
)
    requires
        count <= lines.len(),
        forall|i: int|
            0 <= i < lines.len() ==> page_bytes(pages, acquisition, #[trigger] owners[i], checkpoint)
                == Ok::<Seq<u8>, Seq<char>>(contents(data, lines[i])),
    ensures
        reassembled(lines, owners, pages, acquisition, checkpoint, count) == Ok::<
            Seq<u8>,
            Seq<char>,
        >(rebuilt(data, lines.take(count as int))),
    decreases count,
{
    if count > 0 {
        reassembled_prefix(
            data,
            lines,
            owners,
            pages,
            acquisition,
            checkpoint,
            (count - 1) as nat,
        );
        assert(lines.take(count as int).drop_last() =~= lines.take(count - 1));
        assert(page_bytes(pages, acquisition, owners[count - 1], checkpoint) == Ok::<
            Seq<u8>,
            Seq<char>,
        >(contents(data, lines[count - 1])));
    }
}

/// Pages that hold the contents of a file's lines rebuild the file, byte for byte.
pub proof fn pages_rebuild_the_file(
    data: Seq<u8>,
    owners: Seq<Option<u64>>,
    pages: Seq<EncodedPage>,
    acquisition: Seq<char>,
    checkpoint: bool,
)
    requires
        data.len() <= u64::MAX,
        data.len() <= usize::MAX,
        owners.len() == lines_from(data, 0, 0).len(),
        forall|i: int|
            0 <= i < owners.len() ==> page_bytes(
                pages,
                acquisition,
                #[trigger] owners[i],
                checkpoint,
            ) == Ok::<Seq<u8>, Seq<char>>(contents(data, lines_from(data, 0, 0)[i])),
    ensures
        reassembled(
            lines_from(data, 0, 0),
            owners,
            pages,
            acquisition,
            checkpoint,
            owners.len(),
        ) == Ok::<Seq<u8>, Seq<char>>(data),
{
    let lines = lines_from(data, 0, 0);
    reassembled_prefix(data, lines, owners, pages, acquisition, checkpoint, owners.len());
    assert(lines.take(owners.len() as int) =~= lines);
    lines_rebuild_the_file(data);
}

/// Checks that a rebuilt file is the one that was imported.
pub fn check_reconstruction(file: &[u8], sha256: &str, bytes: u64, encoded: bool) -> (checked:
    Result<(), String>)
    ensures
        refusal(checked) == (if hex(crate::digest::sha256(file@)) == sha256@ && file@.len()
            == bytes {
            None
        } else if encoded {
            Some("encoded daily NDJSON reconstruction failed"@)
        } else {
            Some("NDJSON framing reconstruction failed"@)
        }),
{
    let found = digest(file);
    if same_text(found.as_str(), sha256) && file.len() as u64 == bytes {
        return Ok(());
    }
    if encoded {
        Err("encoded daily NDJSON reconstruction failed".to_owned())
    } else {
        Err("NDJSON framing reconstruction failed".to_owned())
    }
}

/// Checks that an import reads back as the rows that were validated.
pub fn check_import(
    rows: u64,
    first: i64,
    last: i64,
    expected_rows: u64,
    expected_first: i64,
    expected_last: i64,
) -> (checked: Result<(), String>)
    ensures
        refusal(checked) == (if rows == expected_rows && first == expected_first && last
            == expected_last {
            None
        } else {
            Some("daily import does not equal validated input coverage/rows"@)
        }),
{
    if rows != expected_rows || first != expected_first || last != expected_last {
        return Err("daily import does not equal validated input coverage/rows".to_owned());
    }
    Ok(())
}

} // verus!
