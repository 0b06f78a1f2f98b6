//! What the provenance of an import says: of which days something is known, the provider's
//! offset, and the instrument's entry in a shared collection.

use crate::dataset::ObjectRole;
use crate::lineage::document::Original;
use crate::lineage::json::{
    identical_values_have_the_same_members, json_of, member_integer, member_set, member_text,
    pointed, same_view_same_value, view_of, Json, JsonView,
};
use crate::lineage::root::{
    is_collection, is_collection_record, is_metadata, offset_after, read_collection, read_metadata,
    says_of_day,
};
use crate::lineage::rows::DayMetadata;
use crate::search::{first_where, first_where_absent, first_where_found};
use crate::table::Table;
use crate::text::{finishes_with, refusal};
use vstd::prelude::*;
use vstd::string::*;

verus! {

/// The value that bytes decode to.
pub open spec fn record_of(content: Seq<u8>) -> Json {
    choose|record: Json| json_of(content) == Ok::<JsonView, Seq<char>>(view_of(record))
}

/// Whether an object of the provenance says what is known of a day.
pub open spec fn tells_day(original: Original) -> bool {
    original.object.role is Provenance && finishes_with(original.object.path@, ".meta.json"@)
}

/// Whether an object of the provenance is the record of a shared collection.
pub open spec fn tells_collection(original: Original) -> bool {
    original.object.role is Provenance && is_collection(original.object.path@)
}

/// Why the provenance cannot be read: something does not decode, or a day is not named.
pub open spec fn source_refusal(original: Original) -> Option<Seq<char>> {
    if !tells_day(original) && !tells_collection(original) {
        None
    } else {
        match json_of(original.content@) {
            Err(message) => Some(message),
            Ok(_) => if tells_day(original) && member_text(
                record_of(original.content@),
                "date"@,
            ) is None {
                Some("daily metadata date absent"@)
            } else {
                None
            },
        }
    }
}

/// What holds of an object that cannot be read.
pub open spec fn is_refused() -> spec_fn(Original) -> bool {
    |original: Original| source_refusal(original) is Some
}

/// What the metadata of a day says.
pub open spec fn day_said(content: Seq<u8>) -> DayMetadata {
    let value = record_of(content);
    DayMetadata {
        complete: member_set(value, "complete"@),
        clipped_by_retention: member_set(value, "clipped_by_retention"@),
        clipped_by_now: member_set(value, "clipped_by_now"@),
        market_closed: member_set(value, "market_closed"@),
    }
}

/// What the first `count` objects say of days. The last that speaks of a day stands.
pub open spec fn days_said(originals: Seq<Original>, count: nat) -> Map<Seq<char>, DayMetadata>
    decreases count,
{
    if count == 0 {
        Map::empty()
    } else {
        let before = days_said(originals, (count - 1) as nat);
        let content = originals[count - 1].content@;
        if tells_day(originals[count - 1]) {
            before.insert(member_text(record_of(content), "date"@)->0, day_said(content))
        } else {
            before
        }
    }
}

/// The provider's offset after the first `count` objects.
pub open spec fn offset_said(originals: Seq<Original>, count: nat) -> Option<int>
    decreases count,
{
    if count == 0 {
        None
    } else {
        let before = offset_said(originals, (count - 1) as nat);
        if tells_collection(originals[count - 1]) {
            match member_integer(
                record_of(originals[count - 1].content@),
                "server_timestamp_offset_seconds"@,
            ) {
                Some(offset) => Some(offset),
                None => before,
            }
        } else {
            before
        }
    }
}

/// The entry of an instrument in an object.
pub open spec fn entry_said(original: Original, symbol: Seq<char>) -> Option<JsonView> {
    if tells_collection(original) {
        pointed(json_of(original.content@)->Ok_0, "/assets/"@ + symbol)
    } else {
        None
    }
}

/// Whether an object has the entry that it says.
pub open spec fn has_entry(original: Original, symbol: Seq<char>) -> bool {
    match original.entry {
        Some(entry) => entry_said(original, symbol) == Some(view_of(entry)),
        None => entry_said(original, symbol) is None,
    }
}

/// What the provenance of an import says.
#[derive(Debug)]
pub struct Provided {
    pub days: Table<DayMetadata>,
    pub offset_seconds: Option<i64>,
}

proof fn every_decoding_says_the_same(content: Seq<u8>, value: Json)
    requires
        json_of(content) == Ok::<JsonView, Seq<char>>(view_of(value)),
    ensures
        member_text(record_of(content), "date"@) == member_text(value, "date"@),
        member_integer(record_of(content), "server_timestamp_offset_seconds"@) == member_integer(
            value,
            "server_timestamp_offset_seconds"@,
        ),
        forall|read: Result<(String, DayMetadata), String>| #[trigger]
            says_of_day(value, read) ==> says_of_day(record_of(content), read),
{
    let record = record_of(content);
    assert(view_of(record) == view_of(value));
    same_view_same_value(record, value);
    identical_values_have_the_same_members(record, value, "date"@);
    identical_values_have_the_same_members(record, value, "server_timestamp_offset_seconds"@);
    identical_values_have_the_same_members(record, value, "complete"@);
    identical_values_have_the_same_members(record, value, "clipped_by_retention"@);
    identical_values_have_the_same_members(record, value, "clipped_by_now"@);
    identical_values_have_the_same_members(record, value, "market_closed"@);
}

fn note_day(original: &Original, days: &mut Table<DayMetadata>) -> (noted: Result<(), String>)
    ensures
        match noted {
            Err(message) => source_refusal(*original) == Some(message@),
            Ok(_) => {
                &&& tells_day(*original) ==> source_refusal(*original) is None
                &&& final(days)@ == (if tells_day(*original) {
                    old(days)@.insert(
                        member_text(record_of(original.content@), "date"@)->0,
                        day_said(original.content@),
                    )
                } else {
                    old(days)@
                })
            },
        },
{
    if !is_metadata(original.object.role, original.object.path.as_str()) {
        return Ok(());
    }
    let read = read_metadata(original.content.as_slice());
    proof {
        if let Ok(view) = json_of(original.content@) {
            let value = choose|value: Json| #[trigger]
                view_of(value) == view && says_of_day(value, read);
            every_decoding_says_the_same(original.content@, value);
        }
    }
    match read {
        Err(message) => Err(message),
        Ok((date, metadata)) => {
            days.insert(date, metadata);
            Ok(())
        },
    }
}

fn read_entry(original: &Original, symbol: &str, before: Option<i64>) -> (read: Result<
    (Option<i64>, Option<Json>),
    String,
>)
    ensures
        match read {
            Err(message) => tells_collection(*original) && json_of(original.content@)
                == Err::<JsonView, Seq<char>>(message@),
            Ok((offset, entry)) => {
                &&& tells_collection(*original) ==> json_of(original.content@) is Ok
                &&& (match offset {
                    Some(offset) => Some(offset as int),
                    None => None,
                }) == (if tells_collection(*original) {
                    offset_after(record_of(original.content@), before)
                } else {
                    match before {
                        Some(offset) => Some(offset as int),
                        None => None,
                    }
                })
                &&& match entry {
                    Some(entry) => entry_said(*original, symbol@) == Some(view_of(entry)),
                    None => entry_said(*original, symbol@) is None,
                }
            },
        },
{
    if original.object.role != ObjectRole::Provenance || !is_collection_record(
        original.object.path.as_str(),
    ) {
        return Ok((before, None));
    }
    match read_collection(original.content.as_slice(), symbol, before) {
        Err(message) => Err(message),
        Ok(read) => {
            proof {
                let record = choose|record: Json| #[trigger]
                    json_of(original.content@) == Ok::<JsonView, Seq<char>>(view_of(record)) && (
                    match read.offset_seconds {
                        Some(offset) => offset_after(record, before) == Some(offset as int),
                        None => offset_after(record, before) is None,
                    }) && (match read.entry {
                        Some(entry) => pointed(view_of(record), "/assets/"@ + symbol@) == Some(
                            view_of(entry),
                        ),
                        None => pointed(view_of(record), "/assets/"@ + symbol@) is None,
                    });
                every_decoding_says_the_same(original.content@, record);
            }
            Ok((read.offset_seconds, read.entry))
        },
    }
}

/// Whether an object is another but for its entry.
pub open spec fn same_but_entry(a: Original, b: Original) -> bool {
    a.object == b.object && a.content == b.content && a.gaps == b.gaps
}

/// Reads the provenance of an import: what is known of days, the provider's offset, and in each
/// record of a shared collection the entry of one instrument. The first object that cannot be read
/// ends it.
pub fn read_provenance(originals: &mut Vec<Original>, symbol: &str) -> (read: Result<
    Provided,
    String,
>)
    ensures
        final(originals)@.len() == old(originals)@.len(),
        forall|i: int|
            0 <= i < old(originals)@.len() ==> same_but_entry(
                #[trigger] final(originals)@[i],
                old(originals)@[i],
            ),
        match first_where(old(originals)@, is_refused()) {
            Some(at) => refusal(read) == source_refusal(old(originals)@[at]),
            None => {
                &&& read matches Ok(provided)
                &&& provided.days@ == days_said(old(originals)@, old(originals)@.len())
                &&& (match provided.offset_seconds {
                    Some(offset) => Some(offset as int),
                    None => None,
                }) == offset_said(old(originals)@, old(originals)@.len())
                &&& forall|i: int|
                    0 <= i < old(originals)@.len() ==> has_entry(
                        #[trigger] final(originals)@[i],
                        symbol@,
                    )
            },
        },
{
    let ghost all = originals@;
    let ghost refused = is_refused();
    let mut days: Table<DayMetadata> = Table::new();
    let mut offset_seconds: Option<i64> = None;
    let mut i: usize = 0;
    while i < originals.len()
        invariant
            i <= originals@.len(),
            originals@.len() == all.len(),
            all == old(originals)@,
            refused == is_refused(),
            forall|j: int| 0 <= j < all.len() ==> same_but_entry(#[trigger] originals@[j], all[j]),
            forall|j: int| 0 <= j < i ==> !refused(#[trigger] all[j]),
            forall|j: int| 0 <= j < i ==> has_entry(#[trigger] originals@[j], symbol@),
            days@ == days_said(all, i as nat),
            (match offset_seconds {
                Some(offset) => Some(offset as int),
                None => None,
            }) == offset_said(all, i as nat),
        decreases originals@.len() - i,
    {
        let ghost before = originals@;
        assert(same_but_entry(before[i as int], all[i as int]));
        match note_day(&originals[i], &mut days) {
            Ok(_) => {},
            Err(message) => {
                proof {
                    first_where_found(all, refused, i as int);
                }
                return Err(message);
            },
        }
        match read_entry(&originals[i], symbol, offset_seconds) {
            Ok((offset, entry)) => {
                offset_seconds = offset;
                originals[i].entry = entry;
                assert(forall|j: int|
                    0 <= j < all.len() && j != i ==> (#[trigger] originals@[j]) == before[j]);
                assert(has_entry(originals@[i as int], symbol@));
            },
            Err(message) => {
                proof {
                    first_where_found(all, refused, i as int);
                }
                return Err(message);
            },
        }
        i = i + 1;
    }
    proof {
        first_where_absent(all, refused);
    }
    Ok(Provided { days, offset_seconds })
}

} // verus!
