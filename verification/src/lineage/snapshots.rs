//! Snapshots of one acquisition. Resumption keeps the original baseline, so the snapshots that it
//! publishes are siblings: a later one supersedes an earlier one only for the same intent, and
//! with every response retained.

use crate::digest::{digest, hex, sha256};
use crate::lineage::lines::{complete_length, complete_prefix};
use crate::lineage::occurrences::{covers_snapshot, is_retained, retains, Occurrence};
use crate::lineage::select::as_ints;
use crate::search::{first_where, first_where_absent, first_where_found, first_where_meets};
use crate::text::{join3, same_optional, same_text, text_of};
use vstd::prelude::*;
use vstd::string::*;

verus! {

/// One day of pages: the key of its object, where it has one, and the pages that the object holds.
#[derive(Debug)]
pub struct PageDay {
    pub date: String,
    pub object: Option<String>,
    pub pages: Vec<Occurrence>,
}

/// A published generation as a snapshot of the acquisition that it continues.
#[derive(Debug)]
pub struct Snapshot {
    pub intent: Option<String>,
    pub rows: u64,
    pub first: i64,
    pub last: i64,
    pub days: Vec<PageDay>,
}

/// Whether a day is this date's, with an object.
pub open spec fn is_stored_day(date: Seq<char>) -> spec_fn(PageDay) -> bool {
    |day: PageDay| day.object is Some && day.date@ == date
}

/// Whether newer days retain an older one: the stored day of its date is the same object, or holds
/// each of its pages.
pub open spec fn keeps_day(old: PageDay, new: Seq<PageDay>) -> bool {
    old.object is None || match first_where(new, is_stored_day(old.date@)) {
        None => false,
        Some(at) => text_of(new[at].object) == text_of(old.object) || forall|i: int|
            0 <= i < old.pages@.len() ==> is_retained(#[trigger] old.pages@[i], new[at].pages@),
    }
}

fn keeps(old: &PageDay, new: &Vec<PageDay>) -> (kept: bool)
    ensures
        kept == keeps_day(*old, new@),
{
    if old.object.is_none() {
        return true;
    }
    let ghost wanted = is_stored_day(old.date@);
    let mut i: usize = 0;
    while i < new.len()
        invariant
            i <= new@.len(),
            old.object is Some,
            wanted == is_stored_day(old.date@),
            forall|j: int| 0 <= j < i ==> !wanted(#[trigger] new@[j]),
        decreases new@.len() - i,
    {
        if new[i].object.is_some() && same_text(new[i].date.as_str(), old.date.as_str()) {
            proof {
                first_where_found(new@, wanted, i as int);
            }
            return same_optional(&new[i].object, &old.object) || retains(
                &old.pages,
                &new[i].pages,
            );
        }
        i = i + 1;
    }
    proof {
        first_where_absent(new@, wanted);
    }
    false
}

/// Whether a snapshot supersedes an older one.
pub open spec fn supersedes(new: Snapshot, old: Snapshot) -> bool {
    &&& new.intent is Some
    &&& text_of(old.intent) == text_of(new.intent)
    &&& old.rows <= new.rows
    &&& old.first >= new.first
    &&& old.last <= new.last
    &&& forall|i: int| 0 <= i < old.days@.len() ==> keeps_day(#[trigger] old.days@[i], new.days@)
}

fn replaces_snapshot(new: &Snapshot, old: &Snapshot) -> (replaced: bool)
    ensures
        replaced == supersedes(*new, *old),
{
    let intent: &str = match &new.intent {
        Some(intent) => intent.as_str(),
        None => {
            return false;
        },
    };
    let other: Option<&str> = match &old.intent {
        Some(other) => Some(other.as_str()),
        None => None,
    };
    if !covers_snapshot(
        intent,
        other,
        new.rows,
        old.rows,
        new.first,
        old.first,
        new.last,
        old.last,
    ) {
        return false;
    }
    let mut i: usize = 0;
    while i < old.days.len()
        invariant
            i <= old.days@.len(),
            forall|j: int| 0 <= j < i ==> keeps_day(#[trigger] old.days@[j], new.days@),
        decreases old.days@.len() - i,
    {
        if !keeps(&old.days[i], &new.days) {
            assert(!keeps_day(old.days@[i as int], new.days@));
            return false;
        }
        i = i + 1;
    }
    true
}

/// The snapshots that one supersedes, by their indices among the first `count`.
pub open spec fn superseded_among(new: Snapshot, list: Seq<Snapshot>, count: nat) -> Seq<int>
    decreases count,
{
    if count == 0 {
        Seq::empty()
    } else {
        let before = superseded_among(new, list, (count - 1) as nat);
        if supersedes(new, list[count - 1]) {
            before.push(count - 1)
        } else {
            before
        }
    }
}

/// The snapshots that a new one supersedes.
pub fn superseded_snapshots(new: &Snapshot, list: &Vec<Snapshot>) -> (superseded: Vec<usize>)
    ensures
        as_ints(superseded@) == superseded_among(*new, list@, list@.len()),
{
    let mut superseded: Vec<usize> = Vec::new();
    let mut i: usize = 0;
    assert(as_ints(superseded@) =~= superseded_among(*new, list@, 0));
    while i < list.len()
        invariant
            i <= list@.len(),
            as_ints(superseded@) == superseded_among(*new, list@, i as nat),
        decreases list@.len() - i,
    {
        let ghost before = as_ints(superseded@);
        if replaces_snapshot(new, &list[i]) {
            superseded.push(i);
            assert(as_ints(superseded@) =~= before.push(i as int));
        }
        i = i + 1;
    }
    superseded
}

/// Whether stored days of one key hold the same pages: objects are named by their contents.
pub open spec fn keys_name_contents(old: Seq<PageDay>, new: Seq<PageDay>) -> bool {
    forall|i: int, j: int, k: int|
        #![trigger old[i].pages@[k], new[j]]
        0 <= i < old.len() && 0 <= j < new.len() && old[i].object is Some && text_of(old[i].object)
            == text_of(new[j].object) && 0 <= k < old[i].pages@.len() ==> is_retained(
            old[i].pages@[k],
            new[j].pages@,
        )
}

/// Superseding loses nothing: every response that a superseded snapshot stores is retained, on
/// its day, by the one that supersedes it.
pub proof fn a_superseded_snapshot_is_retained(new: Snapshot, old: Snapshot, day: int, page: int)
    requires
        supersedes(new, old),
        keys_name_contents(old.days@, new.days@),
        0 <= day < old.days@.len(),
        old.days@[day].object is Some,
        0 <= page < old.days@[day].pages@.len(),
    ensures
        exists|j: int|
            #![trigger new.days@[j]]
            0 <= j < new.days@.len() && new.days@[j].date@ == old.days@[day].date@ && is_retained(
                old.days@[day].pages@[page],
                new.days@[j].pages@,
            ),
{
    let wanted = is_stored_day(old.days@[day].date@);
    assert(keeps_day(old.days@[day], new.days@));
    first_where_meets(new.days@, wanted);
    let at = first_where(new.days@, wanted)->0;
    assert(wanted(new.days@[at]));
    assert(is_retained(old.days@[day].pages@[page], new.days@[at].pages@));
}

/// What an interrupted append left at the end of a journal: how many bytes are complete, the file
/// under which the fragment is kept, and why it is.
#[derive(Debug)]
pub struct Interruption {
    pub complete: usize,
    pub name: String,
    pub reason: String,
}

/// Finds an interrupted append in the journal of received responses. A fragment is kept by the
/// digest of its bytes, and the journal ends again at its last complete line.
pub fn interruption(journal: &[u8]) -> (found: Option<Interruption>)
    ensures
        found is None == (complete_prefix(journal@) == journal@.len()),
        found matches Some(found) ==> {
            &&& found.complete == complete_prefix(journal@)
            &&& found.name@ == "unresolved-received-"@ + hex(
                sha256(journal@.skip(found.complete as int)),
            ) + ".json"@
            &&& found.reason@ == "interrupted response journal append"@
        },
{
    let complete: usize = complete_length(journal);
    if complete == journal.len() {
        return None;
    }
    let mut fragment: Vec<u8> = Vec::new();
    let mut i: usize = complete;
    while i < journal.len()
        invariant
            complete <= i <= journal@.len(),
            fragment@ == journal@.subrange(complete as int, i as int),
        decreases journal@.len() - i,
    {
        fragment.push(journal[i]);
        assert(fragment@ =~= journal@.subrange(complete as int, i + 1));
        i = i + 1;
    }
    assert(fragment@ =~= journal@.skip(complete as int));
    let name = join3("unresolved-received-", digest(fragment.as_slice()).as_str(), ".json");
    let reason = "interrupted response journal append".to_owned();
    Some(Interruption { complete, name, reason })
}

} // verus!
