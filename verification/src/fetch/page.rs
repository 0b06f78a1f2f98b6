//! Assembling received pages: the boundary overlap between two pages, and the comparison of
//! re-received rows with retained ones.

use crate::market::{all_representable, earlier_of, later_of, Row};
use vstd::prelude::*;
use vstd::std_specs::cmp::PartialEqSpec;
use vstd::string::*;

verus! {

/// Whether the last `count` rows of `older` equal the first `count` rows of `newer`.
pub open spec fn meets<R: PartialEq>(older: Seq<R>, newer: Seq<R>, count: int) -> bool {
    &&& 0 <= count <= older.len()
    &&& count <= newer.len()
    &&& forall|i: int|
        0 <= i < count ==> older[older.len() - count + i].eq_spec(&#[trigger] newer[i])
}

/// The largest overlap of at most `limit` rows.
pub open spec fn overlap_within<R: PartialEq>(older: Seq<R>, newer: Seq<R>, limit: int) -> int
    decreases limit,
{
    if limit <= 0 {
        0
    } else if meets(older, newer, limit) {
        limit
    } else {
        overlap_within(older, newer, limit - 1)
    }
}

/// The largest overlap of the end of `older` with the start of `newer`.
pub open spec fn overlap<R: PartialEq>(older: Seq<R>, newer: Seq<R>) -> int {
    overlap_within(older, newer, earlier_of(older.len() as int, newer.len() as int))
}

/// Two pages joined at their largest overlap.
pub open spec fn joined<R: PartialEq>(older: Seq<R>, newer: Seq<R>) -> Seq<R> {
    older.subrange(0, older.len() - overlap(older, newer)) + newer
}

proof fn overlap_within_bounds<R: PartialEq>(older: Seq<R>, newer: Seq<R>, limit: int)
    requires
        limit <= older.len(),
        limit <= newer.len(),
    ensures
        0 <= overlap_within(older, newer, limit),
        limit >= 0 ==> overlap_within(older, newer, limit) <= limit,
        meets(older, newer, overlap_within(older, newer, limit)),
        forall|count: int|
            overlap_within(older, newer, limit) < count <= limit ==> !meets(older, newer, count),
    decreases limit,
{
    if limit > 0 && !meets(older, newer, limit) {
        overlap_within_bounds(older, newer, limit - 1);
    }
}

/// The overlap removed between two pages is proven by their rows and is the largest such: every
/// larger number of rows disagrees somewhere.
pub proof fn overlap_is_the_largest<R: PartialEq>(older: Seq<R>, newer: Seq<R>)
    ensures
        0 <= overlap(older, newer) <= older.len(),
        overlap(older, newer) <= newer.len(),
        meets(older, newer, overlap(older, newer)),
        forall|count: int| meets(older, newer, count) ==> count <= overlap(older, newer),
{
    let limit = earlier_of(older.len() as int, newer.len() as int);
    overlap_within_bounds(older, newer, limit);
}

fn pages_meet<R: PartialEq>(older: &Vec<R>, newer: &Vec<R>, count: usize) -> (met: bool)
    requires
        R::obeys_eq_spec(),
        count <= older@.len(),
        count <= newer@.len(),
    ensures
        met == meets(older@, newer@, count as int),
{
    let base: usize = older.len() - count;
    let mut i: usize = 0;
    while i < count
        invariant
            R::obeys_eq_spec(),
            i <= count,
            count <= older@.len(),
            count <= newer@.len(),
            base == older@.len() - count,
            base + count <= usize::MAX,
            forall|j: int| 0 <= j < i ==> older@[base + j].eq_spec(&#[trigger] newer@[j]),
        decreases count - i,
    {
        if !(older[base + i] == newer[i]) {
            assert(!older@[older@.len() - count + i].eq_spec(&newer@[i as int]));
            return false;
        }
        i = i + 1;
    }
    true
}

/// Removes only a proven page-boundary overlap; within-page repeated observations stay intact.
pub fn prepend_page<R: PartialEq>(older: Vec<R>, newer: Vec<R>) -> (rows: Vec<R>)
    requires
        R::obeys_eq_spec(),
    ensures
        rows@ == joined(older@, newer@),
{
    let mut older = older;
    let mut newer = newer;
    let mut count: usize = if older.len() <= newer.len() {
        older.len()
    } else {
        newer.len()
    };
    let ghost limit = count as int;
    while count > 0 && !pages_meet(&older, &newer, count)
        invariant
            R::obeys_eq_spec(),
            count <= older@.len(),
            count <= newer@.len(),
            overlap_within(older@, newer@, limit) == overlap_within(older@, newer@, count as int),
        decreases count,
    {
        count = count - 1;
    }
    let keep: usize = older.len() - count;
    older.truncate(keep);
    older.append(&mut newer);
    older
}

/// Nothing received is lost when two pages are joined: the newer page stands whole at the end,
/// and the older page, read up to equality of rows, stands whole at the start.
pub proof fn joined_keeps_both_pages<R: Row>(older: Seq<R>, newer: Seq<R>)
    ensures
        joined(older, newer).len() == older.len() + newer.len() - overlap(older, newer),
        joined(older, newer).len() >= older.len(),
        joined(older, newer).len() >= newer.len(),
        joined(older, newer).subrange(
            joined(older, newer).len() - newer.len(),
            joined(older, newer).len() as int,
        ) == newer,
        joined(older, newer).subrange(0, older.len() as int) == older,
{
    R::equality_is_identity();
    overlap_is_the_largest(older, newer);
    let count = overlap(older, newer);
    let rows = joined(older, newer);
    assert(rows.len() == older.len() - count + newer.len());
    assert(rows.subrange(rows.len() - newer.len(), rows.len() as int) =~= newer);
    assert forall|i: int| 0 <= i < older.len() implies rows[i] == older[i] by {
        if i >= older.len() - count {
            let j = i - (older.len() - count);
            assert(older[older.len() - count + j].eq_spec(&newer[j]));
        }
    }
    assert(rows.subrange(0, older.len() as int) =~= older);
}

/// Joining a page with nothing changes nothing.
pub proof fn joined_with_nothing<R: PartialEq>(rows: Seq<R>)
    ensures
        joined(rows, Seq::empty()) == rows,
        joined(Seq::empty(), rows) == rows,
{
    overlap_is_the_largest(rows, Seq::empty());
    overlap_is_the_largest(Seq::empty(), rows);
    assert(joined(rows, Seq::empty()) =~= rows);
    assert(joined(Seq::empty(), rows) =~= rows);
}

/// The span on which a reread is compared with the retained rows: from the later first row, not
/// before `floor`, to the earlier last row.
pub open spec fn compared<R: Row>(previous: Seq<R>, received: Seq<R>, floor: int) -> spec_fn(R) -> bool {
    let start = later_of(later_of(received[0].moment(), previous[0].moment()), floor);
    let end = earlier_of(received.last().moment(), previous.last().moment());
    |row: R| start <= row.moment() <= end
}

/// Whether re-received rows equal the retained rows wherever both are verified.
pub open spec fn consistent<R: Row>(previous: Seq<R>, received: Seq<R>, floor: int) -> bool {
    previous.len() > 0 && received.len() > 0 ==> received.filter(
        compared(previous, received, floor),
    ) == previous.filter(compared(previous, received, floor))
}

fn within<R: Row>(rows: &Vec<R>, start: i64, end: i64) -> (kept: Vec<R>)
    requires
        all_representable(rows@),
    ensures
        kept@ == rows@.filter(|row: R| start <= row.moment() <= end),
{
    let ghost chosen = |row: R| start <= row.moment() <= end;
    let mut kept: Vec<R> = Vec::new();
    let mut i: usize = 0;
    assert(rows@.take(0).filter(chosen) =~= Seq::empty()) by {
        reveal(Seq::filter);
    }
    while i < rows.len()
        invariant
            i <= rows@.len(),
            all_representable(rows@),
            chosen == (|row: R| start <= row.moment() <= end),
            kept@ == rows@.take(i as int).filter(chosen),
        decreases rows@.len() - i,
    {
        let row = rows[i];
        assert(rows@.take(i + 1) =~= rows@.take(i as int).push(row));
        proof {
            rows@.take(i as int).lemma_filter_push(row, chosen);
        }
        if start <= row.time() && row.time() <= end {
            kept.push(row);
        }
        i = i + 1;
    }
    assert(rows@.take(i as int) =~= rows@);
    kept
}

fn same_rows<R: Row>(left: &Vec<R>, right: &Vec<R>) -> (same: bool)
    ensures
        same == (left@ == right@),
{
    proof {
        R::equality_is_identity();
    }
    if left.len() != right.len() {
        return false;
    }
    let mut i: usize = 0;
    while i < left.len()
        invariant
            i <= left@.len(),
            left@.len() == right@.len(),
            R::obeys_eq_spec(),
            forall|a: R, b: R| #[trigger] a.eq_spec(&b) == (a == b),
            forall|j: int| 0 <= j < i ==> left@[j] == right@[j],
        decreases left@.len() - i,
    {
        if !(left[i] == right[i]) {
            return false;
        }
        i = i + 1;
    }
    assert(left@ =~= right@);
    true
}

/// The message of a reread that contradicts retained observations.
pub open spec fn reread_message(instrument: Seq<char>) -> Seq<char> {
    "fetch "@ + instrument + ": conflicting or inconsistent reread of verified observations"@
}

/// Re-received rows must equal the retained rows wherever both are verified: from `floor`,
/// the start of the baseline's verified coverage or the seed's requested overlap, so a seed's
/// own unknown gaps are never mistaken for provider conflicts.
pub fn check_verified_overlap<R: Row>(
    instrument: &str,
    previous: &Vec<R>,
    received: &Vec<R>,
    floor: i64,
) -> (checked: Result<(), String>)
    requires
        all_representable(previous@),
        all_representable(received@),
    ensures
        crate::text::refusal(checked) == (if consistent(previous@, received@, floor as int) {
            None
        } else {
            Some(reread_message(instrument@))
        }),
{
    if previous.len() == 0 || received.len() == 0 {
        return Ok(());
    }
    let start: i64 = crate::market::later(
        crate::market::later(received[0].time(), previous[0].time()),
        floor,
    );
    let end: i64 = crate::market::earlier(
        received[received.len() - 1].time(),
        previous[previous.len() - 1].time(),
    );
    let seen = within(received, start, end);
    let kept = within(previous, start, end);
    assert(compared(previous@, received@, floor as int) =~= (|row: R| start <= row.moment() <= end));
    if same_rows(&seen, &kept) {
        Ok(())
    } else {
        let mut message = String::from_str("fetch ");
        message.append(instrument);
        message.append(": conflicting or inconsistent reread of verified observations");
        Err(message)
    }
}

} // verus!
