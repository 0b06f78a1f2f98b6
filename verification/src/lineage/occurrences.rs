//! Occurrences of pages: every response under the acquisition and the number that asked for it.

use crate::digest::{digest, hex, sha256};
use crate::fetch::coverage::{OccurrenceIdentity, PageCoverage};
use crate::lineage::json::{
    find_member, find_text, json_of, member, member_text, parse, view_of, Json,
};
use crate::search::{first_where, first_where_absent, first_where_found};
use crate::text::{precedes, refusal, same_text, text_before, text_of, text_order};
use vstd::prelude::*;
use vstd::string::*;

verus! {

/// What is kept in the order of acquisitions and numbers.
pub trait Occurring: Sized {
    /// The acquisition.
    spec fn acquisition(&self) -> Seq<char>;

    /// The number of the request.
    spec fn number(&self) -> u64;

    /// The acquisition.
    fn acquisition_text(&self) -> (text: &str)
        ensures
            text@ == self.acquisition(),
    ;

    /// The number of the request.
    fn request_number(&self) -> (number: u64)
        ensures
            number == self.number(),
    ;
}

/// One response: its acquisition and number, the digest of its payload, and all that is recorded
/// of it in canonical text.
#[derive(Debug)]
pub struct Occurrence {
    pub acquisition_id: String,
    pub ordinal: u64,
    pub payload_sha256: String,
    pub contents: String,
}

impl Occurring for Occurrence {
    open spec fn acquisition(&self) -> Seq<char> {
        self.acquisition_id@
    }

    open spec fn number(&self) -> u64 {
        self.ordinal
    }

    fn acquisition_text(&self) -> (text: &str) {
        self.acquisition_id.as_str()
    }

    fn request_number(&self) -> (number: u64) {
        self.ordinal
    }
}

/// A response that was received: its identity, and the page that it was.
#[derive(Debug)]
pub struct Received {
    pub identity: OccurrenceIdentity,
    pub page: PageCoverage,
}

impl Occurring for Received {
    open spec fn acquisition(&self) -> Seq<char> {
        self.identity.acquisition_id@
    }

    open spec fn number(&self) -> u64 {
        self.identity.ordinal
    }

    fn acquisition_text(&self) -> (text: &str) {
        self.identity.acquisition_id.as_str()
    }

    fn request_number(&self) -> (number: u64) {
        self.identity.ordinal
    }
}

/// Whether two are the same occurrence.
pub open spec fn same_occurrence<T: Occurring>(a: T, b: T) -> bool {
    a.acquisition() == b.acquisition() && a.number() == b.number()
}

/// The order of occurrences: by acquisition, then by number.
pub open spec fn occurs_before<T: Occurring>(a: T, b: T) -> bool {
    text_before(a.acquisition(), b.acquisition()) || (a.acquisition() == b.acquisition()
        && a.number() < b.number())
}

/// Whether occurrences come in strict order.
pub open spec fn in_sequence<T: Occurring>(list: Seq<T>) -> bool {
    forall|i: int, j: int|
        #![trigger list[i], list[j]]
        0 <= i < j < list.len() ==> occurs_before(list[i], list[j])
}

proof fn occurrence_order<T: Occurring>(a: T, b: T, c: T)
    ensures
        !occurs_before(a, a),
        occurs_before(a, b) && occurs_before(b, c) ==> occurs_before(a, c),
        occurs_before(a, b) || occurs_before(b, a) || same_occurrence(a, b),
        !(occurs_before(a, b) && same_occurrence(a, b)),
        !(occurs_before(a, b) && occurs_before(b, a)),
{
    text_order(a.acquisition(), b.acquisition(), c.acquisition());
    text_order(b.acquisition(), a.acquisition(), b.acquisition());
    text_order(a.acquisition(), b.acquisition(), a.acquisition());
    text_order(a.acquisition(), a.acquisition(), a.acquisition());
}

fn comes_before<T: Occurring>(a: &T, b: &T) -> (before: bool)
    ensures
        before == occurs_before(*a, *b),
{
    if precedes(a.acquisition_text(), b.acquisition_text()) {
        return true;
    }
    same_text(a.acquisition_text(), b.acquisition_text()) && a.request_number()
        < b.request_number()
}

/// Puts an occurrence where it belongs; one that is there already is replaced.
pub fn place<T: Occurring>(list: &mut Vec<T>, item: T)
    requires
        in_sequence(old(list)@),
    ensures
        in_sequence(final(list)@),
        forall|other: T| #[trigger]
            final(list)@.contains(other) == (other == item || (old(list)@.contains(other)
                && !same_occurrence(other, item))),
{
    let ghost all = list@;
    let mut at: usize = 0;
    while at < list.len() && comes_before(&list[at], &item)
        invariant
            at <= list@.len(),
            list@ == all,
            forall|j: int| 0 <= j < at ==> occurs_before(#[trigger] all[j], item),
        decreases list@.len() - at,
    {
        at = at + 1;
    }
    let replaces: bool = at < list.len() && !comes_before(&item, &list[at]);
    let ghost k = at as int;
    if replaces {
        proof {
            occurrence_order(all[k], item, item);
        }
        let _ = list.remove(at);
    }
    let ghost kept = list@;
    list.insert(at, item);
    proof {
        assert forall|j: int| 0 <= j < kept.len() implies #[trigger] kept[j] == (if j < k {
            all[j]
        } else if replaces {
            all[j + 1]
        } else {
            all[j]
        }) by {}
        assert forall|j: int| k <= j < kept.len() implies occurs_before(
            item,
            #[trigger] kept[j],
        ) by {
            if replaces {
                assert(occurs_before(all[k], all[j + 1]));
                occurrence_order(all[k], item, all[j + 1]);
                occurrence_order(item, all[j + 1], all[k]);
                occurrence_order(all[j + 1], item, all[k]);
                same_place(all[k], item, all[j + 1]);
            } else {
                occurrence_order(item, all[k], all[j]);
                if j > k {
                    assert(occurs_before(all[k], all[j]));
                }
            }
        }
        assert(list@ =~= kept.insert(k, item));
        assert(in_sequence(kept)) by {
            assert forall|i: int, j: int|
                #![trigger kept[i], kept[j]]
                0 <= i < j < kept.len() implies occurs_before(kept[i], kept[j]) by {
                let a = if i < k || !replaces {
                    i
                } else {
                    i + 1
                };
                let b = if j < k || !replaces {
                    j
                } else {
                    j + 1
                };
                assert(kept[i] == all[a] && kept[j] == all[b]);
                assert(occurs_before(all[a], all[b]));
            }
        }
        assert forall|i: int, j: int|
            #![trigger list@[i], list@[j]]
            0 <= i < j < list@.len() implies occurs_before(list@[i], list@[j]) by {
            if i < k && j < k {
                assert(occurs_before(kept[i], kept[j]));
            } else if i < k && j == k {
                assert(occurs_before(all[i], item));
            } else if i < k {
                assert(occurs_before(kept[i], kept[j - 1]));
            } else if i == k {
                assert(occurs_before(item, kept[j - 1]));
            } else {
                assert(occurs_before(kept[i - 1], kept[j - 1]));
            }
        }
        assert forall|other: T| #[trigger]
            list@.contains(other) == (other == item || (all.contains(other) && !same_occurrence(
                other,
                item,
            ))) by {
            if list@.contains(other) && other != item {
                let i = choose|i: int| 0 <= i < list@.len() && list@[i] == other;
                let j = if i < k {
                    i
                } else {
                    i - 1
                };
                assert(kept[j] == other);
                assert(all.contains(other)) by {
                    if j < k || !replaces {
                        assert(all[j] == other);
                    } else {
                        assert(all[j + 1] == other);
                    }
                }
                if j < k {
                    assert(occurs_before(all[j], item));
                    occurrence_order(all[j], item, item);
                } else {
                    assert(occurs_before(item, kept[j]));
                    occurrence_order(item, kept[j], item);
                }
            }
            if all.contains(other) && !same_occurrence(other, item) {
                let i = choose|i: int| 0 <= i < all.len() && all[i] == other;
                if i < k {
                    assert(list@[i] == other);
                } else if !replaces {
                    assert(list@[i + 1] == other);
                } else if i > k {
                    assert(kept[i - 1] == other);
                    assert(list@[i] == other);
                }
            }
            assert(list@[k] == item);
        }
    }
}

proof fn same_place<T: Occurring>(a: T, b: T, c: T)
    requires
        !occurs_before(a, b),
        !occurs_before(b, a),
        occurs_before(a, c),
    ensures
        same_occurrence(a, b),
        occurs_before(b, c),
{
    occurrence_order(a, b, c);
}

/// Whether an occurrence is this request's.
pub open spec fn is_request(acquisition: Seq<char>, number: u64) -> spec_fn(Occurrence) -> bool {
    |page: Occurrence| page.acquisition_id@ == acquisition && page.ordinal == number
}

/// Whether occurrences come in order; those of one request may stand side by side.
pub open spec fn in_order(list: Seq<Occurrence>) -> bool {
    forall|i: int, j: int|
        #![trigger list[i], list[j]]
        0 <= i < j < list.len() ==> !occurs_before(list[j], list[i])
}

proof fn none_of_request(list: Seq<Occurrence>, wanted: spec_fn(Occurrence) -> bool)
    requires
        forall|i: int| 0 <= i < list.len() ==> !wanted(#[trigger] list[i]),
    ensures
        list.filter(wanted) == Seq::<Occurrence>::empty(),
    decreases list.len(),
{
    reveal(Seq::filter);
    if list.len() > 0 {
        none_of_request(list.drop_last(), wanted);
    }
}

proof fn request_of_placed(
    list: Seq<Occurrence>,
    at: int,
    page: Occurrence,
    acquisition: Seq<char>,
    number: u64,
)
    requires
        0 <= at <= list.len(),
        forall|i: int| at <= i < list.len() ==> occurs_before(page, #[trigger] list[i]),
    ensures
        list.insert(at, page).filter(is_request(acquisition, number)) == list.push(page).filter(
            is_request(acquisition, number),
        ),
{
    let wanted = is_request(acquisition, number);
    let head = list.take(at);
    let tail = list.skip(at);
    let one = seq![page];
    assert(list.insert(at, page) =~= head + one + tail);
    assert(list.push(page) =~= head + tail + one);
    Seq::filter_distributes_over_add(head + one, tail, wanted);
    Seq::filter_distributes_over_add(head, one, wanted);
    Seq::filter_distributes_over_add(head + tail, one, wanted);
    Seq::filter_distributes_over_add(head, tail, wanted);
    if wanted(page) {
        assert forall|i: int| 0 <= i < tail.len() implies !wanted(#[trigger] tail[i]) by {
            occurrence_order(page, list[at + i], page);
        }
        none_of_request(tail, wanted);
    } else {
        none_of_request(one, wanted);
    }
    assert(head.filter(wanted) + one.filter(wanted) + tail.filter(wanted) =~= head.filter(wanted)
        + tail.filter(wanted) + one.filter(wanted));
}

proof fn not_earlier(a: Occurrence, b: Occurrence, c: Occurrence)
    requires
        !occurs_before(a, b),
        !occurs_before(b, c),
    ensures
        !occurs_before(a, c),
{
    text_order(a.acquisition(), c.acquisition(), b.acquisition());
    text_order(a.acquisition(), b.acquisition(), c.acquisition());
    text_order(b.acquisition(), a.acquisition(), c.acquisition());
    text_order(c.acquisition(), b.acquisition(), a.acquisition());
}

/// Puts occurrences in the order of their requests; those of one request stay as they stood.
pub fn in_order_of_requests(pages: Vec<Occurrence>) -> (sorted: Vec<Occurrence>)
    ensures
        in_order(sorted@),
        sorted@.len() == pages@.len(),
        forall|acquisition: Seq<char>, number: u64|
            sorted@.filter(#[trigger] is_request(acquisition, number)) == pages@.filter(
                is_request(acquisition, number),
            ),
{
    let ghost all = pages@;
    let mut rest = pages;
    let mut sorted: Vec<Occurrence> = Vec::new();
    assert(all.take(0) =~= Seq::empty());
    let ghost mut done: nat = 0;
    assert(all.skip(0) =~= all);
    while rest.len() > 0
        invariant
            done <= all.len(),
            all == pages@,
            rest@ == all.skip(done as int),
            in_order(sorted@),
            sorted@.len() == done,
            forall|acquisition: Seq<char>, number: u64|
                sorted@.filter(#[trigger] is_request(acquisition, number)) == all.take(
                    done as int,
                ).filter(is_request(acquisition, number)),
        decreases rest@.len(),
    {
        let ghost before = sorted@;
        let next = rest.remove(0);
        let ghost item = next;
        assert(next == all[done as int]);
        assert(rest@ =~= all.skip(done + 1int));
        let mut at: usize = sorted.len();
        while at > 0 && comes_before(&next, &sorted[at - 1])
            invariant
                at <= sorted@.len(),
                sorted@ == before,
                forall|i: int|
                    at <= i < sorted@.len() ==> occurs_before(next, #[trigger] sorted@[i]),
            decreases at,
        {
            at = at - 1;
        }
        sorted.insert(at, next);
        proof {
            assert(at == 0 || !occurs_before(item, before[at - 1]));
            assert forall|i: int, j: int|
                #![trigger sorted@[i], sorted@[j]]
                0 <= i < j < sorted@.len() implies !occurs_before(sorted@[j], sorted@[i]) by {
                if j == at {
                    assert(sorted@[i] == before[i]);
                    if occurs_before(item, before[i]) && i < at - 1 {
                        assert(!occurs_before(before[at - 1], before[i]));
                        not_earlier(item, before[at - 1], before[i]);
                    }
                } else if i == at {
                    assert(sorted@[j] == before[j - 1]);
                    occurrence_order(item, before[j - 1], item);
                } else {
                    let a = if i < at {
                        i
                    } else {
                        i - 1
                    };
                    let b = if j < at {
                        j
                    } else {
                        j - 1
                    };
                    assert(!occurs_before(before[b], before[a]));
                }
            }
            assert forall|acquisition: Seq<char>, number: u64|
                sorted@.filter(#[trigger] is_request(acquisition, number)) == all.take(
                    done + 1int,
                ).filter(is_request(acquisition, number)) by {
                request_of_placed(before, at as int, item, acquisition, number);
                assert(all.take(done + 1int) =~= all.take(done as int).push(item));
                reveal(Seq::filter);
                assert(before.push(item).drop_last() =~= before);
                assert(all.take(done as int).push(item).drop_last() =~= all.take(done as int));
            }
            done = done + 1;
        }
    }
    assert(all.take(done as int) =~= all);
    sorted
}

/// Where an occurrence stands in a list.
pub open spec fn occurrence_at(list: Seq<Occurrence>, page: Occurrence) -> Option<int> {
    first_where(list, |other: Occurrence| same_occurrence(other, page))
}

/// The occurrences of a day: the new ones, and the first `count` existing ones that are not
/// among them. An occurrence never changes.
pub open spec fn joined_pages(new: Seq<Occurrence>, existing: Seq<Occurrence>, count: nat) -> Result<
    Seq<Occurrence>,
    Seq<char>,
>
    decreases count,
{
    if count == 0 {
        Ok(new)
    } else {
        match joined_pages(new, existing, (count - 1) as nat) {
            Err(message) => Err(message),
            Ok(before) => {
                let page = existing[count - 1];
                match occurrence_at(before, page) {
                    Some(at) => if before[at].contents@ == page.contents@ {
                        Ok(before)
                    } else {
                        Err("page occurrence identity collision"@)
                    },
                    None => Ok(before.push(page)),
                }
            },
        }
    }
}

proof fn collision_stands(
    new: Seq<Occurrence>,
    existing: Seq<Occurrence>,
    count: nat,
    total: nat,
)
    requires
        count <= total,
        joined_pages(new, existing, count) is Err,
    ensures
        joined_pages(new, existing, total) == joined_pages(new, existing, count),
    decreases total,
{
    if count < total {
        collision_stands(new, existing, count, (total - 1) as nat);
    }
}

/// Joins the occurrences of a day.
pub fn join_pages(new: Vec<Occurrence>, existing: Vec<Occurrence>) -> (joined: Result<
    Vec<Occurrence>,
    String,
>)
    ensures
        match joined_pages(new@, existing@, existing@.len()) {
            Ok(pages) => joined matches Ok(found) && found@ == pages,
            Err(message) => refusal(joined) == Some(message),
        },
{
    let ghost start = new@;
    let ghost all = existing@;
    let mut pages = new;
    let mut rest = existing;
    let ghost mut done: nat = 0;
    assert(all.skip(0) =~= all);
    while rest.len() > 0
        invariant
            done <= all.len(),
            start == new@,
            all == existing@,
            rest@ == all.skip(done as int),
            joined_pages(start, all, done) == Ok::<Seq<Occurrence>, Seq<char>>(pages@),
        decreases rest@.len(),
    {
        let page = rest.remove(0);
        assert(page == all[done as int]);
        assert(rest@ =~= all.skip(done + 1int));
        let ghost wanted = |other: Occurrence| same_occurrence(other, page);
        let mut found: Option<usize> = None;
        let mut i: usize = 0;
        while i < pages.len() && found.is_none()
            invariant
                i <= pages@.len(),
                wanted == (|other: Occurrence| same_occurrence(other, page)),
                found is None ==> forall|j: int| 0 <= j < i ==> !wanted(#[trigger] pages@[j]),
                found matches Some(at) ==> at < pages@.len() && first_where(pages@, wanted)
                    == Some(at as int),
            decreases pages@.len() - i,
        {
            if pages[i].ordinal == page.ordinal && same_text(
                pages[i].acquisition_id.as_str(),
                page.acquisition_id.as_str(),
            ) {
                proof {
                    first_where_found(pages@, wanted, i as int);
                }
                found = Some(i);
            }
            i = i + 1;
        }
        proof {
            if found is None {
                first_where_absent(pages@, wanted);
            }
        }
        match found {
            Some(at) => {
                if !same_text(pages[at].contents.as_str(), page.contents.as_str()) {
                    proof {
                        collision_stands(start, all, done + 1, all.len());
                    }
                    return Err("page occurrence identity collision".to_owned());
                }
            },
            None => {
                pages.push(page);
            },
        }
        proof {
            done = done + 1;
        }
    }
    Ok(pages)
}

/// Whether a page is retained: the same occurrence with the same payload.
pub open spec fn is_retained(old: Occurrence, new: Seq<Occurrence>) -> bool {
    exists|i: int|
        0 <= i < new.len() && same_occurrence(#[trigger] new[i], old) && new[i].payload_sha256@
            == old.payload_sha256@
}

/// Whether all pages of an older snapshot are retained.
pub fn retains(old: &Vec<Occurrence>, new: &Vec<Occurrence>) -> (all: bool)
    ensures
        all == (forall|i: int| 0 <= i < old@.len() ==> is_retained(#[trigger] old@[i], new@)),
{
    let mut i: usize = 0;
    while i < old.len()
        invariant
            i <= old@.len(),
            forall|j: int| 0 <= j < i ==> is_retained(#[trigger] old@[j], new@),
        decreases old@.len() - i,
    {
        let page = &old[i];
        let mut found: bool = false;
        let mut k: usize = 0;
        while k < new.len() && !found
            invariant
                k <= new@.len(),
                found ==> is_retained(*page, new@),
                !found ==> forall|j: int|
                    0 <= j < k ==> !(same_occurrence(#[trigger] new@[j], *page)
                        && new@[j].payload_sha256@ == page.payload_sha256@),
            decreases new@.len() - k,
        {
            if new[k].ordinal == page.ordinal && same_text(
                new[k].acquisition_id.as_str(),
                page.acquisition_id.as_str(),
            ) && same_text(new[k].payload_sha256.as_str(), page.payload_sha256.as_str()) {
                found = true;
                assert(same_occurrence(new@[k as int], *page));
            }
            k = k + 1;
        }
        if !found {
            assert(!is_retained(old@[i as int], new@));
            return false;
        }
        i = i + 1;
    }
    true
}

/// Whether a resumed acquisition may supersede a snapshot: it has the same intent and covers no
/// less. Times are compared as the manifests give them.
pub fn covers_snapshot(
    intent: &str,
    snapshot_intent: Option<&str>,
    rows: u64,
    snapshot_rows: u64,
    first: i64,
    snapshot_first: i64,
    last: i64,
    snapshot_last: i64,
) -> (covers: bool)
    ensures
        covers == (crate::live::control::seen(snapshot_intent) == Some(intent@) && snapshot_rows
            <= rows && snapshot_first >= first && snapshot_last <= last),
{
    let same_intent: bool = match snapshot_intent {
        Some(other) => same_text(other, intent),
        None => false,
    };
    same_intent && snapshot_rows <= rows && snapshot_first >= first && snapshot_last <= last
}

/// How many of the first `count` texts are this one.
pub open spec fn count_same(list: Seq<String>, text: Seq<char>, count: nat) -> nat
    decreases count,
{
    if count == 0 {
        0
    } else {
        count_same(list, text, (count - 1) as nat) + (if list[count - 1]@ == text {
            1nat
        } else {
            0nat
        })
    }
}

/// Whether checkpoints are paired with lines: the n-th line with a payload goes with the n-th
/// checkpoint of that payload, where there is one.
pub open spec fn is_pair(
    lines: Seq<String>,
    checkpoints: Seq<String>,
    i: int,
    pair: Option<usize>,
) -> bool {
    let rank = count_same(lines, lines[i]@, i as nat);
    match pair {
        Some(c) => {
            &&& c < checkpoints.len()
            &&& checkpoints[c as int]@ == lines[i]@
            &&& count_same(checkpoints, lines[i]@, c as nat) == rank
        },
        None => count_same(checkpoints, lines[i]@, checkpoints.len()) <= rank,
    }
}

/// Whether a checkpoint goes with no line.
pub open spec fn is_unpaired(lines: Seq<String>, checkpoints: Seq<String>, c: int) -> bool {
    count_same(lines, checkpoints[c]@, lines.len()) <= count_same(
        checkpoints,
        checkpoints[c]@,
        c as nat,
    )
}

fn count_texts(list: &Vec<String>, text: &str, until: usize) -> (count: usize)
    requires
        until <= list@.len(),
    ensures
        count == count_same(list@, text@, until as nat),
        count <= until,
{
    let mut count: usize = 0;
    let mut i: usize = 0;
    while i < until
        invariant
            i <= until,
            until <= list@.len(),
            count <= i,
            count == count_same(list@, text@, i as nat),
        decreases until - i,
    {
        if same_text(list[i].as_str(), text) {
            count = count + 1;
        }
        i = i + 1;
    }
    count
}

proof fn count_grows(list: Seq<String>, text: Seq<char>, a: nat, b: nat)
    requires
        a <= b,
    ensures
        count_same(list, text, a) <= count_same(list, text, b),
    decreases b,
{
    if a < b {
        count_grows(list, text, a, (b - 1) as nat);
    }
}

fn find_ranked(list: &Vec<String>, text: &str, rank: usize) -> (found: Option<usize>)
    ensures
        match found {
            Some(c) => c < list@.len() && list@[c as int]@ == text@ && count_same(
                list@,
                text@,
                c as nat,
            ) == rank,
            None => count_same(list@, text@, list@.len()) <= rank,
        },
{
    let mut count: usize = 0;
    let mut i: usize = 0;
    while i < list.len()
        invariant
            i <= list@.len(),
            count <= i,
            count <= rank,
            count == count_same(list@, text@, i as nat),
        decreases list@.len() - i,
    {
        if same_text(list[i].as_str(), text) {
            if count == rank {
                return Some(i);
            }
            count = count + 1;
        }
        i = i + 1;
    }
    None
}

/// Pairs the lines of a source with its checkpoints, by the digests of their payloads. A
/// checkpoint without its line leaves the source unresolved.
pub fn pair_checkpoints(lines: &Vec<String>, checkpoints: &Vec<String>) -> (pairs: Result<
    Vec<Option<usize>>,
    String,
>)
    ensures
        refusal(pairs) == (if exists|c: int|
            0 <= c < checkpoints@.len() && #[trigger] is_unpaired(lines@, checkpoints@, c) {
            Some("checkpoint occurrence has no matching raw line; retain unresolved source"@)
        } else {
            None
        }),
        pairs matches Ok(pairs) ==> pairs@.len() == lines@.len() && forall|i: int|
            0 <= i < lines@.len() ==> is_pair(lines@, checkpoints@, i, #[trigger] pairs@[i]),
{
    let mut pairs: Vec<Option<usize>> = Vec::new();
    let mut i: usize = 0;
    while i < lines.len()
        invariant
            i <= lines@.len(),
            pairs@.len() == i,
            forall|j: int|
                0 <= j < i ==> is_pair(lines@, checkpoints@, j, #[trigger] pairs@[j]),
        decreases lines@.len() - i,
    {
        let rank: usize = count_texts(lines, lines[i].as_str(), i);
        pairs.push(find_ranked(checkpoints, lines[i].as_str(), rank));
        i = i + 1;
    }
    let mut c: usize = 0;
    while c < checkpoints.len()
        invariant
            c <= checkpoints@.len(),
            forall|j: int| 0 <= j < c ==> !#[trigger] is_unpaired(lines@, checkpoints@, j),
        decreases checkpoints@.len() - c,
    {
        let total: usize = count_texts(lines, checkpoints[c].as_str(), lines.len());
        let rank: usize = count_texts(checkpoints, checkpoints[c].as_str(), c);
        if total <= rank {
            assert(is_unpaired(lines@, checkpoints@, c as int));
            return Err(
                "checkpoint occurrence has no matching raw line; retain unresolved source".to_owned(),
            );
        }
        c = c + 1;
    }
    Ok(pairs)
}

/// The first of some members that is there and not null.
pub open spec fn first_present(values: Seq<Option<Json>>) -> Option<Json>
    decreases values.len(),
{
    if values.len() == 0 {
        None
    } else {
        match values[0] {
            Some(Json::Null) => first_present(values.skip(1)),
            Some(value) => Some(value),
            None => first_present(values.skip(1)),
        }
    }
}

fn present<'a>(value: &'a Json, name: &str) -> (found: Option<&'a Json>)
    ensures
        match found {
            Some(found) => member(*value, name@) == Some(*found) && *found !is Null,
            None => member(*value, name@) is None || member(*value, name@) == Some(Json::Null),
        },
{
    match find_member(value, name) {
        Some(Json::Null) => None,
        Some(found) => Some(found),
        None => None,
    }
}

/// The request of an imported page: what its checkpoint says first, and then the page itself.
pub fn anchor<'a>(checkpoint: &'a Json, page: &'a Json) -> (found: Option<&'a Json>)
    ensures
        ({
            let wanted = first_present(
                seq![
                    member(*checkpoint, "request_token"@),
                    member(*checkpoint, "request_anchor"@),
                    member(*checkpoint, "target_server_s"@),
                    member(*page, "request_token"@),
                ],
            );
            match found {
                Some(found) => wanted == Some(*found),
                None => wanted is None,
            }
        }),
{
    proof {
        reveal_with_fuel(first_present, 5);
        let all = seq![
            member(*checkpoint, "request_token"@),
            member(*checkpoint, "request_anchor"@),
            member(*checkpoint, "target_server_s"@),
            member(*page, "request_token"@),
        ];
        assert(all.skip(1)[0] == all[1]);
        assert(all.skip(1).skip(1)[0] == all[2]);
        assert(all.skip(1).skip(1).skip(1)[0] == all[3]);
        assert(all.skip(1).skip(1).skip(1).skip(1).len() == 0);
    }
    if let Some(found) = present(checkpoint, "request_token") {
        return Some(found);
    }
    if let Some(found) = present(checkpoint, "request_anchor") {
        return Some(found);
    }
    if let Some(found) = present(checkpoint, "target_server_s") {
        return Some(found);
    }
    present(page, "request_token")
}

/// The receipt time that a checkpoint gives.
pub fn receipt_text<'a>(checkpoint: &'a Json) -> (text: Option<&'a str>)
    ensures
        crate::live::control::seen(text) == (if member_text(
            *checkpoint,
            "receipt_time_utc"@,
        ) is Some {
            member_text(*checkpoint, "receipt_time_utc"@)
        } else {
            member_text(*checkpoint, "received_at"@)
        }),
{
    match find_text(checkpoint, "receipt_time_utc") {
        Some(text) => Some(text),
        None => find_text(checkpoint, "received_at"),
    }
}

/// What is known of when a response was received.
#[derive(Debug, Clone, Copy, PartialEq, Eq, Structural)]
pub enum ReceiptState {
    Recorded,
    NotRecordedBySource,
    AbsentInLegacyRecord,
}

/// What is known of when a response was received.
pub fn receipt_state(recorded: bool, checkpoint: &Json) -> (state: ReceiptState)
    ensures
        state == (if recorded {
            ReceiptState::Recorded
        } else if member(*checkpoint, "recovered_from_raw"@) == Some(Json::Bool(true)) {
            ReceiptState::NotRecordedBySource
        } else {
            ReceiptState::AbsentInLegacyRecord
        }),
{
    if recorded {
        return ReceiptState::Recorded;
    }
    let recovered: bool = match find_member(checkpoint, "recovered_from_raw") {
        Some(Json::Bool(flag)) => *flag,
        _ => false,
    };
    if recovered {
        ReceiptState::NotRecordedBySource
    } else {
        ReceiptState::AbsentInLegacyRecord
    }
}

/// The rows of an imported page.
pub fn page_rows<'a>(page: &'a Json) -> (rows: Result<&'a Vec<Json>, String>)
    ensures
        match rows {
            Ok(rows) => member(*page, "data"@) == Some(Json::Array(*rows)),
            Err(message) => !(member(*page, "data"@) matches Some(Json::Array(_))) && message@
                == "import page has no data array; retain unresolved source"@,
        },
{
    match find_member(page, "data") {
        Some(Json::Array(rows)) => Ok(rows),
        _ => Err("import page has no data array; retain unresolved source".to_owned()),
    }
}

/// The time of an imported row: its member of that name, or its first element.
pub open spec fn time_of_row(row: Json) -> Option<Json> {
    match member(row, "time"@) {
        Some(time) => Some(time),
        None => match row {
            Json::Array(values) => if values@.len() > 0 {
                Some(values@[0])
            } else {
                None
            },
            _ => None,
        },
    }
}

/// The time of an imported row.
pub fn row_time<'a>(row: &'a Json) -> (time: Result<&'a Json, String>)
    ensures
        match time {
            Ok(time) => time_of_row(*row) == Some(*time),
            Err(message) => time_of_row(*row) is None && message@
                == "import page row has no time"@,
        },
{
    if let Some(time) = find_member(row, "time") {
        return Ok(time);
    }
    if let Json::Array(values) = row {
        if values.len() > 0 {
            return Ok(&values[0]);
        }
    }
    Err("import page row has no time".to_owned())
}

/// The earliest and the latest of some times.
pub open spec fn is_extent(times: Seq<i64>, first: Option<i64>, last: Option<i64>) -> bool {
    if times.len() == 0 {
        first is None && last is None
    } else {
        &&& first is Some && times.contains(first->0)
        &&& last is Some && times.contains(last->0)
        &&& forall|i: int|
            0 <= i < times.len() ==> first->0 <= #[trigger] times[i] && times[i] <= last->0
    }
}

/// The earliest and the latest of some times.
pub fn extent(times: &Vec<i64>) -> (extent: (Option<i64>, Option<i64>))
    ensures
        is_extent(times@, extent.0, extent.1),
{
    if times.len() == 0 {
        return (None, None);
    }
    let mut first: i64 = times[0];
    let mut last: i64 = times[0];
    let mut i: usize = 1;
    assert(times@.contains(times@[0]));
    while i < times.len()
        invariant
            1 <= i <= times@.len(),
            times@.contains(first),
            times@.contains(last),
            forall|j: int| 0 <= j < i ==> first <= #[trigger] times@[j] && times@[j] <= last,
        decreases times@.len() - i,
    {
        assert(times@.contains(times@[i as int]));
        if times[i] < first {
            first = times[i];
        }
        if times[i] > last {
            last = times[i];
        }
        i = i + 1;
    }
    (Some(first), Some(last))
}

/// A provider's time on the universal clock: less its recorded offset in seconds.
pub fn without_offset(micros: i64, offset_seconds: i64) -> (time: Result<i64, String>)
    ensures
        refusal(time) == (if !(i64::MIN <= offset_seconds * 1_000_000 <= i64::MAX) {
            Some("offset overflow"@)
        } else if !(i64::MIN <= micros - offset_seconds * 1_000_000 <= i64::MAX) {
            Some("timestamp overflow"@)
        } else {
            None
        }),
        time matches Ok(time) ==> time == micros - offset_seconds * 1_000_000,
{
    let offset: i64 = match offset_seconds.checked_mul(1_000_000) {
        Some(offset) => offset,
        None => {
            return Err("offset overflow".to_owned());
        },
    };
    match micros.checked_sub(offset) {
        Some(time) => Ok(time),
        None => Err("timestamp overflow".to_owned()),
    }
}

/// Two characters as a number: two digits, or a sign and a digit.
pub open spec fn two_chars(a: char, b: char) -> Option<int> {
    if !crate::text::is_digit(b) {
        None
    } else if crate::text::is_digit(a) {
        Some((10 * crate::text::digit_value(a) + crate::text::digit_value(b)) as int)
    } else if a == '+' {
        Some(crate::text::digit_value(b) as int)
    } else if a == '-' {
        Some(-(crate::text::digit_value(b) as int))
    } else {
        None
    }
}

fn digit_of(c: char) -> (value: Option<i64>)
    ensures
        value == (if crate::text::is_digit(c) {
            Some(crate::text::digit_value(c) as i64)
        } else {
            None
        }),
        value matches Some(value) ==> 0 <= value <= 9,
{
    if '0' <= c && c <= '9' {
        let value: i64 = (c as u32 - '0' as u32) as i64;
        Some(value)
    } else {
        None
    }
}

fn parse_two(a: char, b: char) -> (value: Option<i64>)
    ensures
        match value {
            Some(value) => two_chars(a, b) == Some(value as int) && -9 <= value <= 99,
            None => two_chars(a, b) is None,
        },
{
    let ones: i64 = match digit_of(b) {
        Some(ones) => ones,
        None => {
            return None;
        },
    };
    match digit_of(a) {
        Some(tens) => Some(10 * tens + ones),
        None => if a == '+' {
            Some(ones)
        } else if a == '-' {
            Some(-ones)
        } else {
            None
        },
    }
}

/// How a receipt time is read: whole, or without a zone whose offset is then taken off.
#[derive(Debug, Clone, Copy, PartialEq, Eq, Structural)]
pub enum Zone {
    Universal,
    /// The text before the zone, up to this position, and the zone's offset in microseconds.
    Offset(usize, i64),
}

/// Whether a receipt time ends with a zone.
pub open spec fn has_zone(value: Seq<char>) -> bool {
    let i = value.len() - 6;
    value.last() != 'Z' && i >= 0 && (value[i] == '+' || value[i] == '-') && value[i + 3] == ':'
}

/// The hours and minutes of a receipt time's zone.
pub open spec fn zone_parts(value: Seq<char>) -> (Option<int>, Option<int>) {
    let i = value.len() - 6;
    (two_chars(value[i + 1], value[i + 2]), two_chars(value[i + 4], value[i + 5]))
}

/// Whether a text has only ASCII characters.
pub open spec fn all_ascii(value: Seq<char>) -> bool {
    forall|i: int| 0 <= i < value.len() ==> #[trigger] value[i] as u32 <= 127
}

/// Why the zone of a receipt time cannot be read.
pub open spec fn zone_refusal(value: Seq<char>) -> Option<Seq<char>> {
    if !all_ascii(value) {
        Some("receipt timestamp must be ASCII"@)
    } else if !has_zone(value) {
        None
    } else {
        match zone_parts(value) {
            (Some(hours), Some(minutes)) => if hours > 23 || minutes > 59 {
                Some("receipt timezone offset is invalid"@)
            } else {
                None
            },
            _ => Some("invalid digit found in string"@),
        }
    }
}

/// Reads the zone of a receipt time.
pub fn zone(value: &str) -> (zone: Result<Zone, String>)
    ensures
        refusal(zone) == zone_refusal(value@),
        zone matches Ok(zone) ==> (if has_zone(value@) {
            let (hours, minutes) = zone_parts(value@);
            let micros = (hours->0 * 3600 + minutes->0 * 60) * 1_000_000;
            zone matches Zone::Offset(at, offset) && at == value@.len() - 6 && offset == (if value@[
            value@.len() - 6] == '-' {
                -micros
            } else {
                micros
            })
        } else {
            zone is Universal
        }),
{
    let length: usize = value.unicode_len();
    let mut i: usize = 0;
    while i < length
        invariant
            i <= length,
            length == value@.len(),
            forall|j: int| 0 <= j < i ==> #[trigger] value@[j] as u32 <= 127,
        decreases length - i,
    {
        if value.get_char(i) as u32 > 127 {
            assert(!(value@[i as int] as u32 <= 127));
            return Err("receipt timestamp must be ASCII".to_owned());
        }
        i = i + 1;
    }
    if length < 6 {
        return Ok(Zone::Universal);
    }
    let at: usize = length - 6;
    let sign = value.get_char(at);
    if value.get_char(length - 1) == 'Z' || !(sign == '+' || sign == '-') || value.get_char(at + 3)
        != ':' {
        return Ok(Zone::Universal);
    }
    let hours = parse_two(value.get_char(at + 1), value.get_char(at + 2));
    let minutes = parse_two(value.get_char(at + 4), value.get_char(at + 5));
    match (hours, minutes) {
        (Some(hours), Some(minutes)) => {
            if hours > 23 || minutes > 59 {
                return Err("receipt timezone offset is invalid".to_owned());
            }
            let micros: i64 = (hours * 3600 + minutes * 60) * 1_000_000;
            let offset: i64 = if sign == '-' { -micros } else { micros };
            Ok(Zone::Offset(at, offset))
        },
        _ => Err("invalid digit found in string".to_owned()),
    }
}

/// Takes a zone's offset off a time.
pub fn in_zone(time: i64, offset: i64) -> (universal: Result<i64, String>)
    ensures
        refusal(universal) == (if i64::MIN <= time - offset <= i64::MAX {
            None
        } else {
            Some("receipt time overflow"@)
        }),
        universal matches Ok(universal) ==> universal == time - offset,
{
    match time.checked_sub(offset) {
        Some(universal) => Ok(universal),
        None => Err("receipt time overflow".to_owned()),
    }
}

/// An imported page and its checkpoint, decoded; without a checkpoint that is null.
#[derive(Debug)]
pub struct PageReading {
    pub page: Json,
    pub checkpoint: Json,
    pub payload_sha256: String,
}

/// Decodes an imported page and its checkpoint.
pub fn read_page(payload: &[u8], checkpoint: Option<&[u8]>) -> (reading: Result<PageReading, String>)
    ensures
        match json_of(payload@) {
            Err(message) => refusal(reading) == Some(message),
            Ok(page) => match checkpoint {
                None => {
                    &&& reading matches Ok(reading)
                    &&& view_of(reading.page) == page
                    &&& reading.checkpoint is Null
                    &&& reading.payload_sha256@ == hex(sha256(payload@))
                },
                Some(bytes) => match json_of(bytes@) {
                    Err(message) => refusal(reading) == Some(message),
                    Ok(check) => {
                        &&& reading matches Ok(reading)
                        &&& view_of(reading.page) == page
                        &&& view_of(reading.checkpoint) == check
                        &&& reading.payload_sha256@ == hex(sha256(payload@))
                    },
                },
            },
        },
{
    let page = match parse(payload) {
        Ok(page) => page,
        Err(message) => {
            return Err(message);
        },
    };
    let checkpoint = match checkpoint {
        Some(bytes) => match parse(bytes) {
            Ok(checkpoint) => checkpoint,
            Err(message) => {
                return Err(message);
            },
        },
        None => Json::Null,
    };
    Ok(PageReading { page, checkpoint, payload_sha256: digest(payload) })
}

/// The digest by which a checkpoint names its page.
pub fn checkpoint_payload(bytes: &[u8]) -> (hash: Result<String, String>)
    ensures
        match json_of(bytes@) {
            Err(message) => refusal(hash) == Some(message),
            Ok(view) => exists|value: Json| #[trigger]
                view_of(value) == view && match member_text(value, "payload_sha256"@) {
                    Some(text) => hash matches Ok(hash) && hash@ == text,
                    None => refusal(hash) == Some(
                        "checkpoint lacks payload_sha256; retain unresolved source"@,
                    ),
                },
        },
{
    match parse(bytes) {
        Err(message) => Err(message),
        Ok(value) => {
            let hash = match find_text(&value, "payload_sha256") {
                Some(text) => Ok(text.to_owned()),
                None => Err(
                    "checkpoint lacks payload_sha256; retain unresolved source".to_owned(),
                ),
            };
            assert(view_of(value) == json_of(bytes@)->Ok_0);
            hash
        },
    }
}

/// The text by which a time or a request is parsed: a text as it is, a number as it is printed.
pub open spec fn token_of(value: Json) -> Option<Seq<char>> {
    match value {
        Json::Text(text) => Some(text@),
        Json::Number(number) => Some(number@),
        _ => None,
    }
}

/// The text by which a time or a request is parsed.
pub fn token<'a>(value: &'a Json) -> (text: Option<&'a str>)
    ensures
        crate::live::control::seen(text) == token_of(*value),
{
    match value {
        Json::Text(text) => Some(text.as_str()),
        Json::Number(number) => Some(number.as_str()),
        _ => None,
    }
}

/// A page as an import retains it.
#[derive(Debug)]
pub struct ImportedPage {
    pub acquisition_id: String,
    pub ordinal: u64,
    pub checkpoint_ordinal: Option<u64>,
    pub payload_sha256: String,
    pub request_token: Option<String>,
    pub request_anchor_utc: Option<i64>,
    pub receipt_time_utc: Option<i64>,
    pub receipt_state: ReceiptState,
    pub first_event_time: Option<i64>,
    pub last_event_time: Option<i64>,
    pub rows: u64,
}

/// The request of a page, as its checkpoint or itself names it.
pub open spec fn request_of(reading: PageReading) -> Option<Json> {
    first_present(
        seq![
            member(reading.checkpoint, "request_token"@),
            member(reading.checkpoint, "request_anchor"@),
            member(reading.checkpoint, "target_server_s"@),
            member(reading.page, "request_token"@),
        ],
    )
}

/// Puts an imported page together from what was decoded, once its times are parsed.
pub fn import_page(
    reading: PageReading,
    acquisition: &str,
    ordinal: u64,
    checkpoint_ordinal: Option<u64>,
    times: &Vec<i64>,
    anchor_time: Option<i64>,
    receipt_time: Option<i64>,
) -> (page: ImportedPage)
    ensures
        page.acquisition_id@ == acquisition@,
        page.ordinal == ordinal,
        page.checkpoint_ordinal == checkpoint_ordinal,
        page.payload_sha256 == reading.payload_sha256,
        text_of(page.request_token) == (match request_of(reading) {
            Some(value) => token_of(value),
            None => None,
        }),
        page.request_anchor_utc == anchor_time,
        page.receipt_time_utc == receipt_time,
        page.receipt_state == (if receipt_time is Some {
            ReceiptState::Recorded
        } else if member(reading.checkpoint, "recovered_from_raw"@) == Some(Json::Bool(true)) {
            ReceiptState::NotRecordedBySource
        } else {
            ReceiptState::AbsentInLegacyRecord
        }),
        is_extent(times@, page.first_event_time, page.last_event_time),
        page.rows == times@.len(),
{
    let request_token: Option<String> = match anchor(&reading.checkpoint, &reading.page) {
        Some(value) => match token(value) {
            Some(text) => Some(text.to_owned()),
            None => None,
        },
        None => None,
    };
    let state = receipt_state(receipt_time.is_some(), &reading.checkpoint);
    let (first_event_time, last_event_time) = extent(times);
    ImportedPage {
        acquisition_id: acquisition.to_owned(),
        ordinal,
        checkpoint_ordinal,
        payload_sha256: reading.payload_sha256,
        request_token,
        request_anchor_utc: anchor_time,
        receipt_time_utc: receipt_time,
        receipt_state: state,
        first_event_time,
        last_event_time,
        rows: times.len() as u64,
    }
}

} // verus!
