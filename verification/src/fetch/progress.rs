//! The durable progress of an acquisition: what a store of progress is told, and when.

use crate::digest::{digest, hex, sha256};
use crate::fetch::bounds::Bounds;
use crate::fetch::coverage::{
    page_path, OccurrenceIdentity, PageCoverage, Progress, ProgressEvent,
};
use crate::market::{all_representable, Row};
use crate::text::copy_optional;
use vstd::prelude::*;
use vstd::string::*;

verus! {

/// What a store of progress is told.
pub enum Telling {
    Started(Progress),
    Received(PageCoverage),
    Page(PageCoverage),
    Invalidate,
}

/// What an event tells.
pub open spec fn telling(event: ProgressEvent<'_>) -> Telling {
    match event {
        ProgressEvent::Started(progress) => Telling::Started(*progress),
        ProgressEvent::Received(page) => Telling::Received(*page),
        ProgressEvent::Page(page) => Telling::Page(*page),
        ProgressEvent::Invalidate => Telling::Invalidate,
    }
}

/// What an event that may be owed tells.
pub open spec fn told(event: Option<ProgressEvent<'_>>) -> Option<Telling> {
    match event {
        Some(event) => Some(telling(event)),
        None => None,
    }
}

/// What is owed before the first request: the header, where nothing is resumed and progress is
/// kept.
pub open spec fn owed_at_start(bounds: Bounds, progress: Progress) -> Option<Telling> {
    if bounds.persists && bounds.resume is None {
        Some(Telling::Started(progress))
    } else {
        None
    }
}

/// What is owed once a response is retained, and again once its rows are decoded: the page, in
/// daily layout. A page that is replayed was told before.
pub open spec fn owed_on_response(
    bounds: Bounds,
    daily: bool,
    replayed: bool,
    page: PageCoverage,
) -> Option<Telling> {
    if bounds.persists && daily && !replayed {
        Some(Telling::Received(page))
    } else {
        None
    }
}

/// What is owed once a page has stood every check: the page becomes part of the pending intent. A
/// page that is replayed is part of it.
pub open spec fn owed_on_page(
    bounds: Bounds,
    replayed: bool,
    page: PageCoverage,
) -> Option<Telling> {
    if bounds.persists && !replayed {
        Some(Telling::Page(page))
    } else {
        None
    }
}

/// What is owed when rows are rejected: in daily layout a rejection can implicate an earlier
/// page's deferred overlap, so that the acquisition is fetched again instead of replaying it
/// forever.
pub open spec fn owed_on_rejection(bounds: Bounds, daily: bool) -> Option<Telling> {
    if bounds.persists && daily {
        Some(Telling::Invalidate)
    } else {
        None
    }
}

impl Bounds {
    /// The event that the beginning of an acquisition owes.
    pub fn started<'a>(&self, progress: &'a Progress) -> (event: Option<ProgressEvent<'a>>)
        ensures
            told(event) == owed_at_start(*self, *progress),
    {
        if self.persists && self.resume.is_none() {
            Some(ProgressEvent::Started(progress))
        } else {
            None
        }
    }

    /// The event that a response owes, first as it was retained and then as it was decoded.
    pub fn received<'a>(&self, daily: bool, replayed: bool, page: &'a PageCoverage) -> (event:
        Option<ProgressEvent<'a>>)
        ensures
            told(event) == owed_on_response(*self, daily, replayed, *page),
    {
        if self.persists && daily && !replayed {
            Some(ProgressEvent::Received(page))
        } else {
            None
        }
    }

    /// The event that a page which stood every check owes.
    pub fn accepted<'a>(&self, replayed: bool, page: &'a PageCoverage) -> (event: Option<
        ProgressEvent<'a>,
    >)
        ensures
            told(event) == owed_on_page(*self, replayed, *page),
    {
        if self.persists && !replayed {
            Some(ProgressEvent::Page(page))
        } else {
            None
        }
    }

    /// The event that a rejection owes.
    pub fn rejected<'a>(&self, daily: bool) -> (event: Option<ProgressEvent<'a>>)
        ensures
            told(event) == owed_on_rejection(*self, daily),
    {
        if self.persists && daily {
            Some(ProgressEvent::Invalidate)
        } else {
            None
        }
    }
}

/// Whether a page is a response as it was retained, before its rows are known.
pub open spec fn is_response(
    page: PageCoverage,
    acquisition: Option<OccurrenceIdentity>,
    ordinal: u64,
    raw: Seq<u8>,
    anchor: Option<String>,
    receipt_time: i64,
) -> bool {
    &&& page.occurrence == (match acquisition {
        Some(identity) => Some(OccurrenceIdentity { ordinal, ..identity }),
        None => None,
    })
    &&& page.sha256@ == hex(sha256(raw))
    &&& page.path@ == "raw/"@ + hex(sha256(raw)) + ".json"@
    &&& page.bytes == raw.len()
    &&& page.anchor == anchor
    &&& page.offset is None
    &&& page.rows == 0
    &&& page.first is None
    &&& page.last is None
    &&& page.receipt_time == Some(receipt_time)
}

/// A response as it is retained: the request number `ordinal` of its acquisition.
pub fn response_page(
    acquisition: &Option<OccurrenceIdentity>,
    ordinal: u64,
    raw: &[u8],
    anchor: &Option<String>,
    receipt_time: i64,
) -> (page: PageCoverage)
    ensures
        is_response(page, *acquisition, ordinal, raw@, *anchor, receipt_time),
{
    let occurrence = match acquisition {
        Some(identity) => {
            let mut identity = identity.clone();
            identity.ordinal = ordinal;
            Some(identity)
        },
        None => None,
    };
    let sum = digest(raw);
    PageCoverage {
        occurrence,
        path: page_path(sum.as_str()),
        sha256: sum,
        bytes: raw.len() as u64,
        offset: None,
        anchor: copy_optional(anchor),
        rows: 0,
        first: None,
        last: None,
        receipt_time: Some(receipt_time),
    }
}

/// A response with what its rows say: how many there are, and the times of the first and last.
pub fn decoded_page<R: Row>(page: PageCoverage, rows: &Vec<R>) -> (decoded: PageCoverage)
    requires
        all_representable(rows@),
    ensures
        decoded == (PageCoverage {
            rows: rows@.len() as u64,
            first: decoded.first,
            last: decoded.last,
            ..page
        }),
        match decoded.first {
            Some(first) => rows@.len() > 0 && first == rows@[0].moment(),
            None => rows@.len() == 0,
        },
        match decoded.last {
            Some(last) => rows@.len() > 0 && last == rows@.last().moment(),
            None => rows@.len() == 0,
        },
{
    let mut decoded = page;
    decoded.rows = rows.len() as u64;
    decoded.first =
    if rows.len() > 0 {
        Some(rows[0].time())
    } else {
        None
    };
    decoded.last =
    if rows.len() > 0 {
        Some(rows[rows.len() - 1].time())
    } else {
        None
    };
    decoded
}

/// What an acquisition that goes through tells: the header, then of each page, of which the first
/// `replayed` are replayed, the response as it was retained, as it was decoded, and the page.
pub open spec fn told_in_all(
    bounds: Bounds,
    daily: bool,
    progress: Progress,
    responses: Seq<PageCoverage>,
    pages: Seq<PageCoverage>,
    replayed: nat,
    count: nat,
) -> Seq<Telling>
    decreases count,
{
    if count == 0 {
        as_list(owed_at_start(bounds, progress))
    } else {
        let at = count - 1;
        let again = at < replayed;
        told_in_all(bounds, daily, progress, responses, pages, replayed, at as nat) + as_list(
            owed_on_response(bounds, daily, again, responses[at]),
        ) + as_list(owed_on_response(bounds, daily, again, pages[at])) + as_list(
            owed_on_page(bounds, again, pages[at]),
        )
    }
}

/// What is owed, as a list.
pub open spec fn as_list(event: Option<Telling>) -> Seq<Telling> {
    match event {
        Some(event) => seq![event],
        None => Seq::empty(),
    }
}

/// The header is told once, before anything else and unless the intent is resumed. A page that is
/// replayed tells nothing; each page after those is told once, in order, and in daily layout its
/// response before it.
pub proof fn progress_is_told_once(
    bounds: Bounds,
    daily: bool,
    progress: Progress,
    responses: Seq<PageCoverage>,
    pages: Seq<PageCoverage>,
    replayed: nat,
    count: nat,
)
    requires
        bounds.persists,
        count <= pages.len(),
        responses.len() == pages.len(),
    ensures
        ({
            let all = told_in_all(bounds, daily, progress, responses, pages, replayed, count);
            let header: int = if bounds.resume is None {
                1
            } else {
                0
            };
            let each: int = if daily {
                3
            } else {
                1
            };
            let live: int = if count > replayed {
                count - replayed
            } else {
                0
            };
            &&& all.len() == header + each * live
            &&& header == 1 ==> all[0] == Telling::Started(progress)
            &&& forall|i: int|
                #![trigger pages[replayed + i]]
                0 <= i < live ==> all[header + each * i + each - 1] == Telling::Page(
                    pages[replayed + i],
                ) && (daily ==> all[header + each * i] == Telling::Received(
                    responses[replayed + i],
                ) && all[header + each * i + 1] == Telling::Received(pages[replayed + i]))
        }),
    decreases count,
{
    if count > 0 {
        let at = (count - 1) as nat;
        progress_is_told_once(bounds, daily, progress, responses, pages, replayed, at);
        let before = told_in_all(bounds, daily, progress, responses, pages, replayed, at);
        let all = told_in_all(bounds, daily, progress, responses, pages, replayed, count);
        let header: int = if bounds.resume is None {
            1
        } else {
            0
        };
        if at < replayed {
            assert(all =~= before);
        } else {
            let live = count - replayed;
            assert(pages[replayed + (live - 1)] == pages[at as int]);
            if daily {
                assert(before.len() == header + 3 * (live - 1));
                assert(all =~= before.push(Telling::Received(responses[at as int])).push(
                    Telling::Received(pages[at as int]),
                ).push(Telling::Page(pages[at as int])));
            } else {
                assert(before.len() == header + (live - 1));
                assert(all =~= before.push(Telling::Page(pages[at as int])));
            }
        }
    }
}

} // verus!
