//! Ranges of time as sets of moments: merging, clipping and complements.

use crate::fetch::coverage::Range;
use vstd::prelude::*;

verus! {

impl Range {
    /// Whether a moment lies in the range.
    pub open spec fn has(self, moment: int) -> bool {
        self.start <= moment < self.end
    }
}

/// Whether a moment lies in one of the ranges.
pub open spec fn covers(spans: Seq<Range>, moment: int) -> bool {
    exists|i: int| 0 <= i < spans.len() && (#[trigger] spans[i]).has(moment)
}

/// Whether no range is empty.
pub open spec fn proper(spans: Seq<Range>) -> bool {
    forall|i: int| 0 <= i < spans.len() ==> (#[trigger] spans[i]).start < spans[i].end
}

/// Whether ranges come in order, with a gap between any two, and none is empty.
pub open spec fn canonical(spans: Seq<Range>) -> bool {
    &&& proper(spans)
    &&& forall|i: int, j: int|
        0 <= i < j < spans.len() ==> (#[trigger] spans[i]).end < (#[trigger] spans[j]).start
}

/// There is one canonical list of ranges for a set of moments.
pub proof fn one_canonical_list(a: Seq<Range>, b: Seq<Range>)
    requires
        canonical(a),
        canonical(b),
        forall|moment: int| #[trigger] covers(a, moment) == covers(b, moment),
    ensures
        a == b,
    decreases a.len(),
{
    if a.len() == 0 {
        if b.len() > 0 {
            assert(b[0].has(b[0].start as int));
            assert(covers(b, b[0].start as int));
            assert(covers(a, b[0].start as int));
        }
        assert(a =~= b);
    } else {
        assert(a[0].has(a[0].start as int));
        assert(covers(a, a[0].start as int));
        assert(covers(b, a[0].start as int));
        assert(b.len() > 0);
        assert(b[0].has(b[0].start as int));
        assert(covers(b, b[0].start as int));
        assert(covers(a, b[0].start as int));
        assert(a[0].start == b[0].start);
        first_end(a);
        first_end(b);
        if a[0].end < b[0].end {
            assert(b[0].has(a[0].end as int));
            assert(covers(b, a[0].end as int));
            assert(covers(a, a[0].end as int));
        }
        if b[0].end < a[0].end {
            assert(a[0].has(b[0].end as int));
            assert(covers(a, b[0].end as int));
            assert(covers(b, b[0].end as int));
        }
        assert(a[0] == b[0]);
        let c = a.skip(1);
        let d = b.skip(1);
        assert forall|moment: int| #[trigger] covers(c, moment) == covers(d, moment) by {
            without_first(a, moment);
            without_first(b, moment);
            assert(covers(a, moment) == covers(b, moment));
        }
        assert(canonical(c));
        assert(canonical(d));
        one_canonical_list(c, d);
        assert(a =~= seq![a[0]] + c);
        assert(b =~= seq![b[0]] + d);
    }
}

proof fn first_end(spans: Seq<Range>)
    requires
        canonical(spans),
        spans.len() > 0,
    ensures
        !covers(spans, spans[0].end as int),
{
    assert forall|i: int| 0 <= i < spans.len() implies !(#[trigger] spans[i]).has(
        spans[0].end as int,
    ) by {
        if i > 0 {
            assert(spans[0].end < spans[i].start);
        }
    }
}

proof fn without_first(spans: Seq<Range>, moment: int)
    requires
        canonical(spans),
        spans.len() > 0,
    ensures
        covers(spans.skip(1), moment) == (covers(spans, moment) && !spans[0].has(moment)),
{
    let rest = spans.skip(1);
    if covers(rest, moment) {
        let i = choose|i: int| 0 <= i < rest.len() && (#[trigger] rest[i]).has(moment);
        assert(spans[i + 1].has(moment));
        assert(spans[0].end < spans[i + 1].start);
    }
    if covers(spans, moment) && !spans[0].has(moment) {
        let i = choose|i: int| 0 <= i < spans.len() && (#[trigger] spans[i]).has(moment);
        assert(rest[i - 1].has(moment));
    }
}

proof fn covers_pushed(spans: Seq<Range>, span: Range, moment: int)
    ensures
        covers(spans.push(span), moment) == (covers(spans, moment) || span.has(moment)),
{
    let longer = spans.push(span);
    if covers(spans, moment) {
        let i = choose|i: int| 0 <= i < spans.len() && (#[trigger] spans[i]).has(moment);
        assert(longer[i].has(moment));
    }
    if span.has(moment) {
        assert(longer[spans.len() as int].has(moment));
    }
    if covers(longer, moment) {
        let i = choose|i: int| 0 <= i < longer.len() && (#[trigger] longer[i]).has(moment);
        if i < spans.len() {
            assert(spans[i].has(moment));
        }
    }
}

proof fn covers_split(spans: Seq<Range>, at: int, moment: int)
    requires
        0 <= at <= spans.len(),
    ensures
        covers(spans, moment) == (covers(spans.take(at), moment) || covers(
            spans.skip(at),
            moment,
        )),
{
    let head = spans.take(at);
    let tail = spans.skip(at);
    if covers(spans, moment) {
        let i = choose|i: int| 0 <= i < spans.len() && (#[trigger] spans[i]).has(moment);
        if i < at {
            assert(head[i].has(moment));
        } else {
            assert(tail[i - at].has(moment));
        }
    }
    if covers(head, moment) {
        let i = choose|i: int| 0 <= i < head.len() && (#[trigger] head[i]).has(moment);
        assert(spans[i].has(moment));
    }
    if covers(tail, moment) {
        let i = choose|i: int| 0 <= i < tail.len() && (#[trigger] tail[i]).has(moment);
        assert(spans[i + at].has(moment));
    }
}

proof fn covers_taken(spans: Seq<Range>, at: int, moment: int)
    requires
        0 <= at < spans.len(),
    ensures
        covers(spans.take(at + 1), moment) == (covers(spans.take(at), moment)
            || spans[at].has(moment)),
{
    assert(spans.take(at + 1) =~= spans.take(at).push(spans[at]));
    covers_pushed(spans.take(at), spans[at], moment);
}

spec fn joined_up(
    list: Seq<Range>,
    first: int,
    count: int,
    span: Range,
    joined: Range,
    moment: int,
) -> bool {
    (joined.has(moment) || covers(list.take(first), moment)) == (span.has(moment) || covers(
        list.take(count),
        moment,
    ))
}

fn insert(list: &Vec<Range>, span: Range) -> (merged: Vec<Range>)
    requires
        canonical(list@),
        span.start < span.end,
    ensures
        canonical(merged@),
        forall|moment: int| #[trigger]
            covers(merged@, moment) == (covers(list@, moment) || span.has(moment)),
{
    let mut merged: Vec<Range> = Vec::new();
    let mut i: usize = 0;
    while i < list.len() && list[i].end < span.start
        invariant
            i <= list@.len(),
            canonical(list@),
            span.start < span.end,
            merged@ == list@.take(i as int),
            forall|j: int| 0 <= j < i ==> (#[trigger] list@[j]).end < span.start,
        decreases list@.len() - i,
    {
        merged.push(list[i]);
        i = i + 1;
        assert(merged@ =~= list@.take(i as int));
    }
    let first: usize = i;
    let mut start: i64 = span.start;
    let mut end: i64 = span.end;
    let ghost kept = merged@;
    while i < list.len() && list[i].start <= end
        invariant
            first <= i <= list@.len(),
            canonical(list@),
            start < end,
            start <= span.start,
            span.end <= end,
            forall|j: int| 0 <= j < first ==> (#[trigger] list@[j]).end < start,
            first < list@.len() ==> list@[first as int].end >= span.start,
            forall|moment: int| #[trigger]
                joined_up(
                    list@,
                    first as int,
                    i as int,
                    span,
                    (Range { start, end }),
                    moment,
                ),
        decreases list@.len() - i,
    {
        let next = list[i];
        let ghost before = Range { start, end };
        proof {
            if first < i {
                assert(list@[first as int].end < list@[i as int].start);
            }
        }
        if next.start < start {
            start = next.start;
        }
        if end < next.end {
            end = next.end;
        }
        proof {
            assert forall|j: int| 0 <= j < first implies (#[trigger] list@[j]).end < start by {
                assert(list@[j].end < list@[i as int].start);
            }
            assert forall|moment: int| #[trigger]
                joined_up(
                    list@,
                    first as int,
                    i + 1,
                    span,
                    (Range { start, end }),
                    moment,
                ) by {
                covers_taken(list@, i as int, moment);
                assert(joined_up(list@, first as int, i as int, span, before, moment));
                assert((Range { start, end }).has(moment) == (before.has(moment) || next.has(
                    moment,
                )));
            }
        }
        i = i + 1;
    }
    let last: usize = i;
    let ghost joined = Range { start, end };
    merged.push(Range { start, end });
    assert(merged@ =~= list@.take(first as int).push(joined));
    assert(last < list@.len() ==> end < list@[last as int].start);
    while i < list.len()
        invariant
            first <= last <= i <= list@.len(),
            canonical(list@),
            joined.start < joined.end,
            forall|j: int| 0 <= j < first ==> (#[trigger] list@[j]).end < joined.start,
            last < list@.len() ==> joined.end < list@[last as int].start,
            merged@ == list@.take(first as int).push(joined) + list@.subrange(
                last as int,
                i as int,
            ),
        decreases list@.len() - i,
    {
        merged.push(list[i]);
        i = i + 1;
        assert(merged@ =~= list@.take(first as int).push(joined) + list@.subrange(
            last as int,
            i as int,
        ));
    }
    proof {
        let head = list@.take(first as int).push(joined);
        let tail = list@.skip(last as int);
        assert(list@.subrange(last as int, i as int) =~= tail);
        assert(merged@ =~= head + tail);
        assert(proper(merged@));
        assert forall|a: int, b: int| 0 <= a < b < merged@.len() implies (
        #[trigger] merged@[a]).end < (#[trigger] merged@[b]).start by {
            if b < first {
                assert(list@[a].end < list@[b].start);
            } else if b == first {
                assert(list@[a].end < joined.start);
            } else {
                let k = b - first - 1 + last;
                assert(merged@[b] == list@[k]);
                if a < first {
                    assert(list@[a].end < list@[k].start);
                } else if a == first {
                    if k > last {
                        assert(list@[last as int].end < list@[k].start);
                    }
                } else {
                    let m = a - first - 1 + last;
                    assert(merged@[a] == list@[m]);
                    assert(list@[m].end < list@[k].start);
                }
            }
        }
        assert forall|moment: int| #[trigger]
            covers(merged@, moment) == (covers(list@, moment) || span.has(moment)) by {
            covers_split(merged@, head.len() as int, moment);
            assert(merged@.take(head.len() as int) =~= head);
            assert(merged@.skip(head.len() as int) =~= tail);
            covers_pushed(list@.take(first as int), joined, moment);
            covers_split(list@, last as int, moment);
            assert(joined_up(list@, first as int, last as int, span, joined, moment));
        }
    }
    merged
}

/// The canonical list of the moments in some ranges.
pub fn merge_ranges(ranges: &Vec<Range>) -> (merged: Vec<Range>)
    requires
        proper(ranges@),
    ensures
        canonical(merged@),
        forall|moment: int| #[trigger] covers(merged@, moment) == covers(ranges@, moment),
{
    let mut merged: Vec<Range> = Vec::new();
    let mut i: usize = 0;
    while i < ranges.len()
        invariant
            i <= ranges@.len(),
            proper(ranges@),
            canonical(merged@),
            forall|moment: int| #[trigger]
                covers(merged@, moment) == covers(ranges@.take(i as int), moment),
        decreases ranges@.len() - i,
    {
        let ghost before = merged@;
        merged = insert(&merged, ranges[i]);
        proof {
            assert forall|moment: int| #[trigger]
                covers(merged@, moment) == covers(ranges@.take(i + 1), moment) by {
                covers_taken(ranges@, i as int, moment);
                assert(covers(before, moment) == covers(ranges@.take(i as int), moment));
            }
        }
        i = i + 1;
    }
    assert(ranges@.take(i as int) =~= ranges@);
    merged
}

/// The canonical list of the moments of some ranges that lie within bounds.
pub fn clip(bounds: Range, ranges: &Vec<Range>) -> (clipped: Vec<Range>)
    ensures
        canonical(clipped@),
        forall|moment: int| #[trigger]
            covers(clipped@, moment) == (covers(ranges@, moment) && bounds.has(moment)),
{
    let mut parts: Vec<Range> = Vec::new();
    let mut i: usize = 0;
    while i < ranges.len()
        invariant
            i <= ranges@.len(),
            proper(parts@),
            forall|moment: int| #[trigger]
                covers(parts@, moment) == (covers(ranges@.take(i as int), moment) && bounds.has(
                    moment,
                )),
        decreases ranges@.len() - i,
    {
        let range = ranges[i];
        let start: i64 = if range.start >= bounds.start { range.start } else { bounds.start };
        let end: i64 = if range.end <= bounds.end { range.end } else { bounds.end };
        let ghost before = parts@;
        if start < end {
            parts.push(Range { start, end });
        }
        proof {
            assert forall|moment: int| #[trigger]
                covers(parts@, moment) == (covers(ranges@.take(i + 1), moment) && bounds.has(
                    moment,
                )) by {
                covers_taken(ranges@, i as int, moment);
                covers_pushed(before, Range { start, end }, moment);
                assert(covers(before, moment) == (covers(ranges@.take(i as int), moment)
                    && bounds.has(moment)));
                assert((Range { start, end }).has(moment) == (range.has(moment) && bounds.has(
                    moment,
                )));
            }
        }
        i = i + 1;
    }
    assert(ranges@.take(i as int) =~= ranges@);
    merge_ranges(&parts)
}

/// The canonical list of the moments within bounds that lie in none of some ranges.
pub fn complement(bounds: Range, verified: &Vec<Range>) -> (missing: Vec<Range>)
    ensures
        canonical(missing@),
        forall|moment: int| #[trigger]
            covers(missing@, moment) == (bounds.has(moment) && !covers(verified@, moment)),
{
    let inside = clip(bounds, verified);
    let mut missing: Vec<Range> = Vec::new();
    let mut cursor: i64 = bounds.start;
    let mut i: usize = 0;
    while i < inside.len()
        invariant
            i <= inside@.len(),
            canonical(inside@),
            forall|moment: int| #[trigger]
                covers(inside@, moment) == (covers(verified@, moment) && bounds.has(moment)),
            canonical(missing@),
            forall|j: int| 0 <= j < missing@.len() ==> (#[trigger] missing@[j]).end < cursor,
            bounds.start <= cursor,
            i > 0 ==> cursor == inside@[i - 1].end,
            i > 0 ==> cursor <= bounds.end,
            i == 0 ==> cursor == bounds.start && missing@.len() == 0,
            forall|moment: int| #[trigger]
                covers(missing@, moment) == (bounds.start <= moment < cursor && !covers(
                    inside@,
                    moment,
                )),
        decreases inside@.len() - i,
    {
        let range = inside[i];
        let ghost before = missing@;
        let ghost passed = cursor;
        proof {
            assert(range.has(range.start as int));
            assert(covers(inside@, range.start as int));
            assert(range.has(range.end - 1));
            assert(covers(inside@, range.end - 1));
            assert(bounds.start <= range.start && range.end <= bounds.end);
            if i > 0 {
                assert(inside@[i - 1].end < inside@[i as int].start);
            }
        }
        if cursor < range.start {
            missing.push(Range { start: cursor, end: range.start });
        }
        cursor = range.end;
        proof {
            assert forall|moment: int| #[trigger]
                covers(missing@, moment) == (bounds.start <= moment < cursor && !covers(
                    inside@,
                    moment,
                )) by {
                covers_pushed(before, Range { start: passed, end: range.start }, moment);
                assert(covers(before, moment) == (bounds.start <= moment < passed && !covers(
                    inside@,
                    moment,
                )));
                if range.start <= moment < range.end {
                    assert(inside@[i as int].has(moment));
                    assert(covers(inside@, moment));
                }
                if passed <= moment < range.start {
                    assert forall|j: int| 0 <= j < inside@.len() implies !(
                    #[trigger] inside@[j]).has(moment) by {
                        if j < i {
                            if j < i - 1 {
                                assert(inside@[j].end < inside@[i - 1].start);
                            }
                        } else if j > i {
                            assert(inside@[i as int].end < inside@[j].start);
                        }
                    }
                    assert(!covers(inside@, moment));
                }
            }
        }
        i = i + 1;
    }
    let ghost before = missing@;
    if cursor < bounds.end {
        missing.push(Range { start: cursor, end: bounds.end });
    }
    proof {
        assert forall|moment: int| #[trigger]
            covers(missing@, moment) == (bounds.has(moment) && !covers(verified@, moment)) by {
            covers_pushed(before, Range { start: cursor, end: bounds.end }, moment);
            assert(covers(before, moment) == (bounds.start <= moment < cursor && !covers(
                inside@,
                moment,
            )));
            assert(covers(inside@, moment) == (covers(verified@, moment) && bounds.has(moment)));
            if cursor <= moment < bounds.end {
                assert forall|j: int| 0 <= j < inside@.len() implies !(
                #[trigger] inside@[j]).has(moment) by {
                    if j < inside@.len() - 1 {
                        assert(inside@[j].end < inside@[inside@.len() - 1].start);
                    }
                }
                assert(!covers(inside@, moment));
            }
        }
    }
    missing
}

/// What is verified within bounds and what is missing of them never meet, and together are all
/// of them.
pub proof fn verified_and_missing_make_up_the_bounds(
    bounds: Range,
    verified: Seq<Range>,
    clipped: Seq<Range>,
    missing: Seq<Range>,
    moment: int,
)
    requires
        covers(clipped, moment) == (covers(verified, moment) && bounds.has(moment)),
        covers(missing, moment) == (bounds.has(moment) && !covers(verified, moment)),
    ensures
        bounds.has(moment) == (covers(clipped, moment) || covers(missing, moment)),
        !(covers(clipped, moment) && covers(missing, moment)),
{
}

} // verus!
