//! What a journal keeps over its whole life: whatever was appended is read back.

use crate::digest::{hex, sha256};
use crate::live::journal::{
    base_name, chain_refusal, is_segment, names_segment, records_of, segment_set, segment_text,
    steps, unmarked, walk, zero_hash, Found, Journal, Line, Record, Restore, Restored, SegmentFile,
    OPEN_SEGMENT, UPLOADED,
};
use crate::table::{in_order, lists, one_listing};
use crate::text::{
    ascii_order, finishes_with, fixed_width, fixed_width_order, fixed_width_value, is_numeral,
    text_before, twenty_digits,
};
use vstd::prelude::*;

verus! {

/// A journal and the files it stands on: the closed segments in order and the open tail.
pub struct Spool {
    pub journal: Journal,
    pub closed: Seq<SegmentFile>,
    pub tail: SegmentFile,
}

impl Spool {
    /// All files, the open one last.
    pub open spec fn files(self) -> Seq<SegmentFile> {
        self.closed.push(self.tail)
    }

    /// Whether opening the files leads to the very position of the journal: the closed ones are
    /// named as segments, perhaps marked, and their records continue each other.
    pub open spec fn reopens(self) -> bool {
        let deployment = self.journal.deployment@;
        let end = walk(self.files(), deployment, self.files().len());
        &&& self.journal.wf()
        &&& self.tail.name@ == OPEN_SEGMENT@
        &&& forall|i: int|
            0 <= i < self.closed.len() ==> is_segment(
                base_name((#[trigger] self.closed[i]).name@, true),
            )
        &&& end.refused is None
        &&& end.sequence == self.journal.next_sequence
        &&& end.hash == self.journal.previous_sha256@
        &&& walk(self.files(), deployment, self.closed.len()).sequence == self.journal.first
    }

    /// The names of the closed segments.
    pub open spec fn names(self) -> Seq<Seq<char>> {
        self.closed.map_values(|file: SegmentFile| file.name@)
    }

    /// The records that opening the files gives back.
    pub open spec fn records(self) -> Seq<Record> {
        walk(self.files(), self.journal.deployment@, self.files().len()).records
    }
}

/// Whether a journal is new: nothing closed and nothing written.
pub open spec fn is_new(spool: Spool) -> bool {
    &&& spool.journal.wf()
    &&& spool.journal.first == 1
    &&& spool.journal.next_sequence == 1
    &&& spool.journal.previous_sha256@ == zero_hash()
    &&& spool.closed.len() == 0
    &&& spool.tail.name@ == OPEN_SEGMENT@
    &&& spool.tail.lines@.len() == 0
}

/// Whether a journal went from one state to another by appending a record: the record is the
/// next one, its line is written behind the open segment, and the line decodes to the record.
pub open spec fn appends(before: Spool, after: Spool, record: Record) -> bool {
    let line = after.tail.lines@.last();
    &&& before.journal.next_sequence < u64::MAX
    &&& record.sequence == before.journal.next_sequence
    &&& record.previous_sha256 == before.journal.previous_sha256
    &&& record.deployment == before.journal.deployment
    &&& after.closed == before.closed
    &&& after.tail.name == before.tail.name
    &&& after.tail.lines@ == before.tail.lines@.push(line)
    &&& line.complete
    &&& line.record == Ok::<Record, String>(record)
    &&& after.journal.wf()
    &&& after.journal.deployment == before.journal.deployment
    &&& after.journal.first == before.journal.first
    &&& after.journal.next_sequence == before.journal.next_sequence + 1
    &&& after.journal.previous_sha256@ == hex(sha256(line.bytes@))
}

/// Whether a journal went from one state to another by closing its nonempty open segment.
pub open spec fn rotates(before: Spool, after: Spool) -> bool {
    let closed = after.closed.last();
    &&& before.journal.first < before.journal.next_sequence
    &&& after.closed == before.closed.push(closed)
    &&& closed.name@ == segment_text(
        before.journal.first as nat,
        (before.journal.next_sequence - 1) as nat,
    )
    &&& closed.lines == before.tail.lines
    &&& after.tail.name@ == OPEN_SEGMENT@
    &&& after.tail.lines@.len() == 0
    &&& after.journal.wf()
    &&& after.journal.deployment == before.journal.deployment
    &&& after.journal.next_sequence == before.journal.next_sequence
    &&& after.journal.previous_sha256 == before.journal.previous_sha256
    &&& after.journal.first == after.journal.next_sequence
}

/// Whether a journal went from one state to another by marking a closed segment as uploaded.
pub open spec fn marks(before: Spool, after: Spool, at: int) -> bool {
    let marked = after.closed[at];
    &&& 0 <= at < before.closed.len()
    &&& is_segment(before.closed[at].name@)
    &&& marked.name@ == before.closed[at].name@ + UPLOADED@
    &&& marked.lines == before.closed[at].lines
    &&& after.closed == before.closed.update(at, marked)
    &&& after.tail == before.tail
    &&& after.journal == before.journal
}

/// Whether a journal went from one state to another by being opened again, perhaps with another
/// segment size: the position is the one that its files lead to.
pub open spec fn restarts(before: Spool, after: Spool) -> bool {
    let deployment = before.journal.deployment@;
    let end = walk(before.files(), deployment, before.files().len());
    &&& after.closed == before.closed
    &&& after.tail == before.tail
    &&& after.journal.wf()
    &&& after.journal.deployment == before.journal.deployment
    &&& after.journal.next_sequence == end.sequence
    &&& after.journal.previous_sha256@ == end.hash
    &&& after.journal.first == walk(before.files(), deployment, before.closed.len()).sequence
}

/// One thing that happens to a journal.
pub enum Step {
    Append { record: Record },
    Rotate,
    Mark { at: int },
    Restart,
}

/// Whether a step leads from one state to another.
pub open spec fn leads(before: Spool, step: Step, after: Spool) -> bool {
    match step {
        Step::Append { record } => appends(before, after, record),
        Step::Rotate => rotates(before, after),
        Step::Mark { at } => marks(before, after, at),
        Step::Restart => restarts(before, after),
    }
}

/// Whether states follow each other by steps, from a new journal on.
pub open spec fn is_history(states: Seq<Spool>, steps: Seq<Step>) -> bool {
    &&& states.len() == steps.len() + 1
    &&& is_new(states[0])
    &&& forall|i: int|
        0 <= i < steps.len() ==> leads(states[i], #[trigger] steps[i], states[i + 1])
}

/// The records that steps appended, in order.
pub open spec fn written(steps: Seq<Step>) -> Seq<Record>
    decreases steps.len(),
{
    if steps.len() == 0 {
        Seq::empty()
    } else {
        let before = written(steps.drop_last());
        match steps.last() {
            Step::Append { record } => before.push(record),
            _ => before,
        }
    }
}

/// Whether reading accepts a file exactly where it accepts another.
spec fn alike(a: SegmentFile, b: SegmentFile) -> bool {
    &&& a.lines@ == b.lines@
    &&& a.name@ == b.name@ || (a.name@ != OPEN_SEGMENT@ && b.name@ != OPEN_SEGMENT@ && unmarked(
        a.name@,
    ) == unmarked(b.name@))
}

proof fn acceptance_needs_no_name(
    lines: Seq<Line>,
    a: Seq<char>,
    b: Seq<char>,
    deployment: Seq<char>,
    first: u64,
    previous: Option<Seq<char>>,
    count: nat,
)
    ensures
        chain_refusal(lines, a, deployment, first, previous, count) is None == chain_refusal(
            lines,
            b,
            deployment,
            first,
            previous,
            count,
        ) is None,
    decreases count,
{
    if count > 0 {
        acceptance_needs_no_name(lines, a, b, deployment, first, previous, (count - 1) as nat);
    }
}

proof fn alike_files_walk_alike(
    a: Seq<SegmentFile>,
    b: Seq<SegmentFile>,
    deployment: Seq<char>,
    count: nat,
)
    requires
        forall|k: int| 0 <= k < count ==> alike(#[trigger] a[k], b[k]),
        walk(a, deployment, count).refused is None,
    ensures
        walk(b, deployment, count) == walk(a, deployment, count),
    decreases count,
{
    if count > 0 {
        alike_files_walk_alike(a, b, deployment, (count - 1) as nat);
        let before = walk(a, deployment, (count - 1) as nat);
        assert(alike(a[count - 1], b[count - 1]));
        acceptance_needs_no_name(
            a[count - 1].lines@,
            a[count - 1].name@,
            b[count - 1].name@,
            deployment,
            before.sequence as u64,
            Some(before.hash),
            a[count - 1].lines@.len(),
        );
    }
}

proof fn refusal_of_a_beginning(
    lines: Seq<Line>,
    next: Line,
    name: Seq<char>,
    deployment: Seq<char>,
    first: u64,
    previous: Option<Seq<char>>,
    count: nat,
)
    requires
        count <= lines.len(),
    ensures
        chain_refusal(lines.push(next), name, deployment, first, previous, count)
            == chain_refusal(lines, name, deployment, first, previous, count),
    decreases count,
{
    if count > 0 {
        refusal_of_a_beginning(
            lines,
            next,
            name,
            deployment,
            first,
            previous,
            (count - 1) as nat,
        );
    }
}

proof fn an_append_reopens(before: Spool, after: Spool, record: Record)
    requires
        before.reopens(),
        appends(before, after, record),
    ensures
        after.reopens(),
        after.records() == before.records().push(record),
{
    let deployment = before.journal.deployment@;
    let count = before.closed.len();
    alike_files_walk_alike(before.files(), after.files(), deployment, count);
    let begun = walk(before.files(), deployment, count);
    let lines = before.tail.lines@;
    let line = after.tail.lines@.last();
    refusal_of_a_beginning(
        lines,
        line,
        OPEN_SEGMENT@,
        deployment,
        begun.sequence as u64,
        Some(begun.hash),
        lines.len(),
    );
    assert(records_of(lines.push(line)) =~= records_of(lines).push(record));
    assert(begun.records + records_of(lines.push(line)) =~= (begun.records + records_of(
        lines,
    )).push(record));
}

proof fn a_segment_has_no_mark(first: u64, last: u64)
    ensures
        ({
            let name = segment_text(first as nat, last as nat);
            &&& unmarked(name) == name
            &&& unmarked(name + UPLOADED@) == name
            &&& name != OPEN_SEGMENT@
            &&& name + UPLOADED@ != OPEN_SEGMENT@
            &&& base_name(name, true) == name
            &&& base_name(name + UPLOADED@, true) == name
        }),
{
    let name = segment_text(first as nat, last as nat);
    reveal_strlit("-");
    reveal_strlit(".jsonl");
    reveal_strlit("open.jsonl");
    reveal_strlit(".uploaded");
    twenty_digits(first);
    twenty_digits(last);
    fixed_width_value(first as nat, 20);
    fixed_width_value(last as nat, 20);
    assert(name.len() == 47);
    assert(name.last() == 'l');
    assert(!finishes_with(name, UPLOADED@)) by {
        if finishes_with(name, UPLOADED@) {
            assert(name.subrange(name.len() - 9, name.len() as int).last() == 'd');
        }
    }
    let marked = name + UPLOADED@;
    assert(marked.subrange(marked.len() - 9, marked.len() as int) =~= UPLOADED@);
    assert(marked.subrange(0, marked.len() - 9) =~= name);
    reveal_with_fuel(unmarked, 3);
}

proof fn a_rotation_reopens(before: Spool, after: Spool)
    requires
        before.reopens(),
        rotates(before, after),
    ensures
        after.reopens(),
        after.records() == before.records(),
{
    let deployment = before.journal.deployment@;
    let count = before.closed.len();
    alike_files_walk_alike(before.files(), after.files(), deployment, count);
    let begun = walk(before.files(), deployment, count);
    let closed = after.closed.last();
    a_segment_has_no_mark(before.journal.first, (before.journal.next_sequence - 1) as u64);
    assert(names_segment(
        closed.name@,
        before.journal.first,
        (before.journal.next_sequence - 1) as u64,
    ));
    acceptance_needs_no_name(
        closed.lines@,
        before.tail.name@,
        closed.name@,
        deployment,
        begun.sequence as u64,
        Some(begun.hash),
        closed.lines@.len(),
    );
    let ended = walk(after.files(), deployment, count + 1);
    assert(after.files()[count as int] == closed);
    assert(ended == walk(before.files(), deployment, count + 1));
    assert(after.files()[count as int + 1] == after.tail);
    assert(records_of(after.tail.lines@) =~= Seq::empty());
    assert(ended.records + Seq::empty() =~= ended.records);
}

proof fn a_mark_reopens(before: Spool, after: Spool, at: int)
    requires
        before.reopens(),
        marks(before, after, at),
    ensures
        after.reopens(),
        after.records() == before.records(),
{
    let deployment = before.journal.deployment@;
    let name = before.closed[at].name@;
    let (first, last) = choose|first: u64, last: u64| names_segment(name, first, last);
    a_segment_has_no_mark(first, last);
    alike_files_walk_alike(before.files(), after.files(), deployment, before.files().len());
    alike_files_walk_alike(before.files(), after.files(), deployment, before.closed.len());
}

proof fn a_step_reopens(before: Spool, step: Step, after: Spool)
    requires
        before.reopens(),
        leads(before, step, after),
    ensures
        after.reopens(),
        after.journal.deployment == before.journal.deployment,
        after.records() == (match step {
            Step::Append { record } => before.records().push(record),
            _ => before.records(),
        }),
{
    match step {
        Step::Append { record } => an_append_reopens(before, after, record),
        Step::Rotate => a_rotation_reopens(before, after),
        Step::Mark { at } => a_mark_reopens(before, after, at),
        Step::Restart => {},
    }
}

/// Whatever is appended is kept: after any appends, rotations, upload marks and restarts a
/// journal opens again, at the position where it stands, with every record that was appended, in
/// order. The next sequence number is one more than their number.
pub proof fn a_journal_gives_back_what_was_appended(states: Seq<Spool>, steps: Seq<Step>)
    requires
        is_history(states, steps),
    ensures
        states.last().reopens(),
        states.last().records() == written(steps),
        states.last().journal.next_sequence == written(steps).len() + 1,
    decreases steps.len(),
{
    if steps.len() == 0 {
        let spool = states.last();
        reveal_with_fuel(walk, 2);
        assert(records_of(spool.tail.lines@) =~= Seq::empty());
        assert(spool.records() =~= Seq::empty());
    } else {
        let at = steps.len() - 1;
        let earlier = states.drop_last();
        let done = steps.drop_last();
        assert forall|i: int| 0 <= i < done.len() implies leads(
            earlier[i],
            #[trigger] done[i],
            earlier[i + 1],
        ) by {
            assert(leads(states[i], steps[i], states[i + 1]));
        }
        a_journal_gives_back_what_was_appended(earlier, done);
        assert(leads(states[at], steps[at], states[at + 1]));
        a_step_reopens(states[at], steps[at], states[at + 1]);
    }
}

proof fn sequences_grow(files: Seq<SegmentFile>, deployment: Seq<char>, i: nat, j: nat)
    requires
        i <= j,
        walk(files, deployment, j).refused is None,
    ensures
        walk(files, deployment, i).refused is None,
        walk(files, deployment, i).sequence <= walk(files, deployment, j).sequence,
    decreases j,
{
    if i < j {
        sequences_grow(files, deployment, i, (j - 1) as nat);
    }
}

/// What the name of a closed segment is: the numbers of its first and last record, and perhaps
/// the mark.
proof fn a_name_tells_the_records(spool: Spool, i: int) -> (range: (u64, u64))
    requires
        spool.reopens(),
        0 <= i < spool.closed.len(),
    ensures
        ({
            let (first, next) = range;
            let deployment = spool.journal.deployment@;
            let name = spool.closed[i].name@;
            let text = segment_text(first as nat, (next - 1) as nat);
            &&& first == walk(spool.files(), deployment, i as nat).sequence
            &&& next == walk(spool.files(), deployment, (i + 1) as nat).sequence
            &&& first < next
            &&& name == text || name == text + UPLOADED@
        }),
{
    let deployment = spool.journal.deployment@;
    let files = spool.files();
    let name = spool.closed[i].name@;
    sequences_grow(files, deployment, (i + 1) as nat, files.len());
    sequences_grow(files, deployment, i as nat, (i + 1) as nat);
    let first = walk(files, deployment, i as nat).sequence;
    let next = walk(files, deployment, (i + 1) as nat).sequence;
    assert(files[i] == spool.closed[i]);
    let base = base_name(name, true);
    let (a, b) = choose|a: u64, b: u64| names_segment(base, a, b);
    a_segment_has_no_mark(a, b);
    if finishes_with(name, UPLOADED@) {
        assert(name =~= base + UPLOADED@);
    }
    (first as u64, next as u64)
}

proof fn segment_names_are_ascii(first: u64, last: u64)
    ensures
        vstd::utf8::is_ascii_chars(segment_text(first as nat, last as nat)),
        vstd::utf8::is_ascii_chars(segment_text(first as nat, last as nat) + UPLOADED@),
{
    reveal_strlit("-");
    reveal_strlit(".jsonl");
    reveal_strlit(".uploaded");
    twenty_digits(first);
    twenty_digits(last);
    fixed_width_value(first as nat, 20);
    fixed_width_value(last as nat, 20);
    assert(is_numeral(fixed_width(first as nat, 20)));
    assert(is_numeral(fixed_width(last as nat, 20)));
}

proof fn earlier_segments_come_first(spool: Spool, i: int, j: int)
    requires
        spool.reopens(),
        0 <= i < j < spool.closed.len(),
    ensures
        text_before(spool.closed[i].name@, spool.closed[j].name@),
{
    let (first, next) = a_name_tells_the_records(spool, i);
    let (later, end) = a_name_tells_the_records(spool, j);
    let deployment = spool.journal.deployment@;
    sequences_grow(spool.files(), deployment, j as nat, spool.files().len());
    sequences_grow(spool.files(), deployment, (i + 1) as nat, j as nat);
    segment_names_are_ascii(first, (next - 1) as u64);
    segment_names_are_ascii(later, (end - 1) as u64);
    twenty_digits(later);
    let a = spool.closed[i].name@;
    let b = spool.closed[j].name@;
    let x = fixed_width(first as nat, 20);
    let y = fixed_width(later as nat, 20);
    let at = fixed_width_order(first as nat, later as nat, 20);
    assert(a.take(20) =~= x);
    assert(b.take(20) =~= y);
    assert(a.take(at) =~= x.take(at));
    assert(b.take(at) =~= y.take(at));
    assert(a[at] == a.take(20)[at] && b[at] == b.take(20)[at]);
    ascii_order(a, b, at);
}

/// A directory lists the closed segments in the order in which they continue each other: whatever
/// else it holds, the segments found among its names are those of the journal, in order.
pub proof fn a_directory_lists_a_journal_in_order(spool: Spool, names: Seq<String>)
    requires
        spool.reopens(),
        segment_set(names, true) == spool.names().to_set(),
    ensures
        in_order(segment_set(names, true)) == spool.names(),
{
    let own = spool.names();
    assert forall|i: int, j: int| 0 <= i < j < own.len() implies text_before(own[i], own[j]) by {
        earlier_segments_come_first(spool, i, j);
    }
    assert(lists(own, segment_set(names, true)));
    one_listing(in_order(segment_set(names, true)), own);
}

/// Whether a restore went through: it started at the first record, looked for a segment at every
/// step, and answered for each what a step answers, the end at the last.
pub open spec fn is_restored(
    states: Seq<Restore>,
    found: Seq<Found>,
    done: Seq<Result<Restored, String>>,
    count: u64,
) -> bool {
    &&& found.len() > 0
    &&& states.len() == found.len() + 1
    &&& done.len() == found.len()
    &&& states[0].segment_records > 0
    &&& states[0].first == 1
    &&& states[0].restored == 0
    &&& !states[0].over
    &&& forall|k: int|
        0 <= k < found.len() ==> states[k].looks() && steps(
            states[k],
            #[trigger] found[k],
            states[k + 1],
            done[k],
        )
    &&& forall|k: int|
        0 <= k < found.len() - 1 ==> (#[trigger] done[k] matches Ok(Restored::Next(_)))
    &&& done.last() == Ok::<Restored, String>(Restored::End(count))
}

/// How many of the first `count` segments the archive gave.
pub open spec fn given(found: Seq<Found>, count: nat) -> nat
    decreases count,
{
    if count == 0 {
        0
    } else {
        given(found, (count - 1) as nat) + (if found[count - 1] is Archived {
            1nat
        } else {
            0nat
        })
    }
}

proof fn restored_so_far(
    states: Seq<Restore>,
    found: Seq<Found>,
    done: Seq<Result<Restored, String>>,
    count: u64,
    k: int,
)
    requires
        is_restored(states, found, done, count),
        0 <= k < found.len(),
    ensures
        states[k].deployment == states[0].deployment,
        states[k].segment_records == states[0].segment_records,
        states[k].first == k * states[0].segment_records + 1,
        states[k].restored == given(found, k as nat),
        given(found, k as nat) <= k,
        k <= states[k].first,
    decreases k,
{
    let n = states[0].segment_records as int;
    if k > 0 {
        restored_so_far(states, found, done, count, k - 1);
        assert(steps(states[k - 1], found[k - 1], states[k], done[k - 1]));
        assert(done[k - 1] matches Ok(Restored::Next(_)));
        let here = found[k];
        assert(states[k].looks());
        assert(k * n == (k - 1) * n + n) by (nonlinear_arith);
        assert(k * n >= k) by (nonlinear_arith)
            requires
                n >= 1,
                k >= 0,
        ;
    }
}

/// What a restore does: it looks for the full segments one after the other from the first record
/// on. Those that are there are passed over, whether they are marked or not. The walk ends at the
/// first that is neither there nor archived. Each that the archive gave is written as it is under
/// its marked name, and their number is counted.
pub proof fn a_restore_walks_to_the_first_gap(
    states: Seq<Restore>,
    found: Seq<Found>,
    done: Seq<Result<Restored, String>>,
    count: u64,
    k: int,
)
    requires
        is_restored(states, found, done, count),
        0 <= k < found.len(),
    ensures
        ({
            let n = states[0].segment_records as int;
            let name = segment_text((k * n + 1) as nat, ((k + 1) * n) as nat);
            &&& states[k].deployment == states[0].deployment
            &&& states[k].name() == name
            &&& (found[k] is Absent) == (k == found.len() - 1)
            &&& found[k] is Present ==> done[k] == Ok::<Restored, String>(Restored::Next(None))
            &&& found[k] matches Found::Archived { bytes, .. } ==> (done[k] matches Ok(
                Restored::Next(Some((written, contents))),
            ) && written@ == name + UPLOADED@ && contents == bytes)
            &&& count == given(found, found.len())
        }),
{
    let n = states[0].segment_records as int;
    restored_so_far(states, found, done, count, k);
    assert((k + 1) * n == k * n + n) by (nonlinear_arith);
    assert(steps(states[k], found[k], states[k + 1], done[k]));
    let end = found.len() - 1;
    restored_so_far(states, found, done, count, end);
    assert(steps(states[end], found[end], states[end + 1], done[end]));
    if k < end {
        assert(done[k] matches Ok(Restored::Next(_)));
    }
}

} // verus!
