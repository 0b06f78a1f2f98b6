//! Append-only records and immutable closed journal segments.

pub mod laws;

use crate::digest::{digest, hex, sha256};
use crate::live::finance::{FinancialEvent, Proposal};
use crate::table::{in_order, Table};
use crate::text::{
    append_decimal, append_fixed_width, decimal, finishes_with, fixed_width, fixed_width_value,
    is_numeral, join, join3, numeral_is_fixed_width, numeral_value, parse_digits, refusal,
    same_text, strip_suffix, text_of, twenty_digits,
};
use vstd::prelude::*;
use vstd::string::*;

verus! {

/// What happened to a lease.
#[derive(Debug, Clone, Copy, PartialEq, Eq, Structural)]
pub enum LeaseState {
    Acquired,
    Renewed,
    Released,
    Lost,
}

/// What a journal record says.
#[derive(Debug)]
pub enum RecordKind {
    Started { config_hash: String, definition: String, code_revision: String },
    Ledger { event: FinancialEvent },
    Refused { binding: String, proposal: Option<Proposal>, reason: String },
    DueTick { command: String, provider_time_micros: i64, price_units: i64 },
    Claimed { command: String, claim: String, token: u64 },
    Written { command: String, claim: String },
    Lease { state: LeaseState, token: u64 },
    Discontinuity { reason: String },
    Segment { closed: u64 },
}

/// One record of the journal.
#[derive(Debug)]
pub struct Record {
    pub sequence: u64,
    pub previous_sha256: String,
    pub time_micros: i64,
    pub deployment: String,
    pub kind: RecordKind,
}

/// The name of the segment that is still open.
pub const OPEN_SEGMENT: &'static str = "open.jsonl";

/// The mark on a segment that was uploaded.
pub const UPLOADED: &'static str = ".uploaded";

/// The name of a closed segment: its first and last sequence numbers.
pub open spec fn segment_text(first: nat, last: nat) -> Seq<char> {
    fixed_width(first, 20) + "-"@ + fixed_width(last, 20) + ".jsonl"@
}

/// The name of a closed segment.
pub fn segment_name(first: u64, last: u64) -> (name: String)
    ensures
        name@ == segment_text(first as nat, last as nat),
{
    let mut name = String::new();
    append_fixed_width(&mut name, first, 20);
    name.append("-");
    append_fixed_width(&mut name, last, 20);
    name.append(".jsonl");
    name
}

/// Whether a name is that of the closed segment with these sequence numbers.
pub open spec fn names_segment(name: Seq<char>, first: u64, last: u64) -> bool {
    0 < first <= last && name == segment_text(first as nat, last as nat)
}

proof fn segment_parts(first: u64, last: u64)
    ensures
        ({
            let name = segment_text(first as nat, last as nat);
            &&& name.len() == 47
            &&& name.subrange(0, 20) == fixed_width(first as nat, 20)
            &&& name[20] == '-'
            &&& name.subrange(21, 41) == fixed_width(last as nat, 20)
            &&& name.subrange(41, 47) == ".jsonl"@
        }),
{
    reveal_strlit("-");
    reveal_strlit(".jsonl");
    twenty_digits(first);
    twenty_digits(last);
    fixed_width_value(first as nat, 20);
    fixed_width_value(last as nat, 20);
    let name = segment_text(first as nat, last as nat);
    assert(name.subrange(0, 20) =~= fixed_width(first as nat, 20));
    assert(name.subrange(21, 41) =~= fixed_width(last as nat, 20));
    assert(name.subrange(41, 47) =~= ".jsonl"@);
}

/// A segment's name tells which records it holds: no two ranges share a name.
pub proof fn segment_names_differ(a: u64, b: u64, c: u64, d: u64)
    requires
        segment_text(a as nat, b as nat) == segment_text(c as nat, d as nat),
    ensures
        a == c && b == d,
{
    segment_parts(a, b);
    segment_parts(c, d);
    twenty_digits(a);
    twenty_digits(b);
    twenty_digits(c);
    twenty_digits(d);
    fixed_width_value(a as nat, 20);
    fixed_width_value(b as nat, 20);
    fixed_width_value(c as nat, 20);
    fixed_width_value(d as nat, 20);
}

/// Reads the sequence numbers of a closed segment back from its name.
pub fn segment_range(name: &str) -> (range: Option<(u64, u64)>)
    ensures
        range matches Some((first, last)) ==> names_segment(name@, first, last),
        range is None ==> forall|first: u64, last: u64| !names_segment(name@, first, last),
{
    proof {
        reveal_strlit("-");
        assert forall|first: u64, last: u64| names_segment(name@, first, last) implies {
            &&& name@.len() == 47
            &&& name@[20] == '-'
            &&& name@.subrange(41, 47) == ".jsonl"@
            &&& is_numeral(name@.subrange(0, 20))
            &&& numeral_value(name@.subrange(0, 20)) == first
            &&& is_numeral(name@.subrange(21, 41))
            &&& numeral_value(name@.subrange(21, 41)) == last
        } by {
            segment_parts(first, last);
            twenty_digits(first);
            twenty_digits(last);
            fixed_width_value(first as nat, 20);
            fixed_width_value(last as nat, 20);
        }
    }
    if name.unicode_len() != 47 || name.get_char(20) != '-' || !same_text(
        name.substring_char(41, 47),
        ".jsonl",
    ) {
        return None;
    }
    match (parse_digits(name, 0, 20), parse_digits(name, 21, 41)) {
        (Some(first), Some(last)) => {
            if first > 0 && last >= first {
                proof {
                    numeral_is_fixed_width(name@.subrange(0, 20));
                    numeral_is_fixed_width(name@.subrange(21, 41));
                    assert(name@ =~= name@.subrange(0, 20) + "-"@ + name@.subrange(21, 41)
                        + name@.subrange(41, 47));
                }
                Some((first, last))
            } else {
                None
            }
        },
        _ => None,
    }
}

/// Whether a name is that of a closed segment.
pub open spec fn is_segment(name: Seq<char>) -> bool {
    exists|first: u64, last: u64| names_segment(name, first, last)
}

/// Whether a name is that of a closed segment.
pub fn valid_segment(name: &str) -> (valid: bool)
    ensures
        valid == is_segment(name@),
{
    match segment_range(name) {
        Some((first, last)) => {
            assert(names_segment(name@, first, last));
            true
        },
        None => false,
    }
}

/// One line of a segment: its bytes without the newline, whether the newline was there, and what
/// the bytes decode to.
#[derive(Debug)]
pub struct Line {
    pub bytes: Vec<u8>,
    pub complete: bool,
    pub record: Result<Record, String>,
}

/// Whether lines are those of some bytes: every line but the last ends with its newline, no line
/// holds one, and nothing is lost.
pub open spec fn lines_of(lines: Seq<(Vec<u8>, bool)>, bytes: Seq<u8>) -> bool
    decreases lines.len(),
{
    if lines.len() == 0 {
        bytes.len() == 0
    } else {
        let (line, complete) = lines.last();
        let ended = if complete {
            line@.push(10)
        } else {
            line@
        };
        &&& !line@.contains(10)
        &&& !complete ==> line@.len() > 0
        &&& ended.len() <= bytes.len()
        &&& bytes.subrange(bytes.len() - ended.len(), bytes.len() as int) == ended
        &&& lines_of(lines.drop_last(), bytes.subrange(0, bytes.len() - ended.len()))
        &&& forall|i: int| 0 <= i < lines.len() - 1 ==> (#[trigger] lines[i]).1
    }
}

/// Splits bytes into lines.
pub fn split_lines(bytes: &[u8]) -> (lines: Vec<(Vec<u8>, bool)>)
    ensures
        lines_of(lines@, bytes@),
{
    let mut lines: Vec<(Vec<u8>, bool)> = Vec::new();
    let mut line: Vec<u8> = Vec::new();
    let mut i: usize = 0;
    let ghost mut done: int = 0;
    assert(bytes@.subrange(0, 0) =~= Seq::empty());
    while i < bytes.len()
        invariant
            i <= bytes@.len(),
            done + line@.len() == i,
            0 <= done,
            !line@.contains(10),
            line@ == bytes@.subrange(done, i as int),
            lines_of(lines@, bytes@.subrange(0, done)),
            forall|j: int| 0 <= j < lines@.len() ==> (#[trigger] lines@[j]).1,
        decreases bytes@.len() - i,
    {
        let byte: u8 = bytes[i];
        i = i + 1;
        if byte == 10 {
            let ghost before = lines@;
            let ghost text = line@;
            let mut next: Vec<u8> = Vec::new();
            std::mem::swap(&mut next, &mut line);
            lines.push((next, true));
            proof {
                assert(lines@.drop_last() =~= before);
                let whole = bytes@.subrange(0, i as int);
                let ended = text.push(10);
                assert(whole.subrange(whole.len() - ended.len(), whole.len() as int) =~= ended);
                assert(whole.subrange(0, whole.len() - ended.len()) =~= bytes@.subrange(0, done));
                done = i as int;
                assert(line@ =~= bytes@.subrange(done, i as int));
            }
        } else {
            let ghost text = line@;
            line.push(byte);
            proof {
                assert(line@ =~= bytes@.subrange(done, i as int));
                assert forall|k: int| 0 <= k < line@.len() implies line@[k] != 10 by {
                    if k < text.len() {
                        assert(text.contains(text[k]));
                    }
                }
            }
        }
    }
    if line.len() > 0 {
        let ghost before = lines@;
        let ghost text = line@;
        lines.push((line, false));
        proof {
            assert(lines@.drop_last() =~= before);
            assert(bytes@.subrange(bytes@.len() - text.len(), bytes@.len() as int) =~= text);
            assert(bytes@.subrange(0, bytes@.len() - text.len()) =~= bytes@.subrange(0, done));
        }
    } else {
        assert(bytes@.subrange(0, done) =~= bytes@);
    }
    lines
}

/// The message of a record that does not continue the chain.
pub open spec fn record_message(sequence: nat, name: Seq<char>, reason: Seq<char>) -> Seq<char> {
    "journal record "@ + decimal(sequence) + " in "@ + name + ": "@ + reason
}

/// The hash that the record after a line must carry.
pub open spec fn line_hash(line: Line) -> Seq<char> {
    hex(sha256(line.bytes@))
}

/// Why a line does not continue a chain at `sequence` after a record with hash `previous`.
pub open spec fn line_refusal(
    line: Line,
    name: Seq<char>,
    deployment: Seq<char>,
    sequence: u64,
    previous: Option<Seq<char>>,
) -> Option<Seq<char>> {
    if !line.complete {
        Some(record_message(sequence as nat, name, "incomplete line"@))
    } else {
        match line.record {
            Err(error) => Some(record_message(sequence as nat, name, error@)),
            Ok(record) => if record.sequence != sequence {
                Some(
                    record_message(
                        sequence as nat,
                        name,
                        "sequence mismatch: found "@ + decimal(record.sequence as nat),
                    ),
                )
            } else if record.deployment@ != deployment {
                Some(record_message(sequence as nat, name, "deployment mismatch"@))
            } else if previous is Some && record.previous_sha256@ != previous->0 {
                Some(record_message(sequence as nat, name, "previous hash mismatch"@))
            } else if sequence == u64::MAX {
                Some("journal sequence overflow"@)
            } else {
                None
            },
        }
    }
}

/// The hash after the first `count` lines.
pub open spec fn hash_after(
    lines: Seq<Line>,
    previous: Option<Seq<char>>,
    count: int,
) -> Option<Seq<char>> {
    if count > 0 {
        Some(line_hash(lines[count - 1]))
    } else {
        previous
    }
}

/// Why the first `count` lines do not continue a chain: the first line that does not.
pub open spec fn chain_refusal(
    lines: Seq<Line>,
    name: Seq<char>,
    deployment: Seq<char>,
    first: u64,
    previous: Option<Seq<char>>,
    count: nat,
) -> Option<Seq<char>>
    decreases count,
{
    if count == 0 {
        None
    } else {
        let earlier = chain_refusal(lines, name, deployment, first, previous, (count - 1) as nat);
        if earlier is Some {
            earlier
        } else {
            line_refusal(
                lines[count - 1],
                name,
                deployment,
                (first + count - 1) as u64,
                hash_after(lines, previous, count - 1),
            )
        }
    }
}

/// A name without the marks of an upload.
pub open spec fn unmarked(name: Seq<char>) -> Seq<char>
    decreases name.len(),
{
    if UPLOADED@.len() > 0 && finishes_with(name, UPLOADED@) {
        unmarked(name.subrange(0, name.len() - UPLOADED@.len()))
    } else {
        name
    }
}

/// Why a segment cannot be read.
pub open spec fn segment_refusal(
    lines: Seq<Line>,
    name: Seq<char>,
    deployment: Seq<char>,
    first: u64,
    previous: Option<Seq<char>>,
) -> Option<Seq<char>> {
    let broken = chain_refusal(lines, name, deployment, first, previous, lines.len());
    if broken is Some {
        broken
    } else if name != OPEN_SEGMENT@ && (lines.len() == 0 || unmarked(name) != segment_text(
        first as nat,
        (first + lines.len() - 1) as nat,
    )) {
        Some("journal segment "@ + name + ": record range mismatch"@)
    } else {
        None
    }
}

/// The records of lines that all decode.
pub open spec fn records_of(lines: Seq<Line>) -> Seq<Record> {
    lines.map_values(|line: Line| line.record->Ok_0)
}

/// The hash of the first record's missing predecessor.
pub open spec fn zero_hash() -> Seq<char> {
    Seq::new(64, |i: int| '0')
}

fn zero_text() -> (text: String)
    ensures
        text@ == zero_hash(),
{
    proof {
        reveal_strlit("0000000000000000000000000000000000000000000000000000000000000000");
        assert("0000000000000000000000000000000000000000000000000000000000000000"@ =~= zero_hash());
    }
    "0000000000000000000000000000000000000000000000000000000000000000".to_owned()
}

fn strip_marks(name: &str) -> (base: String)
    ensures
        base@ == unmarked(name@),
{
    proof {
        reveal_strlit(".uploaded");
    }
    let mut base = name.to_owned();
    loop
        invariant
            unmarked(base@) == unmarked(name@),
            UPLOADED@.len() > 0,
        ensures
            base@ == unmarked(name@),
        decreases base@.len(),
    {
        let shorter = match strip_suffix(base.as_str(), UPLOADED) {
            Some(rest) => rest.to_owned(),
            None => {
                break;
            },
        };
        base = shorter;
    }
    base
}

fn record_error(sequence: u64, name: &str, reason: &str) -> (message: String)
    ensures
        message@ == record_message(sequence as nat, name@, reason@),
{
    let mut message = String::from_str("journal record ");
    append_decimal(&mut message, sequence);
    message.append(" in ");
    message.append(name);
    message.append(": ");
    message.append(reason);
    message
}

proof fn chain_refusal_stands(
    lines: Seq<Line>,
    name: Seq<char>,
    deployment: Seq<char>,
    first: u64,
    previous: Option<Seq<char>>,
    count: nat,
    total: nat,
)
    requires
        count <= total,
        chain_refusal(lines, name, deployment, first, previous, count) is Some,
    ensures
        chain_refusal(lines, name, deployment, first, previous, total) == chain_refusal(
            lines,
            name,
            deployment,
            first,
            previous,
            count,
        ),
    decreases total,
{
    if count < total {
        chain_refusal_stands(lines, name, deployment, first, previous, count, (total - 1) as nat);
    }
}

fn last_first(lines: Vec<Line>) -> (reversed: Vec<Line>)
    ensures
        reversed@ == lines@.reverse(),
{
    let ghost all = lines@;
    let mut lines = lines;
    let mut reversed: Vec<Line> = Vec::new();
    while lines.len() > 0
        invariant
            lines@.len() + reversed@.len() == all.len(),
            lines@ == all.take(lines@.len() as int),
            forall|k: int|
                0 <= k < reversed@.len() ==> #[trigger] reversed@[k] == all[all.len() - 1 - k],
        decreases lines@.len(),
    {
        if let Some(line) = lines.pop() {
            reversed.push(line);
        }
    }
    assert(reversed@ =~= all.reverse());
    reversed
}

/// Reads one segment: every line must be complete, decode, and continue the chain of sequence
/// numbers, deployment and previous hashes; a closed segment must hold exactly the records that
/// its name says. Without `previous` the first record's hash is taken on trust.
pub fn read_records(
    lines: Vec<Line>,
    name: &str,
    deployment: &str,
    first: u64,
    previous: Option<String>,
) -> (read: Result<(Vec<Record>, String), String>)
    ensures
        refusal(read) == segment_refusal(lines@, name@, deployment@, first, text_of(previous)),
        read matches Ok((records, hash)) ==> {
            &&& records@ == records_of(lines@)
            &&& hash@ == (match hash_after(lines@, text_of(previous), lines@.len() as int) {
                Some(hash) => hash,
                None => zero_hash(),
            })
            &&& first + lines@.len() <= u64::MAX
        },
{
    let ghost all = lines@;
    let ghost start = text_of(previous);
    let count: usize = lines.len();
    let mut rest = last_first(lines);
    let mut expected = previous;
    let mut sequence: u64 = first;
    let mut records: Vec<Record> = Vec::new();
    let mut i: usize = 0;
    while i < count
        invariant
            i <= count,
            count == all.len(),
            all == lines@,
            start == text_of(previous),
            rest@.len() == count - i,
            forall|k: int| 0 <= k < rest@.len() ==> #[trigger] rest@[k] == all[count - 1 - k],
            sequence == first + i,
            records@ == records_of(all.take(i as int)),
            text_of(expected) == hash_after(all, start, i as int),
            chain_refusal(all, name@, deployment@, first, start, i as nat) is None,
        decreases count - i,
    {
        let line = rest.pop().unwrap();
        assert(line == all[i as int]);
        proof {
            if line_refusal(
                all[i as int],
                name@,
                deployment@,
                sequence,
                hash_after(all, start, i as int),
            ) is Some {
                chain_refusal_stands(
                    all,
                    name@,
                    deployment@,
                    first,
                    start,
                    (i + 1) as nat,
                    all.len(),
                );
            }
        }
        if !line.complete {
            return Err(record_error(sequence, name, "incomplete line"));
        }
        let record = match line.record {
            Ok(record) => record,
            Err(error) => {
                return Err(record_error(sequence, name, error.as_str()));
            },
        };
        if record.sequence != sequence {
            let mut reason = String::from_str("sequence mismatch: found ");
            append_decimal(&mut reason, record.sequence);
            return Err(record_error(sequence, name, reason.as_str()));
        }
        if !same_text(record.deployment.as_str(), deployment) {
            return Err(record_error(sequence, name, "deployment mismatch"));
        }
        if let Some(hash) = &expected {
            if !same_text(record.previous_sha256.as_str(), hash.as_str()) {
                return Err(record_error(sequence, name, "previous hash mismatch"));
            }
        }
        if sequence == u64::MAX {
            return Err("journal sequence overflow".to_owned());
        }
        expected = Some(digest(line.bytes.as_slice()));
        sequence = sequence + 1;
        let ghost before = records@;
        records.push(record);
        i = i + 1;
        assert(records@ =~= records_of(all.take(i as int)));
    }
    assert(all.take(i as int) =~= all);
    if !same_text(name, OPEN_SEGMENT) {
        let base = strip_marks(name);
        let matches_name: bool = if sequence == first {
            false
        } else {
            let range = segment_name(first, sequence - 1);
            same_text(base.as_str(), range.as_str())
        };
        if !matches_name {
            return Err(join3("journal segment ", name, ": record range mismatch"));
        }
    }
    let hash = match expected {
        Some(hash) => hash,
        None => zero_text(),
    };
    Ok((records, hash))
}

/// A segment file: its name and its lines.
#[derive(Debug)]
pub struct SegmentFile {
    pub name: String,
    pub lines: Vec<Line>,
}

/// Where a walk over segment files stands.
pub struct Walk {
    pub refused: Option<Seq<char>>,
    pub sequence: nat,
    pub hash: Seq<char>,
    pub records: Seq<Record>,
}

/// The walk over the first `count` files: each continues the chain of the ones before.
pub open spec fn walk(files: Seq<SegmentFile>, deployment: Seq<char>, count: nat) -> Walk
    decreases count,
{
    if count == 0 {
        Walk { refused: None, sequence: 1, hash: zero_hash(), records: Seq::empty() }
    } else {
        let before = walk(files, deployment, (count - 1) as nat);
        let file = files[count - 1];
        if before.refused is Some {
            before
        } else {
            Walk {
                refused: segment_refusal(
                    file.lines@,
                    file.name@,
                    deployment,
                    before.sequence as u64,
                    Some(before.hash),
                ),
                sequence: before.sequence + file.lines@.len(),
                hash: hash_after(file.lines@, Some(before.hash), file.lines@.len() as int)->0,
                records: before.records + records_of(file.lines@),
            }
        }
    }
}

/// The position of an append-only journal.
#[derive(Debug)]
pub struct Journal {
    pub deployment: String,
    pub segment_records: u64,
    pub next_sequence: u64,
    pub previous_sha256: String,
    /// The first sequence number of the open segment.
    pub first: u64,
}

impl Journal {
    /// Segments hold at least one record, and the open one starts at or before the next record.
    pub open spec fn wf(&self) -> bool {
        &&& self.segment_records > 0
        &&& 1 <= self.first <= self.next_sequence
    }

    /// Opens a journal from its closed segments in order and its open tail: the whole chain is
    /// replayed, including uploaded segments awaiting cleanup.
    pub fn open(
        deployment: String,
        segment_records: u64,
        closed: Vec<SegmentFile>,
        tail: SegmentFile,
    ) -> (opened: Result<(Journal, Vec<Record>), String>)
        ensures
            refusal(opened) == (if segment_records == 0 {
                Some("journal segment_records must be positive"@)
            } else {
                walk(closed@.push(tail), deployment@, closed@.len() + 1).refused
            }),
            opened matches Ok((journal, records)) ==> {
                let end = walk(closed@.push(tail), deployment@, closed@.len() + 1);
                &&& journal.wf()
                &&& journal.deployment == deployment
                &&& journal.segment_records == segment_records
                &&& journal.next_sequence == end.sequence
                &&& journal.previous_sha256@ == end.hash
                &&& journal.first == walk(
                    closed@.push(tail),
                    deployment@,
                    closed@.len(),
                ).sequence
                &&& records@ == end.records
            },
    {
        if segment_records == 0 {
            return Err("journal segment_records must be positive".to_owned());
        }
        let count: usize = closed.len();
        let mut files = closed;
        files.push(tail);
        let ghost all = files@;
        let total: usize = files.len();
        let mut rest = files_last_first(files);
        let mut records: Vec<Record> = Vec::new();
        let mut sequence: u64 = 1;
        let mut previous = zero_text();
        let mut first: u64 = 1;
        let mut i: usize = 0;
        while i < total
            invariant
                i <= total,
                total == count + 1,
                total == all.len(),
                segment_records > 0,
                all == closed@.push(tail),
                rest@.len() == count + 1 - i,
                forall|k: int| 0 <= k < rest@.len() ==> #[trigger] rest@[k] == all[count - k],
                walk(all, deployment@, i as nat).refused is None,
                sequence == walk(all, deployment@, i as nat).sequence,
                previous@ == walk(all, deployment@, i as nat).hash,
                records@ == walk(all, deployment@, i as nat).records,
                1 <= first <= sequence,
                i == count + 1 ==> first == walk(all, deployment@, count as nat).sequence,
            decreases total - i,
        {
            let file = rest.pop().unwrap();
            assert(file == all[i as int]);
            first = sequence;
            let read = read_records(
                file.lines,
                file.name.as_str(),
                deployment.as_str(),
                sequence,
                Some(previous),
            );
            match read {
                Ok((parsed, hash)) => {
                    let added: u64 = parsed.len() as u64;
                    let mut parsed = parsed;
                    records.append(&mut parsed);
                    sequence = sequence + added;
                    previous = hash;
                },
                Err(message) => {
                    proof {
                        walk_refusal_stands(all, deployment@, (i + 1) as nat, all.len());
                    }
                    return Err(message);
                },
            }
            i = i + 1;
        }
        Ok(
            (
                Journal {
                    deployment,
                    segment_records,
                    next_sequence: sequence,
                    previous_sha256: previous,
                    first,
                },
                records,
            ),
        )
    }

    /// The sequence number of the next record.
    pub fn next_sequence(&self) -> (sequence: u64)
        ensures
            sequence == self.next_sequence,
    {
        self.next_sequence
    }

    /// The next record of the chain.
    pub fn next_record(&self, time_micros: i64, kind: RecordKind) -> (record: Result<
        Record,
        String,
    >)
        ensures
            refusal(record) == (if self.next_sequence == u64::MAX {
                Some("journal sequence overflow"@)
            } else {
                None
            }),
            record matches Ok(record) ==> {
                &&& record.sequence == self.next_sequence
                &&& record.previous_sha256 == self.previous_sha256
                &&& record.time_micros == time_micros
                &&& record.deployment == self.deployment
                &&& record.kind == kind
            },
    {
        if self.next_sequence == u64::MAX {
            return Err("journal sequence overflow".to_owned());
        }
        Ok(
            Record {
                sequence: self.next_sequence,
                previous_sha256: self.previous_sha256.clone(),
                time_micros,
                deployment: self.deployment.clone(),
                kind,
            },
        )
    }

    /// Takes note of a record that was written as `bytes`: the previous hash covers the bytes
    /// without the newline. Says whether the open segment is full.
    pub fn append(&mut self, bytes: &[u8]) -> (full: bool)
        requires
            old(self).wf(),
            old(self).next_sequence < u64::MAX,
        ensures
            final(self).wf(),
            final(self).deployment == old(self).deployment,
            final(self).segment_records == old(self).segment_records,
            final(self).first == old(self).first,
            final(self).next_sequence == old(self).next_sequence + 1,
            final(self).previous_sha256@ == hex(sha256(bytes@)),
            full == (final(self).next_sequence - final(self).first
                >= final(self).segment_records),
    {
        self.previous_sha256 = digest(bytes);
        self.next_sequence = self.next_sequence + 1;
        self.is_full()
    }

    /// Whether the open segment holds as many records as a segment may.
    pub fn is_full(&self) -> (full: bool)
        requires
            self.wf(),
        ensures
            full == (self.next_sequence - self.first >= self.segment_records),
    {
        self.next_sequence - self.first >= self.segment_records
    }

    /// The name under which the open segment will be closed; an empty one has none.
    pub fn closing(&self) -> (name: Option<String>)
        requires
            self.wf(),
        ensures
            text_of(name) == (if self.first == self.next_sequence {
                None
            } else {
                Some(segment_text(self.first as nat, (self.next_sequence - 1) as nat))
            }),
    {
        if self.first == self.next_sequence {
            None
        } else {
            Some(segment_name(self.first, self.next_sequence - 1))
        }
    }

    /// Closes a nonempty segment before the next one is opened; `exists` says that a segment of
    /// that name is there already.
    pub fn rotate(&mut self, exists: bool) -> (rotated: Result<Option<String>, String>)
        requires
            old(self).wf(),
        ensures
            final(self).wf(),
            final(self).deployment == old(self).deployment,
            final(self).segment_records == old(self).segment_records,
            final(self).next_sequence == old(self).next_sequence,
            final(self).previous_sha256 == old(self).previous_sha256,
            ({
                let empty = old(self).first == old(self).next_sequence;
                let name = segment_text(
                    old(self).first as nat,
                    (old(self).next_sequence - 1) as nat,
                );
                &&& refusal(rotated) == (if !empty && exists {
                    Some("journal segment "@ + name + " already exists"@)
                } else {
                    None
                })
                &&& rotated matches Ok(closed) ==> text_of(closed) == (if empty {
                    None
                } else {
                    Some(name)
                }) && final(self).first == final(self).next_sequence
                &&& rotated is Err ==> final(self).first == old(self).first
            }),
    {
        match self.closing() {
            None => Ok(None),
            Some(name) => if exists {
                Err(join3("journal segment ", name.as_str(), " already exists"))
            } else {
                self.first = self.next_sequence;
                Ok(Some(name))
            },
        }
    }

    /// The key under which a closed segment is archived.
    pub fn key(&self, name: &str) -> (key: Result<String, String>)
        ensures
            refusal(key) == (if is_segment(name@) {
                None
            } else {
                Some("invalid journal segment name"@)
            }),
            key matches Ok(key) ==> key@ == archive_key(self.deployment@, name@),
    {
        if !valid_segment(name) {
            return Err("invalid journal segment name".to_owned());
        }
        Ok(segment_key(self.deployment.as_str(), name))
    }
}

/// The key under which a segment is archived.
pub open spec fn archive_key(deployment: Seq<char>, name: Seq<char>) -> Seq<char> {
    "live/"@ + deployment + "/journal/"@ + name
}

/// The key under which a segment is archived.
pub fn segment_key(deployment: &str, name: &str) -> (key: String)
    ensures
        key@ == archive_key(deployment@, name@),
{
    let mut key = join3("live/", deployment, "/journal/");
    key.append(name);
    key
}

fn files_last_first(files: Vec<SegmentFile>) -> (reversed: Vec<SegmentFile>)
    ensures
        reversed@ == files@.reverse(),
{
    let ghost all = files@;
    let mut files = files;
    let mut reversed: Vec<SegmentFile> = Vec::new();
    while files.len() > 0
        invariant
            files@.len() + reversed@.len() == all.len(),
            files@ == all.take(files@.len() as int),
            forall|k: int|
                0 <= k < reversed@.len() ==> #[trigger] reversed@[k] == all[all.len() - 1 - k],
        decreases files@.len(),
    {
        if let Some(file) = files.pop() {
            reversed.push(file);
        }
    }
    assert(reversed@ =~= all.reverse());
    reversed
}

proof fn walk_refusal_stands(
    files: Seq<SegmentFile>,
    deployment: Seq<char>,
    count: nat,
    total: nat,
)
    requires
        count <= total,
        walk(files, deployment, count).refused is Some,
    ensures
        walk(files, deployment, total).refused == walk(files, deployment, count).refused,
    decreases total,
{
    if count < total {
        walk_refusal_stands(files, deployment, count, (total - 1) as nat);
    }
}

/// All lines of the first `count` files.
pub open spec fn all_lines(files: Seq<SegmentFile>, count: nat) -> Seq<Line>
    decreases count,
{
    if count == 0 {
        Seq::empty()
    } else {
        all_lines(files, (count - 1) as nat) + files[count - 1].lines@
    }
}

/// Whether line `i` continues the chain of the lines before it.
pub open spec fn continues(lines: Seq<Line>, deployment: Seq<char>, i: int) -> bool {
    let line = lines[i];
    &&& line.complete
    &&& line.record is Ok
    &&& line.record->Ok_0.sequence == i + 1
    &&& line.record->Ok_0.deployment@ == deployment
    &&& line.record->Ok_0.previous_sha256@ == (if i == 0 {
        zero_hash()
    } else {
        line_hash(lines[i - 1])
    })
}

/// Whether lines form one chain from the first record on: consecutive sequence numbers, one
/// deployment, and every record carrying the hash of the line before it.
pub open spec fn one_chain(lines: Seq<Line>, deployment: Seq<char>) -> bool {
    forall|i: int| 0 <= i < lines.len() ==> #[trigger] continues(lines, deployment, i)
}

proof fn line_accepted(
    lines: Seq<Line>,
    name: Seq<char>,
    deployment: Seq<char>,
    first: u64,
    previous: Option<Seq<char>>,
    count: nat,
    i: int,
)
    requires
        0 <= i < count,
        chain_refusal(lines, name, deployment, first, previous, count) is None,
    ensures
        line_refusal(
            lines[i],
            name,
            deployment,
            (first + i) as u64,
            hash_after(lines, previous, i),
        ) is None,
    decreases count,
{
    if i < count - 1 {
        line_accepted(lines, name, deployment, first, previous, (count - 1) as nat, i);
    }
}

/// However a journal was closed, uploaded and restored in between: one that opens is an
/// unbroken chain from its first record.
pub proof fn an_opened_journal_is_one_chain(
    files: Seq<SegmentFile>,
    deployment: Seq<char>,
    count: nat,
)
    requires
        count <= files.len(),
        walk(files, deployment, count).refused is None,
        walk(files, deployment, count).sequence <= u64::MAX,
    ensures
        one_chain(all_lines(files, count), deployment),
        walk(files, deployment, count).sequence == all_lines(files, count).len() + 1,
        walk(files, deployment, count).records == records_of(all_lines(files, count)),
        walk(files, deployment, count).hash == (if all_lines(files, count).len() == 0 {
            zero_hash()
        } else {
            line_hash(all_lines(files, count).last())
        }),
    decreases count,
{
    if count > 0 {
        let before = walk(files, deployment, (count - 1) as nat);
        let file = files[count - 1];
        an_opened_journal_is_one_chain(files, deployment, (count - 1) as nat);
        let earlier = all_lines(files, (count - 1) as nat);
        let lines = all_lines(files, count);
        assert forall|i: int| 0 <= i < lines.len() implies #[trigger] continues(
            lines,
            deployment,
            i,
        ) by {
            if i < earlier.len() {
                assert(continues(earlier, deployment, i));
            } else {
                let j = i - earlier.len();
                line_accepted(
                    file.lines@,
                    file.name@,
                    deployment,
                    before.sequence as u64,
                    Some(before.hash),
                    file.lines@.len(),
                    j,
                );
            }
        }
        assert(records_of(lines) =~= records_of(earlier) + records_of(file.lines@));
        if file.lines@.len() == 0 {
            assert(lines =~= earlier);
        }
    } else {
        assert(records_of(all_lines(files, 0)) =~= Seq::empty());
    }
}

/// What was appended reads back: the line of the next record continues the chain that the
/// journal stands at.
pub proof fn an_appended_record_continues_the_chain(
    journal: Journal,
    record: Record,
    bytes: Vec<u8>,
    name: Seq<char>,
)
    requires
        journal.wf(),
        journal.next_sequence < u64::MAX,
        record.sequence == journal.next_sequence,
        record.previous_sha256 == journal.previous_sha256,
        record.deployment == journal.deployment,
    ensures
        line_refusal(
            (Line { bytes, complete: true, record: Ok(record) }),
            name,
            journal.deployment@,
            journal.next_sequence,
            Some(journal.previous_sha256@),
        ) is None,
        line_hash((Line { bytes, complete: true, record: Ok(record) })) == hex(sha256(bytes@)),
{
}

/// What is to be done with a segment whose upload was verified.
#[derive(Debug, Clone, Copy, PartialEq, Eq, Structural)]
pub enum UploadMark {
    /// It is marked already.
    Done,
    /// Rename it to its marked name.
    Rename,
}

/// Decides how a segment is marked as uploaded. The caller has verified the archived object's
/// identity.
pub fn mark_uploaded(
    name: &str,
    marked_exists: bool,
    marked_is_file: bool,
    plain_exists: bool,
) -> (mark: Result<UploadMark, String>)
    ensures
        refusal(mark) == (if !is_segment(name@) {
            Some("invalid journal segment name"@)
        } else if marked_exists && !(marked_is_file && !plain_exists) {
            Some("uploaded journal segment "@ + name@ + " already exists"@)
        } else {
            None
        }),
        mark matches Ok(mark) ==> mark == (if marked_exists {
            UploadMark::Done
        } else {
            UploadMark::Rename
        }),
{
    if !valid_segment(name) {
        return Err("invalid journal segment name".to_owned());
    }
    if marked_exists {
        if marked_is_file && !plain_exists {
            return Ok(UploadMark::Done);
        }
        return Err(join3("uploaded journal segment ", name, " already exists"));
    }
    Ok(UploadMark::Rename)
}

/// The base of a marked name, where marks are looked at.
pub open spec fn base_name(name: Seq<char>, uploaded: bool) -> Seq<char> {
    if uploaded && finishes_with(name, UPLOADED@) {
        name.subrange(0, name.len() - UPLOADED@.len())
    } else {
        name
    }
}

/// Whether a name looks like a segment's but is none.
pub open spec fn is_stray(name: Seq<char>, uploaded: bool) -> bool {
    let base = base_name(name, uploaded);
    !is_segment(base) && finishes_with(base, ".jsonl"@) && base != OPEN_SEGMENT@
}

/// The first of some names that looks like a segment's but is none.
pub open spec fn first_stray(names: Seq<String>, uploaded: bool) -> Option<int> {
    crate::search::first_where(names, |name: String| is_stray(name@, uploaded))
}

/// The names of closed segments among some names.
pub open spec fn segment_set(names: Seq<String>, uploaded: bool) -> Set<Seq<char>> {
    Set::new(
        |name: Seq<char>|
            is_segment(base_name(name, uploaded)) && exists|i: int|
                0 <= i < names.len() && (#[trigger] names[i])@ == name,
    )
}

/// The closed segments among the names of a directory, in order; with `uploaded` marked ones
/// too. A name that only looks like a segment's is refused.
pub fn segments(names: &Vec<String>, uploaded: bool) -> (found: Result<Vec<String>, String>)
    ensures
        refusal(found) == (match first_stray(names@, uploaded) {
            Some(at) => Some("invalid journal segment name "@ + names@[at]@),
            None => None,
        }),
        found matches Ok(list) ==> crate::text::views(list@) == in_order(
            segment_set(names@, uploaded),
        ),
{
    let ghost stray = |name: String| is_stray(name@, uploaded);
    let mut found: Table<()> = Table::new();
    let mut i: usize = 0;
    assert(found@.dom() =~= segment_set(names@.take(0), uploaded));
    while i < names.len()
        invariant
            i <= names@.len(),
            stray == (|name: String| is_stray(name@, uploaded)),
            found@.dom() == segment_set(names@.take(i as int), uploaded),
            forall|j: int| 0 <= j < i ==> !stray(#[trigger] names@[j]),
        decreases names@.len() - i,
    {
        let name = names[i].as_str();
        let base: &str = if uploaded {
            match strip_suffix(name, UPLOADED) {
                Some(rest) => rest,
                None => name,
            }
        } else {
            name
        };
        assert(base@ == base_name(name@, uploaded));
        let ghost before = names@.take(i as int);
        let ghost after = names@.take(i + 1);
        assert(after =~= before.push(names@[i as int]));
        if valid_segment(base) {
            found.insert(name.to_owned(), ());
        } else if strip_suffix(base, ".jsonl").is_some() && !same_text(base, OPEN_SEGMENT) {
            proof {
                crate::search::first_where_found(names@, stray, i as int);
            }
            return Err(join("invalid journal segment name ", name));
        }
        proof {
            assert forall|text: Seq<char>| found@.dom().contains(text) == segment_set(
                after,
                uploaded,
            ).contains(text) by {
                if exists|j: int| 0 <= j < before.len() && (#[trigger] before[j])@ == text {
                    let j = choose|j: int| 0 <= j < before.len() && (#[trigger] before[j])@ == text;
                    assert(after[j]@ == text);
                }
                if exists|j: int| 0 <= j < after.len() && (#[trigger] after[j])@ == text {
                    let j = choose|j: int| 0 <= j < after.len() && (#[trigger] after[j])@ == text;
                    if j < i {
                        assert(before[j]@ == text);
                    }
                }
                assert(after[i as int]@ == name@);
            }
            assert(found@.dom() =~= segment_set(after, uploaded));
        }
        i = i + 1;
    }
    assert(names@.take(i as int) =~= names@);
    proof {
        crate::search::first_where_absent(names@, stray);
    }
    Ok(names_in_order(&found))
}

/// The keys of a table as a list.
pub fn names_in_order<V>(table: &Table<V>) -> (list: Vec<String>)
    ensures
        crate::text::views(list@) == in_order(table@.dom()),
        list@.len() == table@.dom().len(),
{
    let count: usize = table.len();
    let mut list: Vec<String> = Vec::new();
    let mut i: usize = 0;
    while i < count
        invariant
            i <= count,
            count == table.keys().len(),
            list@.len() == i,
            forall|j: int| 0 <= j < i ==> (#[trigger] list@[j])@ == table.keys()[j],
        decreases count - i,
    {
        let (name, _) = table.at(i);
        list.push(name.to_owned());
        i = i + 1;
    }
    assert(crate::text::views(list@) =~= table.keys());
    list
}

/// Whether an uploaded segment is full, and so can be restored from the archive.
pub open spec fn is_removable(name: Seq<char>, segment_records: u64) -> bool {
    finishes_with(name, UPLOADED@) && exists|first: u64, last: u64|
        #[trigger] names_segment(base_name(name, true), first, last) && last - first + 1
            == segment_records
}

/// Whether an uploaded segment can be removed: only full ones can be restored by their names.
pub fn removable(name: &str, segment_records: u64) -> (remove: Result<bool, String>)
    ensures
        refusal(remove) == (if finishes_with(name@, UPLOADED@) && !is_segment(
            base_name(name@, true),
        ) {
            Some("invalid journal segment name"@)
        } else {
            None
        }),
        remove matches Ok(remove) ==> remove == is_removable(name@, segment_records),
{
    match strip_suffix(name, UPLOADED) {
        Some(base) => match segment_range(base) {
            Some((first, last)) => {
                assert(names_segment(base@, first, last));
                proof {
                    assert forall|a: u64, b: u64| #[trigger]
                        names_segment(base@, a, b) implies a == first && b == last by {
                        segment_names_differ(a, b, first, last);
                    }
                }
                Ok(segment_records > 0 && last - first == segment_records - 1)
            },
            None => Err("invalid journal segment name".to_owned()),
        },
        None => Ok(false),
    }
}

/// The sum of some sizes.
pub open spec fn total(sizes: Seq<u64>) -> int
    decreases sizes.len(),
{
    if sizes.len() == 0 {
        0
    } else {
        total(sizes.drop_last()) + sizes.last()
    }
}

proof fn total_grows(sizes: Seq<u64>, count: int)
    requires
        0 <= count <= sizes.len(),
    ensures
        0 <= total(sizes.take(count)) <= total(sizes),
    decreases sizes.len(),
{
    if count < sizes.len() {
        total_grows(sizes.drop_last(), count);
        assert(sizes.drop_last().take(count) =~= sizes.take(count));
    } else {
        assert(sizes.take(count) =~= sizes);
        if sizes.len() > 0 {
            total_grows(sizes.drop_last(), 0);
            assert(sizes.drop_last().take(0) =~= Seq::empty());
        }
    }
}

/// How many bytes wait for upload.
pub fn spool_bytes(sizes: &Vec<u64>) -> (bytes: Result<u64, String>)
    ensures
        refusal(bytes) == (if total(sizes@) > u64::MAX {
            Some("journal spool size overflow"@)
        } else {
            None
        }),
        bytes matches Ok(bytes) ==> bytes == total(sizes@),
{
    let mut sum: u64 = 0;
    let mut i: usize = 0;
    assert(sizes@.take(0) =~= Seq::empty());
    while i < sizes.len()
        invariant
            i <= sizes@.len(),
            sum == total(sizes@.take(i as int)),
        decreases sizes@.len() - i,
    {
        assert(sizes@.take(i + 1).drop_last() =~= sizes@.take(i as int));
        proof {
            total_grows(sizes@, i + 1);
        }
        match sum.checked_add(sizes[i]) {
            Some(next) => {
                sum = next;
            },
            None => {
                return Err("journal spool size overflow".to_owned());
            },
        }
        i = i + 1;
    }
    assert(sizes@.take(i as int) =~= sizes@);
    Ok(sum)
}

/// A full segment to restore from the archive.
#[derive(Debug)]
pub struct WantedSegment {
    pub first: u64,
    pub last: u64,
    pub name: String,
    pub key: String,
}

/// The full segment that starts at `first`, which a restore looks for next.
pub fn wanted_segment(deployment: &str, first: u64, segment_records: u64) -> (wanted: Result<
    WantedSegment,
    String,
>)
    ensures
        refusal(wanted) == (if segment_records == 0 {
            Some("journal segment_records must be positive"@)
        } else if first + segment_records - 1 > u64::MAX {
            Some("journal sequence overflow"@)
        } else {
            None
        }),
        wanted matches Ok(wanted) ==> {
            &&& wanted.first == first
            &&& wanted.last == first + segment_records - 1
            &&& wanted.name@ == segment_text(first as nat, wanted.last as nat)
            &&& wanted.key@ == archive_key(deployment@, wanted.name@)
        },
{
    if segment_records == 0 {
        return Err("journal segment_records must be positive".to_owned());
    }
    match first.checked_add(segment_records - 1) {
        Some(last) => {
            let name = segment_name(first, last);
            let key = segment_key(deployment, name.as_str());
            Ok(WantedSegment { first, last, name, key })
        },
        None => Err("journal sequence overflow".to_owned()),
    }
}

/// Where the segment after `last` starts.
pub fn after_segment(last: u64) -> (first: Result<u64, String>)
    ensures
        refusal(first) == (if last == u64::MAX {
            Some("journal sequence overflow"@)
        } else {
            None
        }),
        first matches Ok(first) ==> first == last + 1,
{
    match last.checked_add(1) {
        Some(first) => Ok(first),
        None => Err("journal sequence overflow".to_owned()),
    }
}

/// The lines of a segment without what they decode to.
pub open spec fn raw_lines(lines: Seq<Line>) -> Seq<(Vec<u8>, bool)> {
    lines.map_values(|line: Line| (line.bytes, line.complete))
}

/// What a restore finds of the segment that it looks for.
#[derive(Debug)]
pub enum Found {
    /// It is there, marked or not: it is neither fetched nor changed.
    Present,
    /// It is not there, and the archive, which says that it holds `archived` bytes, gave these.
    Archived { archived: u64, bytes: Vec<u8>, lines: Vec<Line> },
    /// It is not there, and the archive has none.
    Absent,
}

/// What a restore does next.
#[derive(Debug)]
pub enum Restored {
    /// The next segment is looked for; before that these bytes are written under this name,
    /// where there are any.
    Next(Option<(String, Vec<u8>)>),
    /// The walk is over. This many segments were restored.
    End(u64),
}

/// How far a restore of full segments has come.
#[derive(Debug)]
pub struct Restore {
    pub deployment: String,
    pub segment_records: u64,
    /// Where the segment that is looked for starts.
    pub first: u64,
    pub restored: u64,
    /// Whether the sequence numbers are used up.
    pub over: bool,
}

impl Restore {
    /// Segments hold at least one record, and no more segments were restored than were passed.
    pub open spec fn wf(&self) -> bool {
        &&& self.segment_records > 0
        &&& self.restored <= self.first
        &&& !self.over ==> self.restored < self.first
    }

    /// The last record of the segment that is looked for.
    pub open spec fn last(&self) -> int {
        self.first + self.segment_records - 1
    }

    /// Whether a segment can be looked for.
    pub open spec fn looks(&self) -> bool {
        !self.over && self.last() <= u64::MAX
    }

    /// The name of the segment that is looked for.
    pub open spec fn name(&self) -> Seq<char> {
        segment_text(self.first as nat, self.last() as nat)
    }

    /// Why a fetched segment is not restored: it is cut short, or does not hold its records.
    pub open spec fn archive_refusal(
        &self,
        archived: u64,
        bytes: Seq<u8>,
        lines: Seq<Line>,
    ) -> Option<Seq<char>> {
        if bytes.len() != archived {
            Some("live: cloud journal length mismatch"@)
        } else {
            segment_refusal(lines, self.name(), self.deployment@, self.first, None)
        }
    }

    /// Where the walk stands once a segment was passed.
    pub open spec fn passed(&self, restored: int) -> Restore {
        Restore {
            deployment: self.deployment,
            segment_records: self.segment_records,
            first: if self.last() == u64::MAX {
                self.first
            } else {
                (self.last() + 1) as u64
            },
            restored: (self.restored + restored) as u64,
            over: self.last() == u64::MAX,
        }
    }

    /// Starts a restore at the first record.
    pub fn start(deployment: String, segment_records: u64) -> (started: Result<Restore, String>)
        ensures
            refusal(started) == (if segment_records == 0 {
                Some("journal segment_records must be positive"@)
            } else {
                None
            }),
            started matches Ok(started) ==> started.wf() && started == (Restore {
                deployment,
                segment_records,
                first: 1,
                restored: 0,
                over: false,
            }),
    {
        if segment_records == 0 {
            return Err("journal segment_records must be positive".to_owned());
        }
        Ok(Restore { deployment, segment_records, first: 1, restored: 0, over: false })
    }

    /// The segment that is looked for.
    pub fn wanted(&self) -> (wanted: Result<WantedSegment, String>)
        requires
            self.wf(),
        ensures
            refusal(wanted) == (if self.looks() {
                None
            } else {
                Some("journal sequence overflow"@)
            }),
            wanted matches Ok(wanted) ==> {
                &&& wanted.first == self.first
                &&& wanted.last == self.last()
                &&& wanted.name@ == self.name()
                &&& wanted.key@ == archive_key(self.deployment@, wanted.name@)
            },
    {
        if self.over {
            return Err("journal sequence overflow".to_owned());
        }
        wanted_segment(self.deployment.as_str(), self.first, self.segment_records)
    }

    /// Takes what was found of the segment that is looked for. One that is there is passed over;
    /// one that the archive gives is written, marked as uploaded; the first that the archive
    /// lacks ends the walk.
    pub fn step(&mut self, found: Found) -> (done: Result<Restored, String>)
        requires
            old(self).wf(),
            old(self).looks(),
            found matches Found::Archived { bytes, lines, .. } ==> lines_of(
                raw_lines(lines@),
                bytes@,
            ),
        ensures
            final(self).wf(),
            steps(*old(self), found, *final(self), done),
    {
        let last: u64 = self.first + (self.segment_records - 1);
        match found {
            Found::Absent => Ok(Restored::End(self.restored)),
            Found::Present => {
                self.pass(last, 0);
                Ok(Restored::Next(None))
            },
            Found::Archived { archived, bytes, lines } => {
                if bytes.len() as u64 != archived {
                    return Err("live: cloud journal length mismatch".to_owned());
                }
                let name = segment_name(self.first, last);
                match read_records(
                    lines,
                    name.as_str(),
                    self.deployment.as_str(),
                    self.first,
                    None,
                ) {
                    Ok(_) => {},
                    Err(message) => {
                        return Err(message);
                    },
                }
                self.pass(last, 1);
                Ok(Restored::Next(Some((join(name.as_str(), UPLOADED), bytes))))
            },
        }
    }

    fn pass(&mut self, last: u64, restored: u64)
        requires
            old(self).wf(),
            old(self).looks(),
            last == old(self).last(),
            restored <= 1,
        ensures
            *final(self) == old(self).passed(restored as int),
            final(self).wf(),
    {
        self.restored = self.restored + restored;
        match after_segment(last) {
            Ok(first) => {
                self.first = first;
            },
            Err(_) => {
                self.over = true;
            },
        }
    }
}

/// What a step of a restore does.
pub open spec fn steps(
    before: Restore,
    found: Found,
    after: Restore,
    done: Result<Restored, String>,
) -> bool {
    match found {
        Found::Absent => {
            &&& done == Ok::<Restored, String>(Restored::End(before.restored))
            &&& after == before
        },
        Found::Present => {
            &&& done == Ok::<Restored, String>(Restored::Next(None))
            &&& after == before.passed(0)
        },
        Found::Archived { archived, bytes, lines } => match before.archive_refusal(
            archived,
            bytes@,
            lines@,
        ) {
            Some(message) => refusal(done) == Some(message) && after == before,
            None => {
                &&& done matches Ok(Restored::Next(Some((name, written))))
                &&& name@ == before.name() + UPLOADED@
                &&& written == bytes
                &&& after == before.passed(1)
            },
        },
    }
}

} // verus!
