//! How many tasks fitting and encoding may run at once: one cap is shared by the work on streams
//! and the work on their columns, and at most a quarter of the available memory is reserved.

use crate::text::{begins_with, is_digit, is_numeral, numeral_grows, numeral_value, starts_with};
use vstd::prelude::*;
use vstd::string::*;

verus! {

/// The smaller of two numbers.
pub open spec fn least(a: int, b: int) -> int {
    if a <= b {
        a
    } else {
        b
    }
}

/// The larger of two numbers.
pub open spec fn greatest(a: int, b: int) -> int {
    if a >= b {
        a
    } else {
        b
    }
}

/// A product, or the largest number where it does not fit.
pub open spec fn bounded_product(a: int, b: int) -> int {
    least(a * b, u64::MAX as int)
}

/// How many tasks of a size may run: one per core, but no more than fit into a quarter of the
/// memory, and one at least.
pub open spec fn task_limit(available: int, cores: int, bytes_per_task: int) -> int {
    greatest(
        least(cores, greatest(available / 4 / greatest(bytes_per_task, 1), 1)),
        1,
    )
}

fn bounded_mul(a: u64, b: u64) -> (product: u64)
    ensures
        product == bounded_product(a as int, b as int),
{
    match a.checked_mul(b) {
        Some(product) => product,
        None => u64::MAX,
    }
}

/// The tasks that share one cap. Whoever hands them out counts as one.
#[derive(Debug)]
pub struct FeatureParallelism {
    pub limit: usize,
    pub active: usize,
}

impl FeatureParallelism {
    /// One task at least is always active, and never more than the cap.
    pub open spec fn wf(&self) -> bool {
        1 <= self.active <= self.limit
    }

    /// What one fit keeps in memory: whole decoded columns and scratch.
    pub fn fit_bytes(max_fit_rows: u64, live_fit_columns: usize) -> (bytes: u64)
        ensures
            bytes == bounded_product(
                bounded_product(max_fit_rows as int, 128),
                live_fit_columns as int,
            ),
    {
        bounded_mul(bounded_mul(max_fit_rows, 128), live_fit_columns as u64)
    }

    /// What encoding one stream keeps in memory: a row group of every column.
    pub fn encoding_bytes(row_group_rows: u64, max_columns: usize) -> (bytes: u64)
        ensures
            bytes == bounded_product(
                bounded_product(row_group_rows as int, 256),
                max_columns as int,
            ),
    {
        bounded_mul(bounded_mul(row_group_rows, 256), max_columns as u64)
    }

    /// How many tasks may run: one per core, but no more than fit into a quarter of the memory,
    /// and one at least.
    pub fn memory_limit(available: u64, cores: usize, bytes_per_task: u64) -> (limit: usize)
        ensures
            limit == task_limit(
                available as int,
                cores as int,
                bytes_per_task as int,
            ),
    {
        let task: u64 = if bytes_per_task >= 1 { bytes_per_task } else { 1 };
        let quarter: u64 = available / 4;
        let fitting: u64 = quarter / task;
        let memory: u64 = if fitting >= 1 { fitting } else { 1 };
        let capped: usize = if cores as u64 <= memory { cores } else { memory as usize };
        if capped >= 1 {
            capped
        } else {
            1
        }
    }

    /// A cap for tasks of a size, with the caller's own task active.
    pub fn new(available: u64, cores: usize, bytes_per_task: u64) -> (parallelism: Self)
        ensures
            parallelism.wf(),
            parallelism.active == 1,
            parallelism.limit == task_limit(
                available as int,
                cores as int,
                bytes_per_task as int,
            ),
    {
        FeatureParallelism {
            limit: Self::memory_limit(available, cores, bytes_per_task),
            active: 1,
        }
    }

    /// Takes a slot, where one is free.
    pub fn try_acquire(&mut self) -> (acquired: bool)
        requires
            old(self).wf(),
        ensures
            final(self).wf(),
            final(self).limit == old(self).limit,
            acquired == (old(self).active < old(self).limit),
            final(self).active == old(self).active + (if acquired {
                1int
            } else {
                0int
            }),
    {
        if self.active < self.limit {
            self.active = self.active + 1;
            true
        } else {
            false
        }
    }

    /// Gives a slot back.
    pub fn release(&mut self)
        requires
            old(self).wf(),
            old(self).active > 1,
        ensures
            final(self).wf(),
            final(self).limit == old(self).limit,
            final(self).active == old(self).active - 1,
    {
        self.active = self.active - 1;
    }

    /// How many streams are worked on at once: half of the cap, so that slots are left for their
    /// columns, but two where the cap allows.
    pub fn stream_tasks(&self) -> (tasks: usize)
        ensures
            tasks == least(
                self.limit as int,
                greatest((self.limit as int + 1) / 2, 2),
            ),
    {
        let half: usize = self.limit / 2 + self.limit % 2;
        let wanted: usize = if half >= 2 { half } else { 2 };
        if self.limit <= wanted {
            self.limit
        } else {
            wanted
        }
    }
}

/// Whether a character separates words.
pub open spec fn is_space(c: char) -> bool {
    let code = c as u32;
    ||| 9 <= code <= 13
    ||| code == 32
    ||| code == 0x85
    ||| code == 0xa0
    ||| code == 0x1680
    ||| 0x2000 <= code <= 0x200a
    ||| code == 0x2028
    ||| code == 0x2029
    ||| code == 0x202f
    ||| code == 0x205f
    ||| code == 0x3000
}

fn separates(c: char) -> (space: bool)
    ensures
        space == is_space(c),
{
    let code: u32 = c as u32;
    (code >= 9 && code <= 13) || code == 32 || code == 0x85 || code == 0xa0 || code == 0x1680 || (
    code >= 0x2000 && code <= 0x200a) || code == 0x2028 || code == 0x2029 || code == 0x202f || code
        == 0x205f || code == 0x3000
}

/// The first place between two others whose character is wanted, or the end.
pub open spec fn scan(text: Seq<char>, from: int, to: int, wanted: spec_fn(char) -> bool) -> int
    decreases to - from,
{
    if from >= to {
        to
    } else if wanted(text[from]) {
        from
    } else {
        scan(text, from + 1, to, wanted)
    }
}

/// The count that a word of digits stands for, with a plus sign before it or without, if it is
/// one and fits.
pub open spec fn count_of(word: Seq<char>) -> Option<u64> {
    let digits = if word.len() > 0 && word[0] == '+' {
        word.skip(1)
    } else {
        word
    };
    if digits.len() > 0 && is_numeral(digits) && numeral_value(digits) <= u64::MAX {
        Some(numeral_value(digits) as u64)
    } else {
        None
    }
}

fn parse_count(text: &str, from: usize, to: usize) -> (count: Option<u64>)
    requires
        from <= to <= text@.len(),
    ensures
        count == count_of(text@.subrange(from as int, to as int)),
{
    let ghost word = text@.subrange(from as int, to as int);
    let mut start: usize = from;
    if from < to && text.get_char(from) == '+' {
        start = from + 1;
        assert(word.skip(1) =~= text@.subrange(start as int, to as int));
    }
    let ghost digits = text@.subrange(start as int, to as int);
    if start == to {
        assert(digits.len() == 0);
        return None;
    }
    assert(word[0] != '+' ==> digits == word);
    let mut value: u64 = 0;
    let mut i: usize = start;
    assert(digits.take(0) =~= Seq::empty());
    while i < to
        invariant
            start <= i <= to,
            to <= text@.len(),
            start < to,
            digits == text@.subrange(start as int, to as int),
            is_numeral(digits.take(i - start)),
            value == numeral_value(digits.take(i - start)),
            count_of(text@.subrange(from as int, to as int)) == if is_numeral(digits)
                && numeral_value(digits) <= u64::MAX {
                Some(numeral_value(digits) as u64)
            } else {
                None
            },
        decreases to - i,
    {
        let c: char = text.get_char(i);
        assert(c == digits[i - start]);
        if c < '0' || c > '9' {
            return None;
        }
        let ghost before = digits.take(i - start);
        let ghost after = digits.take(i + 1 - start);
        assert(after.drop_last() =~= before);
        assert(after.last() == c);
        proof {
            assert forall|j: int| 0 <= j < after.len() implies is_digit(#[trigger] after[j]) by {
                if j < before.len() {
                    assert(after[j] == before[j]);
                }
            }
            numeral_grows(digits, i + 1 - start);
        }
        let step: u64 = (c as u32 - '0' as u32) as u64;
        let next: u128 = value as u128 * 10 + step as u128;
        assert(next == numeral_value(after));
        if next > u64::MAX as u128 {
            return None;
        }
        value = next as u64;
        i = i + 1;
    }
    assert(digits.take(i - start) =~= digits);
    Some(value)
}

/// The bytes of memory that a line of the system's report gives as available.
pub open spec fn line_memory(line: Seq<char>) -> Option<u64> {
    if !begins_with(line, "MemAvailable:"@) {
        None
    } else {
        let to = line.len() as int;
        let start = scan(line, 13, to, |c: char| !is_space(c));
        let end = scan(line, start, to, |c: char| is_space(c));
        match count_of(line.subrange(start, end)) {
            Some(kib) => if kib * 1024 <= u64::MAX {
                Some((kib * 1024) as u64)
            } else {
                None
            },
            None => None,
        }
    }
}

fn parse_line(line: &str) -> (memory: Option<u64>)
    ensures
        memory == line_memory(line@),
{
    if !starts_with(line, "MemAvailable:") {
        return None;
    }
    proof {
        reveal_strlit("MemAvailable:");
    }
    let to: usize = line.unicode_len();
    let mut start: usize = 13;
    while start < to && separates(line.get_char(start))
        invariant
            13 <= start <= to,
            to == line@.len(),
            scan(line@, 13, to as int, |c: char| !is_space(c)) == scan(
                line@,
                start as int,
                to as int,
                |c: char| !is_space(c),
            ),
        decreases to - start,
    {
        start = start + 1;
    }
    let mut end: usize = start;
    while end < to && !separates(line.get_char(end))
        invariant
            start <= end <= to,
            to == line@.len(),
            scan(line@, start as int, to as int, |c: char| is_space(c)) == scan(
                line@,
                end as int,
                to as int,
                |c: char| is_space(c),
            ),
        decreases to - end,
    {
        end = end + 1;
    }
    match parse_count(line, start, end) {
        Some(kib) => kib.checked_mul(1024),
        None => None,
    }
}

/// The first line of a report that gives the available memory.
pub open spec fn report_memory(text: Seq<char>, from: int) -> Option<u64>
    decreases text.len() - from,
{
    if from >= text.len() {
        None
    } else {
        let end = scan(text, from, text.len() as int, |c: char| c == '\n');
        match line_memory(text.subrange(from, end)) {
            Some(bytes) => Some(bytes),
            None => if from <= end < text.len() {
                report_memory(text, end + 1)
            } else {
                None
            },
        }
    }
}

/// The bytes of memory to share, by the system's report of its memory, where there is one.
pub fn available_memory(report: Option<&str>) -> (bytes: u64)
    ensures
        bytes == match report {
            Some(text) => match report_memory(text@, 0) {
                Some(bytes) => bytes,
                None => 1_073_741_824,
            },
            None => 1_073_741_824,
        },
{
    let text = match report {
        Some(text) => text,
        None => {
            return 1_073_741_824;
        },
    };
    let to: usize = text.unicode_len();
    let mut from: usize = 0;
    while from < to
        invariant
            from <= to,
            to == text@.len(),
            report == Some(text),
            report_memory(text@, 0) == report_memory(text@, from as int),
        decreases to - from,
    {
        let mut end: usize = from;
        while end < to && text.get_char(end) != '\n'
            invariant
                from <= end <= to,
                to == text@.len(),
                scan(text@, from as int, to as int, |c: char| c == '\n') == scan(
                    text@,
                    end as int,
                    to as int,
                    |c: char| c == '\n',
                ),
            decreases to - end,
        {
            end = end + 1;
        }
        if let Some(bytes) = parse_line(text.substring_char(from, end)) {
            return bytes;
        }
        if end == to {
            return 1_073_741_824;
        }
        from = end + 1;
    }
    1_073_741_824
}

/// At least one task may run, at most one per core beyond that, and as many as run together keep
/// no more than a quarter of the memory, unless a single one does; one more of them would be too
/// many for the cores or for the memory.
pub proof fn tasks_fit_into_a_quarter(available: int, cores: int, bytes_per_task: int)
    requires
        0 <= available,
        0 <= cores,
        0 < bytes_per_task,
    ensures
        task_limit(available, cores, bytes_per_task) >= 1,
        task_limit(available, cores, bytes_per_task) > 1 ==> task_limit(
            available,
            cores,
            bytes_per_task,
        ) <= cores && task_limit(available, cores, bytes_per_task) * bytes_per_task * 4
            <= available,
        task_limit(available, cores, bytes_per_task) < cores ==> (task_limit(
            available,
            cores,
            bytes_per_task,
        ) + 1) * bytes_per_task * 4 > available - 4,
{
    let quarter = available / 4;
    let fitting = quarter / bytes_per_task;
    let limit = task_limit(available, cores, bytes_per_task);
    vstd::arithmetic::div_mod::lemma_fundamental_div_mod(quarter, bytes_per_task);
    vstd::arithmetic::div_mod::lemma_mod_bound(quarter, bytes_per_task);
    assert(quarter == bytes_per_task * fitting + quarter % bytes_per_task);
    assert(0 <= quarter % bytes_per_task < bytes_per_task);
    if limit > 1 {
        assert(limit <= fitting);
        assert(limit * bytes_per_task <= bytes_per_task * fitting) by (nonlinear_arith)
            requires
                limit <= fitting,
                0 < bytes_per_task,
        ;
        assert(limit * bytes_per_task * 4 == 4 * (limit * bytes_per_task)) by (nonlinear_arith);
    }
    if limit < cores {
        assert(limit >= fitting);
        assert((limit + 1) * bytes_per_task > quarter) by (nonlinear_arith)
            requires
                limit >= fitting,
                0 < bytes_per_task,
                quarter == bytes_per_task * fitting + quarter % bytes_per_task,
                quarter % bytes_per_task < bytes_per_task,
        ;
        assert((limit + 1) * bytes_per_task * 4 == 4 * ((limit + 1) * bytes_per_task))
            by (nonlinear_arith);
    }
}

/// What tasks keep in memory grows with their rows and their columns, in units of 128 bytes for a
/// fit and of 256 bytes for an encoding, and stops at the largest number.
pub proof fn memory_grows_with_rows_and_columns(rows: int, columns: int)
    requires
        0 <= rows,
        0 <= columns,
    ensures
        rows * 128 * columns <= u64::MAX && rows * 128 <= u64::MAX ==> bounded_product(
            bounded_product(rows, 128),
            columns,
        ) == rows * 128 * columns,
        bounded_product(rows, columns) <= u64::MAX,
        bounded_product(rows, columns) == rows * columns || bounded_product(rows, columns)
            == u64::MAX,
{
}

} // verus!
