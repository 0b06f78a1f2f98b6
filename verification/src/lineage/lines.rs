//! Newline framing: the lines of a file with their terminators, so that its bytes can be rebuilt
//! exactly.

use vstd::prelude::*;

verus! {

/// How a line ends.
#[derive(Debug, Clone, Copy, PartialEq, Eq, Structural)]
pub enum Terminator {
    CarriageReturnLineFeed,
    LineFeed,
    Missing,
}

impl Terminator {
    /// The bytes of the terminator.
    pub open spec fn bytes(self) -> Seq<u8> {
        match self {
            Terminator::CarriageReturnLineFeed => seq![13u8, 10u8],
            Terminator::LineFeed => seq![10u8],
            Terminator::Missing => Seq::empty(),
        }
    }

    /// How many bytes the terminator has.
    pub fn length(self) -> (length: usize)
        ensures
            length == self.bytes().len(),
    {
        match self {
            Terminator::CarriageReturnLineFeed => 2,
            Terminator::LineFeed => 1,
            Terminator::Missing => 0,
        }
    }
}

/// One line of a file: where it starts, how long it is without its terminator, and its number.
#[derive(Debug, Clone, Copy)]
pub struct Framed {
    pub offset: u64,
    pub bytes: usize,
    pub ordinal: u64,
    pub terminator: Terminator,
}

/// Where the line that starts at `from` ends: after the first line feed, or at the end.
pub open spec fn line_end(data: Seq<u8>, from: int) -> int
    decreases data.len() - from,
{
    if from >= data.len() {
        data.len() as int
    } else if data[from] == 10 {
        from + 1
    } else {
        line_end(data, from + 1)
    }
}

/// A line never ends before its start, nor after the data.
pub proof fn line_end_bounds(data: Seq<u8>, from: int)
    requires
        0 <= from < data.len(),
    ensures
        from < line_end(data, from) <= data.len(),
    decreases data.len() - from,
{
    if data[from] != 10 {
        if from + 1 < data.len() {
            line_end_bounds(data, from + 1);
        } else {
            assert(line_end(data, from + 1) == data.len());
        }
    }
}

/// The terminator of the line between two positions.
pub open spec fn terminator_of(data: Seq<u8>, from: int, end: int) -> Terminator {
    if data[end - 1] != 10 {
        Terminator::Missing
    } else if end - from >= 2 && data[end - 2] == 13 {
        Terminator::CarriageReturnLineFeed
    } else {
        Terminator::LineFeed
    }
}

/// The lines of the data from a position on, numbered from `ordinal`.
pub open spec fn lines_from(data: Seq<u8>, from: int, ordinal: nat) -> Seq<Framed>
    decreases data.len() - from,
{
    if from < 0 || from >= data.len() {
        Seq::empty()
    } else {
        let end = line_end(data, from);
        let terminator = terminator_of(data, from, end);
        proof {
            line_end_bounds(data, from);
        }
        seq![
            Framed {
                offset: from as u64,
                bytes: (end - from - terminator.bytes().len()) as usize,
                ordinal: ordinal as u64,
                terminator,
            },
        ] + lines_from(data, end, ordinal + 1)
    }
}

/// The contents of a line.
pub open spec fn contents(data: Seq<u8>, line: Framed) -> Seq<u8> {
    data.subrange(line.offset as int, line.offset + line.bytes)
}

/// The lines put back together, each with its terminator.
pub open spec fn rebuilt(data: Seq<u8>, lines: Seq<Framed>) -> Seq<u8>
    decreases lines.len(),
{
    if lines.len() == 0 {
        Seq::empty()
    } else {
        rebuilt(data, lines.drop_last()) + contents(data, lines.last())
            + lines.last().terminator.bytes()
    }
}

proof fn rebuilt_with_first(data: Seq<u8>, first: Framed, rest: Seq<Framed>)
    ensures
        rebuilt(data, seq![first] + rest) == contents(data, first) + first.terminator.bytes()
            + rebuilt(data, rest),
    decreases rest.len(),
{
    let all = seq![first] + rest;
    if rest.len() == 0 {
        assert(all.drop_last() =~= Seq::empty());
        assert(all.last() == first);
        assert(rebuilt(data, all.drop_last()) =~= Seq::empty());
        assert(rebuilt(data, rest) =~= Seq::empty());
        assert(rebuilt(data, all) =~= contents(data, first) + first.terminator.bytes()
            + rebuilt(data, rest));
    } else {
        assert(all.drop_last() =~= seq![first] + rest.drop_last());
        rebuilt_with_first(data, first, rest.drop_last());
        assert(rebuilt(data, all) =~= contents(data, first) + first.terminator.bytes()
            + rebuilt(data, rest));
    }
}

proof fn rebuilt_from(data: Seq<u8>, from: int, ordinal: nat)
    requires
        0 <= from <= data.len(),
        data.len() <= u64::MAX,
        data.len() <= usize::MAX,
    ensures
        rebuilt(data, lines_from(data, from, ordinal)) == data.skip(from),
    decreases data.len() - from,
{
    if from < data.len() {
        let end = line_end(data, from);
        line_end_bounds(data, from);
        rebuilt_from(data, end, ordinal + 1);
        let all = lines_from(data, from, ordinal);
        let first = all[0];
        let rest = lines_from(data, end, ordinal + 1);
        assert(all =~= seq![first] + rest);
        rebuilt_with_first(data, first, rest);
        line_feed_before_end(data, from);
        assert(contents(data, first) + first.terminator.bytes() =~= data.subrange(from, end));
        assert(data.skip(from) =~= data.subrange(from, end) + data.skip(end));
    } else {
        assert(data.skip(from) =~= Seq::empty());
    }
}

proof fn line_feed_before_end(data: Seq<u8>, from: int)
    requires
        0 <= from < data.len(),
    ensures
        line_end(data, from) < data.len() ==> data[line_end(data, from) - 1] == 10,
    decreases data.len() - from,
{
    if data[from] != 10 {
        if from + 1 < data.len() {
            line_feed_before_end(data, from + 1);
        } else {
            assert(line_end(data, from + 1) == data.len());
        }
    }
}

/// The lines of a file hold all of its bytes: put back together they are the file.
pub proof fn lines_rebuild_the_file(data: Seq<u8>)
    requires
        data.len() <= u64::MAX,
        data.len() <= usize::MAX,
    ensures
        rebuilt(data, lines_from(data, 0, 0)) == data,
{
    rebuilt_from(data, 0, 0);
    assert(data.skip(0) =~= data);
}

/// The lines of a file.
pub fn lines(data: &[u8]) -> (lines: Vec<Framed>)
    ensures
        lines@ == lines_from(data@, 0, 0),
{
    let mut lines: Vec<Framed> = Vec::new();
    let length: usize = data.len();
    let mut from: usize = 0;
    assert(lines@ + lines_from(data@, 0, 0) =~= lines_from(data@, 0, 0));
    while from < length
        invariant
            from <= length,
            length == data@.len(),
            lines@.len() <= from,
            lines_from(data@, 0, 0) == lines@ + lines_from(
                data@,
                from as int,
                lines@.len(),
            ),
        decreases length - from,
    {
        let mut end: usize = from;
        while end < length && data[end] != 10
            invariant
                from <= end <= length,
                length == data@.len(),
                line_end(data@, from as int) == line_end(data@, end as int),
            decreases length - end,
        {
            end = end + 1;
        }
        if end < length {
            end = end + 1;
        }
        assert(end == line_end(data@, from as int));
        let terminator = if data[end - 1] != 10 {
            Terminator::Missing
        } else if end - from >= 2 && data[end - 2] == 13 {
            Terminator::CarriageReturnLineFeed
        } else {
            Terminator::LineFeed
        };
        let ghost before = lines@;
        let line = Framed {
            offset: from as u64,
            bytes: end - from - terminator.length(),
            ordinal: lines.len() as u64,
            terminator,
        };
        lines.push(line);
        assert(before + lines_from(data@, from as int, before.len()) =~= lines@ + lines_from(
            data@,
            end as int,
            lines@.len(),
        ));
        from = end;
    }
    assert(lines@ + lines_from(data@, from as int, lines@.len()) =~= lines@);
    lines
}

/// Whether a file ends with a newline.
pub fn final_newline(lines: &Vec<Framed>) -> (ends: bool)
    ensures
        ends == (lines@.len() > 0 && lines@.last().terminator !is Missing),
{
    if lines.len() == 0 {
        return false;
    }
    match lines[lines.len() - 1].terminator {
        Terminator::Missing => false,
        _ => true,
    }
}

/// How many bytes of a journal are complete lines: up to and with the last line feed.
pub open spec fn complete_prefix(data: Seq<u8>) -> int
    decreases data.len(),
{
    if data.len() == 0 {
        0
    } else if data.last() == 10 {
        data.len() as int
    } else {
        complete_prefix(data.drop_last())
    }
}

/// How many bytes of a journal are complete lines. What follows is an interrupted append.
pub fn complete_length(data: &[u8]) -> (length: usize)
    ensures
        length == complete_prefix(data@),
        length <= data@.len(),
{
    let mut length: usize = data.len();
    assert(data@.take(length as int) =~= data@);
    while length > 0 && data[length - 1] != 10
        invariant
            length <= data@.len(),
            complete_prefix(data@) == complete_prefix(data@.take(length as int)),
        decreases length,
    {
        assert(data@.take(length as int).drop_last() =~= data@.take(length - 1));
        length = length - 1;
    }
    length
}

} // verus!
