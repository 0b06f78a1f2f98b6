//! The bars of a collection: every listed file must hold what its manifest records, and the
//! files must follow each other in time.

use crate::dataset::ObjectRecord;
use crate::import::collection::ListedFile;
use crate::text::{append_decimal, decimal, join, refusal, same_text};
use vstd::prelude::*;
use vstd::string::*;

verus! {

/// What rows of data amount to.
#[derive(Debug, Clone, Copy, PartialEq, Eq, Structural)]
pub struct DataSummary {
    pub rows: u64,
    pub first_event_micros: Option<i64>,
    pub last_event_micros: Option<i64>,
}

/// What one file of bars amounts to.
#[derive(Debug)]
pub struct BarSummary {
    pub data: DataSummary,
    /// Whether the file itself holds the interval contract.
    pub embedded_interval: bool,
}

impl DataSummary {
    /// Nothing.
    pub open spec fn nothing() -> Self {
        DataSummary { rows: 0, first_event_micros: None, last_event_micros: None }
    }

    /// What data and data after them amount to.
    pub open spec fn extended(self, more: DataSummary) -> Self {
        DataSummary {
            rows: (self.rows + more.rows) as u64,
            first_event_micros: if self.first_event_micros is Some {
                self.first_event_micros
            } else {
                more.first_event_micros
            },
            last_event_micros: if more.last_event_micros is Some {
                more.last_event_micros
            } else {
                self.last_event_micros
            },
        }
    }

    /// Adds data after these.
    pub fn extend(&mut self, more: &DataSummary)
        requires
            old(self).rows + more.rows <= u64::MAX,
        ensures
            *final(self) == old(self).extended(*more),
    {
        self.rows = self.rows + more.rows;
        if self.first_event_micros.is_none() {
            self.first_event_micros = more.first_event_micros;
        }
        if more.last_event_micros.is_some() {
            self.last_event_micros = more.last_event_micros;
        }
    }
}

/// Whether a retained file is the one that is listed.
pub open spec fn is_listed_file(record: ObjectRecord, file: ListedFile) -> bool {
    record.bytes == file.bytes && record.sha256@ == file.sha256@
}

/// How a retained file that is not the listed one is reported.
pub open spec fn unlisted(record: ObjectRecord, file: ListedFile) -> Seq<char> {
    file.path@ + ": "@ + decimal(record.bytes as nat) + " bytes and SHA-256 "@ + record.sha256@
        + " do not match the listed "@ + decimal(file.bytes as nat) + " bytes and "@ + file.sha256@
}

/// The first of the leading files that is refused, and why.
pub open spec fn first_unlisted(
    records: Seq<ObjectRecord>,
    listed: Seq<ListedFile>,
    n: int,
) -> Option<Seq<char>>
    decreases n,
{
    if n <= 0 {
        None
    } else {
        match first_unlisted(records, listed, n - 1) {
            Some(reason) => Some(reason),
            None => if is_listed_file(records[n - 1], listed[n - 1]) {
                None
            } else {
                Some(unlisted(records[n - 1], listed[n - 1]))
            },
        }
    }
}

/// How many pairs two lists form.
pub open spec fn pairs(left: nat, right: nat) -> int {
    if left <= right {
        left as int
    } else {
        right as int
    }
}

proof fn refusal_stays(records: Seq<ObjectRecord>, listed: Seq<ListedFile>, n: int, m: int)
    requires
        n <= m,
        first_unlisted(records, listed, n) is Some,
    ensures
        first_unlisted(records, listed, m) == first_unlisted(records, listed, n),
    decreases m - n,
{
    if n < m {
        refusal_stays(records, listed, n, m - 1);
    }
}

/// Every retained file must be the one that is listed in its place.
pub fn check_retained(records: &Vec<ObjectRecord>, listed: &Vec<ListedFile>) -> (result: Result<
    (),
    String,
>)
    ensures
        refusal(result) == first_unlisted(
            records@,
            listed@,
            pairs(records@.len(), listed@.len()),
        ),
{
    let mut i: usize = 0;
    while i < records.len() && i < listed.len()
        invariant
            i <= pairs(records@.len(), listed@.len()),
            first_unlisted(records@, listed@, i as int) is None,
        decreases records@.len() - i,
    {
        let record = &records[i];
        let file = &listed[i];
        if record.bytes != file.bytes || !same_text(record.sha256.as_str(), file.sha256.as_str()) {
            let mut message = join(file.path.as_str(), ": ");
            append_decimal(&mut message, record.bytes);
            message.append(" bytes and SHA-256 ");
            message.append(record.sha256.as_str());
            message.append(" do not match the listed ");
            append_decimal(&mut message, file.bytes);
            message.append(" bytes and ");
            message.append(file.sha256.as_str());
            proof {
                assert(first_unlisted(records@, listed@, i + 1) == Some(message@));
                refusal_stays(
                    records@,
                    listed@,
                    i + 1,
                    pairs(records@.len(), listed@.len()),
                );
            }
            return Err(message);
        }
        i = i + 1;
    }
    Ok(())
}

/// What leading files amount to together, whether all of them hold the interval contract, and
/// why they do not follow each other as listed, if they do not.
pub open spec fn gathered(
    listed: Seq<ListedFile>,
    summaries: Seq<BarSummary>,
    n: int,
) -> (DataSummary, bool, Option<Seq<char>>)
    decreases n,
{
    if n <= 0 {
        (DataSummary::nothing(), true, None)
    } else {
        let (total, embedded, reason) = gathered(listed, summaries, n - 1);
        let file = listed[n - 1];
        let data = summaries[n - 1].data;
        if reason is Some {
            (total, embedded, reason)
        } else if data.rows != file.rows {
            (
                total,
                embedded,
                Some(
                    file.path@ + ": "@ + decimal(data.rows as nat) + " rows, listed "@ + decimal(
                        file.rows as nat,
                    ),
                ),
            )
        } else if total.last_event_micros is Some && data.first_event_micros is Some
            && data.first_event_micros->0 <= total.last_event_micros->0 {
            (
                total,
                embedded,
                Some(file.path@ + ": starts at or before the previous file's last bar"@),
            )
        } else {
            (
                total.extended(data),
                embedded && summaries[n - 1].embedded_interval,
                None,
            )
        }
    }
}

/// All rows of some files.
pub open spec fn all_rows(summaries: Seq<BarSummary>) -> int
    decreases summaries.len(),
{
    if summaries.len() == 0 {
        0
    } else {
        all_rows(summaries.drop_last()) + summaries.last().data.rows
    }
}

proof fn rows_grow(summaries: Seq<BarSummary>, n: int)
    requires
        0 <= n <= summaries.len(),
    ensures
        0 <= all_rows(summaries.take(n)) <= all_rows(summaries),
    decreases summaries.len(),
{
    if n == summaries.len() {
        assert(summaries.take(n) =~= summaries);
        if n > 0 {
            rows_grow(summaries.drop_last(), n - 1);
            assert(summaries.drop_last().take(n - 1) =~= summaries.drop_last());
        }
    } else {
        rows_grow(summaries.drop_last(), n);
        assert(summaries.drop_last().take(n) =~= summaries.take(n));
    }
}

proof fn reason_stays(listed: Seq<ListedFile>, summaries: Seq<BarSummary>, n: int, m: int)
    requires
        n <= m,
        gathered(listed, summaries, n).2 is Some,
    ensures
        gathered(listed, summaries, m) == gathered(listed, summaries, n),
    decreases m - n,
{
    if n < m {
        reason_stays(listed, summaries, n, m - 1);
    }
}

/// Why the files of a dataset are refused together.
pub open spec fn wrong_bars(
    instrument: Seq<char>,
    listed: Seq<ListedFile>,
    summaries: Seq<BarSummary>,
    canonical_rows: u64,
) -> Option<Seq<char>> {
    let (total, embedded, reason) = gathered(listed, summaries, summaries.len() as int);
    if reason is Some {
        reason
    } else if total.rows != canonical_rows {
        Some(
            instrument + ": "@ + decimal(total.rows as nat) + " rows across listed files, recorded "@
                + decimal(canonical_rows as nat),
        )
    } else {
        None
    }
}

/// What the files of a dataset amount to, and whether all of them hold the interval contract.
pub fn validate_bars(
    instrument: &str,
    listed: &Vec<ListedFile>,
    summaries: &Vec<BarSummary>,
    canonical_rows: u64,
) -> (result: Result<(DataSummary, bool), String>)
    requires
        summaries@.len() == listed@.len(),
        all_rows(summaries@) <= u64::MAX,
    ensures
        refusal(result) == wrong_bars(instrument@, listed@, summaries@, canonical_rows),
        result matches Ok((total, embedded)) ==> ({
            let all = gathered(listed@, summaries@, summaries@.len() as int);
            total == all.0 && embedded == all.1
        }),
{
    let mut total = DataSummary { rows: 0, first_event_micros: None, last_event_micros: None };
    let mut embedded: bool = true;
    let mut i: usize = 0;
    while i < listed.len()
        invariant
            i <= listed@.len(),
            summaries@.len() == listed@.len(),
            all_rows(summaries@) <= u64::MAX,
            gathered(listed@, summaries@, i as int) == (total, embedded, None::<Seq<char>>),
            total.rows == all_rows(summaries@.take(i as int)),
        decreases listed@.len() - i,
    {
        proof {
            rows_grow(summaries@, i + 1);
            assert(summaries@.take(i + 1).drop_last() =~= summaries@.take(i as int));
        }
        let file = &listed[i];
        let data: DataSummary = summaries[i].data;
        if data.rows != file.rows {
            let mut message = join(file.path.as_str(), ": ");
            append_decimal(&mut message, data.rows);
            message.append(" rows, listed ");
            append_decimal(&mut message, file.rows);
            proof {
                assert(gathered(listed@, summaries@, i + 1).2 == Some(message@));
                reason_stays(listed@, summaries@, i + 1, listed@.len() as int);
            }
            return Err(message);
        }
        if let Some(last) = total.last_event_micros {
            if let Some(first) = data.first_event_micros {
                if first <= last {
                    let message = join(
                        file.path.as_str(),
                        ": starts at or before the previous file's last bar",
                    );
                    proof {
                        assert(gathered(listed@, summaries@, i + 1).2 == Some(message@));
                        reason_stays(listed@, summaries@, i + 1, listed@.len() as int);
                    }
                    return Err(message);
                }
            }
        }
        embedded = embedded && summaries[i].embedded_interval;
        total.extend(&data);
        i = i + 1;
    }
    if total.rows != canonical_rows {
        let mut message = join(instrument, ": ");
        append_decimal(&mut message, total.rows);
        message.append(" rows across listed files, recorded ");
        append_decimal(&mut message, canonical_rows);
        return Err(message);
    }
    Ok((total, embedded))
}

/// Where files are accepted together, each holds the listed rows, and starts after everything
/// that the files before it hold.
pub proof fn accepted_files_follow_each_other(
    listed: Seq<ListedFile>,
    summaries: Seq<BarSummary>,
    n: int,
    at: int,
)
    requires
        0 <= at < n,
        gathered(listed, summaries, n).2 is None,
    ensures
        summaries[at].data.rows == listed[at].rows,
        gathered(listed, summaries, at).0.last_event_micros is Some
            && summaries[at].data.first_event_micros is Some
            ==> gathered(listed, summaries, at).0.last_event_micros->0
            < summaries[at].data.first_event_micros->0,
    decreases n,
{
    if at < n - 1 {
        accepted_files_follow_each_other(listed, summaries, n - 1, at);
    }
}

} // verus!
