//! A daily archive of ticks: one directory per instrument, with a Parquet file and a metadata
//! file for each calendar day.

use crate::dataset::ObjectRole;
use crate::digest::{digest, hex, sha256};
use crate::import::collection::PlannedFile;
use crate::table::Table;
use crate::text::{
    append_decimal, begins_with, decimal, finishes_with, join, join4, refusal, same_text,
    starts_with, strip_suffix, text_of,
};
use vstd::prelude::*;
use vstd::string::*;

verus! {

/// How the name of a day's Parquet file ends.
pub const PARQUET_SUFFIX: &'static str = "_ticks.parquet";

/// How the name of a day's metadata file ends.
pub const METADATA_SUFFIX: &'static str = "_ticks.meta.json";

/// The rest of a text after a prefix.
pub open spec fn after(text: Seq<char>, prefix: Seq<char>) -> Option<Seq<char>> {
    if begins_with(text, prefix) {
        Some(text.skip(prefix.len() as int))
    } else {
        None
    }
}

/// What stands before a suffix, if it takes ten bytes.
pub open spec fn ten_bytes_before(text: Seq<char>, suffix: Seq<char>) -> Option<Seq<char>> {
    if finishes_with(text, suffix) && vstd::utf8::encode_utf8(
        text.subrange(0, text.len() - suffix.len()),
    ).len() == 10 {
        Some(text.subrange(0, text.len() - suffix.len()))
    } else {
        None
    }
}

/// The date in the name of a day's file, and whether it is the Parquet file.
pub open spec fn daily_name(name: Seq<char>, file_name: Seq<char>) -> Option<(Seq<char>, bool)> {
    match after(file_name, name + "_"@) {
        None => None,
        Some(rest) => match ten_bytes_before(rest, PARQUET_SUFFIX@) {
            Some(date) => Some((date, true)),
            None => match ten_bytes_before(rest, METADATA_SUFFIX@) {
                Some(date) => Some((date, false)),
                None => None,
            },
        },
    }
}

fn date_before<'a>(text: &'a str, suffix: &str) -> (date: Option<&'a str>)
    ensures
        match date {
            Some(date) => ten_bytes_before(text@, suffix@) == Some(date@),
            None => ten_bytes_before(text@, suffix@) is None,
        },
{
    match strip_suffix(text, suffix) {
        Some(date) => if date.as_bytes().len() == 10 {
            Some(date)
        } else {
            None
        },
        None => None,
    }
}

/// The date in `NAME_YYYY-MM-DD_ticks.parquet` (`true`) or `NAME_YYYY-MM-DD_ticks.meta.json`
/// (`false`), which still has to be a calendar date; any other name is none of them.
pub fn daily_file<'a>(name: &str, file_name: &'a str) -> (day: Option<(&'a str, bool)>)
    ensures
        match day {
            Some((date, is_parquet)) => daily_name(name@, file_name@) == Some((date@, is_parquet)),
            None => daily_name(name@, file_name@) is None,
        },
{
    let prefix = join(name, "_");
    if !starts_with(file_name, prefix.as_str()) {
        return None;
    }
    let rest = file_name.substring_char(prefix.as_str().unicode_len(), file_name.unicode_len());
    assert(rest@ =~= file_name@.skip(prefix@.len() as int));
    match date_before(rest, PARQUET_SUFFIX) {
        Some(date) => Some((date, true)),
        None => match date_before(rest, METADATA_SUFFIX) {
            Some(date) => Some((date, false)),
            None => None,
        },
    }
}

/// The files of one calendar day.
#[derive(Debug)]
pub struct DayFiles {
    pub parquet: Option<PlannedFile>,
    pub metadata: Option<PlannedFile>,
}

impl Clone for DayFiles {
    fn clone(&self) -> (copy: Self)
        ensures
            copy == *self,
    {
        DayFiles {
            parquet: match &self.parquet {
                Some(file) => Some(file.clone()),
                None => None,
            },
            metadata: match &self.metadata {
                Some(file) => Some(file.clone()),
                None => None,
            },
        }
    }
}

/// What is known of a day before any of its files is.
pub open spec fn files_of(days: Map<Seq<char>, DayFiles>, date: Seq<char>) -> DayFiles {
    if days.dom().contains(date) {
        days[date]
    } else {
        DayFiles { parquet: None, metadata: None }
    }
}

/// Whether files of a day are those before, with one more.
pub open spec fn with_file(
    before: DayFiles,
    now: DayFiles,
    is_parquet: bool,
    file_name: Seq<char>,
    absolute: Seq<char>,
) -> bool {
    let file = if is_parquet {
        now.parquet
    } else {
        now.metadata
    };
    &&& file is Some
    &&& file->0.path@ == file_name
    &&& file->0.absolute@ == absolute
    &&& file->0.role == if is_parquet {
        ObjectRole::Source
    } else {
        ObjectRole::Provenance
    }
    &&& is_parquet ==> now.metadata == before.metadata
    &&& !is_parquet ==> now.parquet == before.parquet
}

/// Notes a file of an instrument's directory with the day that its name gives.
pub fn note_file(
    days: &mut Table<DayFiles>,
    name: &str,
    file_name: &str,
    absolute: &str,
) -> (result: Result<(), String>)
    ensures
        match daily_name(name@, file_name@) {
            Some((date, is_parquet)) => {
                &&& result is Ok
                &&& final(days)@.dom() == old(days)@.dom().insert(date)
                &&& forall|other: Seq<char>| #[trigger]
                    old(days)@.dom().contains(other) && other != date ==> final(days)@[other]
                        == old(days)@[other]
                &&& with_file(
                    files_of(old(days)@, date),
                    final(days)@[date],
                    is_parquet,
                    file_name@,
                    absolute@,
                )
            },
            None => {
                &&& refusal(result) == Some(
                    absolute@ + " is not `"@ + name@ + "_YYYY-MM-DD_ticks.parquet` or `"@ + name@
                        + "_YYYY-MM-DD_ticks.meta.json`"@,
                )
                &&& final(days)@ == old(days)@
            },
        },
{
    let (date, is_parquet) = match daily_file(name, file_name) {
        Some((date, is_parquet)) => (date, is_parquet),
        None => {
            let mut message = join4(
                absolute,
                " is not `",
                name,
                "_YYYY-MM-DD_ticks.parquet` or `",
            );
            message.append(name);
            message.append("_YYYY-MM-DD_ticks.meta.json`");
            return Err(message);
        },
    };
    let mut files = match days.get(date) {
        Some(files) => files.clone(),
        None => DayFiles { parquet: None, metadata: None },
    };
    let planned = PlannedFile {
        role: if is_parquet {
            ObjectRole::Source
        } else {
            ObjectRole::Provenance
        },
        path: file_name.to_owned(),
        absolute: absolute.to_owned(),
    };
    if is_parquet {
        files.parquet = Some(planned);
    } else {
        files.metadata = Some(planned);
    }
    days.insert(date.to_owned(), files);
    Ok(())
}

/// Why a day cannot be planned: its date is none of the calendar, or it has no metadata file.
pub open spec fn unplannable(
    dir: Seq<char>,
    date: Seq<char>,
    start: Option<i64>,
    files: DayFiles,
) -> Option<Seq<char>> {
    if start is None {
        Some(dir + ": `"@ + date + "` is not a calendar date"@)
    } else if files.metadata is None {
        Some(files.parquet->0.absolute@ + " has no metadata file"@)
    } else {
        None
    }
}

/// Checks that a day, which has a file, can be planned; `start` is its first microsecond, where
/// its date is one of the calendar.
pub fn check_day(dir: &str, date: &str, start: Option<i64>, files: &DayFiles) -> (result: Result<
    (),
    String,
>)
    requires
        files.parquet is Some || files.metadata is Some,
    ensures
        refusal(result) == unplannable(dir@, date@, start, *files),
{
    if start.is_none() {
        return Err(join4(dir, ": `", date, "` is not a calendar date"));
    }
    if files.metadata.is_none() {
        if let Some(file) = &files.parquet {
            return Err(join(file.absolute.as_str(), " has no metadata file"));
        }
    }
    Ok(())
}

/// What the metadata file of a day records.
#[derive(Debug)]
pub struct DailyMetadata {
    pub symbol: String,
    pub date: String,
    pub calendar: String,
    pub ticks: u64,
}

/// A day that is decoded.
#[derive(Debug)]
pub struct Day {
    /// The path of the Parquet file's object.
    pub path: String,
    /// The first microsecond of the day.
    pub start_micros: i64,
    /// How many rows the metadata records.
    pub ticks: u64,
}

/// The dataset of a directory, as far as its days were planned.
#[derive(Debug)]
pub struct DailyPlan {
    pub symbol: Option<String>,
    pub sources: Vec<PlannedFile>,
    pub provenance: Vec<PlannedFile>,
    /// The metadata files that were parsed, with the digests of their bytes.
    pub parsed: Vec<(String, String)>,
    pub days: Vec<Day>,
}

/// Why a day's metadata are refused.
pub open spec fn wrong_metadata(
    symbol: Option<Seq<char>>,
    date: Seq<char>,
    metadata: Seq<char>,
    parquet: Option<PlannedFile>,
    record: DailyMetadata,
) -> Option<Seq<char>> {
    if record.calendar@ != "UTC"@ || record.date@ != date {
        Some(
            metadata + " records calendar `"@ + record.calendar@ + "` and date `"@ + record.date@
                + "`, expected `UTC` and `"@ + date + "`"@,
        )
    } else if symbol is Some && symbol->0 != record.symbol@ {
        Some(
            metadata + " records symbol `"@ + record.symbol@
                + "`, but the directory's earlier days record `"@ + symbol->0 + "`"@,
        )
    } else if parquet is None && record.ticks != 0 {
        Some(
            metadata + " records "@ + decimal(record.ticks as nat)
                + " ticks but the day has no Parquet file"@,
        )
    } else {
        None
    }
}

impl DailyPlan {
    /// Every decoded day has its Parquet file among the sources, in the same place, and where
    /// there is a source the symbol is known.
    pub open spec fn wf(&self) -> bool {
        &&& self.days@.len() == self.sources@.len()
        &&& forall|i: int|
            0 <= i < self.days@.len() ==> (#[trigger] self.days@[i]).path@
                == self.sources@[i].path@
        &&& self.sources@.len() > 0 ==> self.symbol is Some
    }

    /// A plan without days.
    pub fn new() -> (plan: Self)
        ensures
            plan.wf(),
            plan.symbol is None,
            plan.sources@.len() == 0,
            plan.provenance@.len() == 0,
            plan.parsed@.len() == 0,
            plan.days@.len() == 0,
    {
        DailyPlan {
            symbol: None,
            sources: Vec::new(),
            provenance: Vec::new(),
            parsed: Vec::new(),
            days: Vec::new(),
        }
    }

    /// Plans the next day, whose metadata file holds `text`, which reads as `record`.
    pub fn accept_day(
        &mut self,
        date: &str,
        start_micros: i64,
        parquet: &Option<PlannedFile>,
        metadata: &PlannedFile,
        text: &[u8],
        record: &DailyMetadata,
    ) -> (result: Result<(), String>)
        requires
            old(self).wf(),
        ensures
            final(self).wf(),
            refusal(result) == wrong_metadata(
                text_of(old(self).symbol),
                date@,
                metadata.absolute@,
                *parquet,
                *record,
            ),
            result is Err ==> *final(self) == *old(self),
            result is Ok ==> {
                &&& text_of(final(self).symbol) == Some(record.symbol@)
                &&& final(self).provenance@ == old(self).provenance@.push(*metadata)
                &&& final(self).parsed@.len() == old(self).parsed@.len() + 1
                &&& final(self).parsed@.drop_last() == old(self).parsed@
                &&& final(self).parsed@.last().0@ == metadata.path@
                &&& final(self).parsed@.last().1@ == hex(sha256(text@))
                &&& match *parquet {
                    Some(file) => {
                        &&& final(self).sources@ == old(self).sources@.push(file)
                        &&& final(self).days@.len() == old(self).days@.len() + 1
                        &&& final(self).days@.drop_last() == old(self).days@
                        &&& final(self).days@.last().path@ == file.path@
                        &&& final(self).days@.last().start_micros == start_micros
                        &&& final(self).days@.last().ticks == record.ticks
                    },
                    None => {
                        &&& final(self).sources@ == old(self).sources@
                        &&& final(self).days@ == old(self).days@
                    },
                }
            },
    {
        if !same_text(record.calendar.as_str(), "UTC") || !same_text(record.date.as_str(), date) {
            let mut message = join4(
                metadata.absolute.as_str(),
                " records calendar `",
                record.calendar.as_str(),
                "` and date `",
            );
            message.append(record.date.as_str());
            message.append("`, expected `UTC` and `");
            message.append(date);
            message.append("`");
            return Err(message);
        }
        if let Some(symbol) = &self.symbol {
            if !same_text(symbol.as_str(), record.symbol.as_str()) {
                let mut message = join4(
                    metadata.absolute.as_str(),
                    " records symbol `",
                    record.symbol.as_str(),
                    "`, but the directory's earlier days record `",
                );
                message.append(symbol.as_str());
                message.append("`");
                return Err(message);
            }
        }
        if parquet.is_none() && record.ticks != 0 {
            let mut message = join(metadata.absolute.as_str(), " records ");
            append_decimal(&mut message, record.ticks);
            message.append(" ticks but the day has no Parquet file");
            return Err(message);
        }
        let ghost before = *self;
        self.symbol = Some(record.symbol.clone());
        self.parsed.push((metadata.path.clone(), digest(text)));
        assert(self.parsed@.drop_last() =~= before.parsed@);
        if let Some(file) = parquet {
            self.days.push(
                Day { path: file.path.clone(), start_micros, ticks: record.ticks },
            );
            self.sources.push(file.clone());
            assert(self.days@.drop_last() =~= before.days@);
            assert forall|i: int| 0 <= i < self.days@.len() implies (#[trigger] self.days@[i]).path@
                == self.sources@[i].path@ by {
                if i < before.days@.len() {
                    assert(self.days@[i] == before.days@[i]);
                    assert(self.sources@[i] == before.sources@[i]);
                }
            }
        }
        self.provenance.push(metadata.clone());
        Ok(())
    }

    /// The files of the dataset: its sources, then its provenance. A directory without a Parquet
    /// file holds no dataset.
    pub fn finish(self, dir: &str) -> (result: Result<(String, Vec<PlannedFile>), String>)
        requires
            self.wf(),
        ensures
            refusal(result) == if self.sources@.len() == 0 {
                Some(dir@ + " holds no daily Parquet file"@)
            } else {
                None
            },
            result matches Ok((symbol, files)) ==> text_of(self.symbol) == Some(symbol@) && files@
                == self.sources@ + self.provenance@,
    {
        if self.sources.len() == 0 {
            return Err(join(dir, " holds no daily Parquet file"));
        }
        let mut files = self.sources;
        let mut provenance = self.provenance;
        files.append(&mut provenance);
        match self.symbol {
            Some(symbol) => Ok((symbol, files)),
            None => Err(join(dir, " holds no daily Parquet file")),
        }
    }
}

/// A decoded day must have as many rows as its metadata record.
pub fn check_day_rows(day: &Day, rows: usize) -> (result: Result<(), String>)
    ensures
        refusal(result) == if rows == day.ticks {
            None
        } else {
            Some(
                day.path@ + ": "@ + decimal(rows as nat) + " rows, metadata records "@ + decimal(
                    day.ticks as nat,
                ) + " ticks"@,
            )
        },
{
    if rows as u64 == day.ticks {
        return Ok(());
    }
    let mut message = join(day.path.as_str(), ": ");
    append_decimal(&mut message, rows as u64);
    message.append(" rows, metadata records ");
    append_decimal(&mut message, day.ticks);
    message.append(" ticks");
    Err(message)
}

} // verus!
