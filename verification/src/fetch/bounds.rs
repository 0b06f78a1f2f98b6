//! What one acquisition is bounded by, what it starts from, and what comes of it.

use crate::fetch::coverage::{
    HistoryCoverage, OccurrenceIdentity, PageCoverage, PageReceipt, Progress,
};
use crate::market::{DatasetRole, NativeGranularity};
use crate::text::{append_texts, join3, join4, refusal, same_text, text_of, views};
use vstd::prelude::*;
use vstd::string::*;

verus! {

/// The generations that a declaration gives an instrument in a role.
#[derive(Debug)]
pub struct Population {
    pub role: DatasetRole,
    pub instrument: String,
    pub generations: Vec<String>,
}

/// The limits of one invocation, and its durable progress.
#[derive(Debug)]
pub struct Bounds {
    pub acquisition: Option<OccurrenceIdentity>,
    pub diagnostics: Vec<PageCoverage>,
    pub max_pages: Option<u32>,
    pub deadline_micros: Option<i64>,
    /// The declaration that permits every baseline before it is opened; where there is none, the
    /// configuration's own stands.
    pub declaration: Option<Vec<Population>>,
    /// The pending intent to resume; its baseline, range and pages are authoritative.
    pub resume: Option<Progress>,
    /// Whether progress is kept durably.
    pub persists: bool,
}

impl Bounds {
    /// A pass of its own: without a limit of pages or time, and without durable progress.
    pub fn none() -> (bounds: Self)
        ensures
            bounds.acquisition is None,
            bounds.diagnostics@.len() == 0,
            bounds.max_pages is None,
            bounds.deadline_micros is None,
            bounds.declaration is None,
            bounds.resume is None,
            !bounds.persists,
    {
        Bounds {
            acquisition: None,
            diagnostics: Vec::new(),
            max_pages: None,
            deadline_micros: None,
            declaration: None,
            resume: None,
            persists: false,
        }
    }
}

/// What the normalized object of one acquisition records beyond its rows.
#[derive(Debug, Clone, Copy)]
pub struct Native {
    pub granularity: NativeGranularity,
    pub scale: u8,
    /// The provider's identifier that every bar carried; none for ticks.
    pub symbol_id: Option<i32>,
    /// The declared offset of the provider's clock.
    pub server_offset_s: i64,
}

impl Native {
    /// What an acquisition records before its first page; `server_offset_minutes` is declared
    /// where the provider's clock is off.
    pub fn new(granularity: NativeGranularity, scale: u8, server_offset_minutes: Option<i32>) -> (native:
        Self)
        ensures
            native.granularity == granularity,
            native.scale == scale,
            native.symbol_id is None,
            native.server_offset_s == match server_offset_minutes {
                Some(minutes) => minutes * 60,
                None => 0int,
            },
    {
        let server_offset_s: i64 = match server_offset_minutes {
            Some(minutes) => minutes as i64 * 60,
            None => 0,
        };
        Native { granularity, scale, symbol_id: None, server_offset_s }
    }
}

/// What came of one instrument's pass.
#[derive(Debug)]
pub struct Outcome {
    pub instrument: String,
    /// The ready generation that the pass published or reused.
    pub generation: Option<String>,
    pub coverage: HistoryCoverage,
    /// The acquisition stopped on its budget before it reached its start.
    pub pending: bool,
    pub receipts: Vec<PageReceipt>,
}

/// Fetching needs the table that says what to fetch.
pub fn check_history(declared: bool) -> (result: Result<(), String>)
    ensures
        refusal(result) == if declared {
            None
        } else {
            Some("fetch: the configuration declares no history table"@)
        },
{
    if declared {
        Ok(())
    } else {
        Err("fetch: the configuration declares no history table".to_owned())
    }
}

/// An instrument is fetched at the granularity that its definition has; `found` is that of the
/// definition, where there is one, and `shown` is the wanted one as it is printed.
pub fn check_declared(
    instrument: &str,
    found: Option<NativeGranularity>,
    wanted: NativeGranularity,
    shown: &str,
) -> (result: Result<(), String>)
    ensures
        refusal(result) == (if found == Some(wanted) {
            None
        } else {
            Some(
                "fetch: instrument "@ + instrument@ + " is not declared at "@ + shown@
                    + " granularity"@,
            )
        }),
{
    let declared: bool = match found {
        Some(found) => found == wanted,
        None => false,
    };
    if declared {
        return Ok(());
    }
    let mut message = join4("fetch: instrument ", instrument, " is not declared at ", shown);
    message.append(" granularity");
    Err(message)
}

/// Only ticks and bars of five seconds are fetched; `shown` is the granularity as it is printed.
pub fn check_granularity(granularity: NativeGranularity, shown: &str) -> (result: Result<(), String>)
    ensures
        refusal(result) == match granularity {
            NativeGranularity::Bar { period_seconds } => if period_seconds == 5 {
                None
            } else {
                Some(
                    "fetch: "@ + shown@
                        + " history is not supported; only ticks and 5-second bars are"@,
                )
            },
            NativeGranularity::Tick => None,
        },
{
    match granularity {
        NativeGranularity::Bar { period_seconds } => {
            if period_seconds == 5 {
                Ok(())
            } else {
                Err(
                    join3(
                        "fetch: ",
                        shown,
                        " history is not supported; only ticks and 5-second bars are",
                    ),
                )
            }
        },
        NativeGranularity::Tick => Ok(()),
    }
}

/// A manifest must lie where its own key says; `uri` is where it was read.
pub fn check_key(manifest_key: &str, key: &str, uri: &str, generation: &str) -> (result: Result<
    (),
    String,
>)
    ensures
        refusal(result) == if manifest_key@ == key@ {
            None
        } else {
            Some("fetch: "@ + uri@ + " holds the manifest of generation "@ + generation@)
        },
{
    if same_text(manifest_key, key) {
        Ok(())
    } else {
        Err(join4("fetch: ", uri, " holds the manifest of generation ", generation))
    }
}

/// The generations that a declaration gives an instrument in a role, in the order of the
/// declaration.
pub open spec fn declared_generations(
    populations: Seq<Population>,
    role: DatasetRole,
    instrument: Seq<char>,
) -> Seq<Seq<char>>
    decreases populations.len(),
{
    if populations.len() == 0 {
        Seq::empty()
    } else {
        let rest = declared_generations(populations.drop_last(), role, instrument);
        let last = populations.last();
        if last.role == role && last.instrument@ == instrument {
            rest + views(last.generations@)
        } else {
            rest
        }
    }
}

/// The generations that may be the prior one: the pinned one alone, or else those that are
/// declared, or else everything that is mirrored.
pub open spec fn candidates_of(
    pinned: Option<Seq<char>>,
    declaration: Option<Vec<Population>>,
    mirrored: Seq<String>,
    role: DatasetRole,
    instrument: Seq<char>,
) -> Seq<Seq<char>> {
    match pinned {
        Some(generation) => seq![generation],
        None => match declaration {
            Some(populations) => declared_generations(populations@, role, instrument),
            None => views(mirrored),
        },
    }
}

/// The generations that may be the prior one of an instrument. Under a declaration the mirror
/// does not count.
pub fn candidates(
    pinned: &Option<String>,
    declaration: &Option<Vec<Population>>,
    mirrored: &Vec<String>,
    role: DatasetRole,
    instrument: &str,
) -> (generations: Vec<String>)
    ensures
        views(generations@) == candidates_of(
            text_of(*pinned),
            *declaration,
            mirrored@,
            role,
            instrument@,
        ),
{
    let mut list: Vec<String> = Vec::new();
    assert(views(list@) =~= Seq::<Seq<char>>::empty());
    if let Some(generation) = pinned {
        list.push(generation.clone());
        assert(views(list@) =~= seq![generation@]);
        return list;
    }
    match declaration {
        Some(populations) => {
            let mut i: usize = 0;
            assert(populations@.take(0) =~= Seq::empty());
            while i < populations.len()
                invariant
                    i <= populations@.len(),
                    views(list@) == declared_generations(
                        populations@.take(i as int),
                        role,
                        instrument@,
                    ),
                decreases populations@.len() - i,
            {
                assert(populations@.take(i + 1).drop_last() =~= populations@.take(i as int));
                if populations[i].role == role && same_text(
                    populations[i].instrument.as_str(),
                    instrument,
                ) {
                    append_texts(&mut list, &populations[i].generations);
                }
                i = i + 1;
            }
            assert(populations@.take(i as int) =~= populations@);
        },
        None => {
            append_texts(&mut list, mirrored);
            assert(views(list@) =~= views(mirrored@));
        },
    }
    list
}

/// Under a declaration no generation is a candidate that was not declared for the instrument and
/// the role, whatever is mirrored.
pub proof fn a_declaration_hides_the_mirror(
    populations: Vec<Population>,
    mirrored: Seq<String>,
    others: Seq<String>,
    role: DatasetRole,
    instrument: Seq<char>,
)
    ensures
        candidates_of(None, Some(populations), mirrored, role, instrument) == candidates_of(
            None,
            Some(populations),
            others,
            role,
            instrument,
        ),
{
}

} // verus!
