//! The end of a run: when the owner stops, and in which order it drains, releases the lease,
//! uploads, removes claims and publishes.

use crate::live::archive::upload_failure;
use crate::table::{in_order, Table};
use crate::text::{refusal, text_of};
use vstd::prelude::*;
use vstd::string::*;

verus! {

/// What the owner does next while it runs.
#[derive(Debug, Clone, Copy, PartialEq, Eq, Structural)]
pub enum Turn {
    /// The run was cut off: health is written, and the lease and the claims are kept.
    CutOff,
    /// The run ends, with everything published.
    Finish,
    /// The next report is received and handled.
    Receive,
}

/// Decides what the owner does next: one that was asked to stop still waits for the rows and the
/// dispatches that are under way.
pub fn turn(interrupted: bool, stop: bool, pending_rows: usize, dispatches: usize) -> (next: Turn)
    ensures
        next == (if interrupted {
            Turn::CutOff
        } else if stop && pending_rows == 0 && dispatches == 0 {
            Turn::Finish
        } else {
            Turn::Receive
        }),
{
    if interrupted {
        Turn::CutOff
    } else if stop && pending_rows == 0 && dispatches == 0 {
        Turn::Finish
    } else {
        Turn::Receive
    }
}

/// How far the end of a run has come.
#[derive(Debug, Clone, Copy, PartialEq, Eq, Structural)]
pub enum Stage {
    /// Nothing was done yet.
    Begin,
    /// The workers of the brokers were stopped; what they reported is taken.
    Draining,
    /// The rows that waited were looked at.
    Rows,
    /// The lease was given back.
    Released,
    /// The closed segments are uploaded.
    Uploading,
    /// The claims whose lifecycle is archived are removed: `at` were, and `told` says that the
    /// removal of the next was announced.
    Deleting { at: usize, told: bool },
    /// The ledger is published.
    Ledger,
    /// The receipt and the final manifest are published.
    Publishing,
    /// All is published.
    Done,
}

/// What the owner does to end a run.
#[derive(Debug)]
pub enum Ending {
    /// Entries are disabled, waits are dropped, and the workers of the brokers and of the lease
    /// are stopped and joined.
    StopBrokers,
    /// One more report of the workers is handled.
    TakeReport,
    /// The rows that waited are looked at.
    RowsReady,
    /// Entries stay disabled, and the lease is released where one is held.
    Release { token: Option<u64> },
    /// A closed segment is uploaded.
    Upload(String),
    /// The next report is received and handled.
    Receive,
    /// It is announced that a claim will be removed.
    Announce(String),
    /// A claim is removed.
    Delete(String),
    /// The ledger is handed over for publication.
    SendLedger,
    /// The receipt and the final manifest are handed over for publication.
    Publish,
    /// Health is written, and the run is complete.
    Complete,
}

/// Why no entry is made while the reports of stopped workers are taken.
pub const DRAINING: &'static str = "shutdown: draining observations";

/// Why no entry is made once the lease is given back.
pub const RELEASING: &'static str = "shutdown: lease release begun";

/// The reason for which a step disables entries.
pub fn disables(ending: &Ending) -> (reason: Option<&'static str>)
    ensures
        match reason {
            Some(reason) => (ending is StopBrokers && reason@ == DRAINING@) || (ending is Release
                && reason@ == RELEASING@),
            None => !(ending is StopBrokers) && !(ending is Release),
        },
{
    match ending {
        Ending::StopBrokers => Some(DRAINING),
        Ending::Release { .. } => Some(RELEASING),
        _ => None,
    }
}

/// What is known while a run ends.
#[derive(Debug)]
pub struct Known<'a> {
    pub interrupted: bool,
    /// Whether the recorded evidence of the run was reproduced.
    pub reproduced: bool,
    pub failure: &'a Option<String>,
    pub clock_failure: &'a Option<String>,
    /// Whether reports of the stopped workers are left.
    pub reports: bool,
    /// How the workers of the brokers ended.
    pub joined: &'a Result<(), String>,
    pub fencing_token: u64,
    /// The closed segments that are not uploaded, in order.
    pub closed: &'a Vec<String>,
    pub uploads: usize,
    pub upload_errors: &'a Table<String>,
    /// The commands whose claims may be removed.
    pub deletions: &'a Vec<String>,
    pub ledger: &'a Option<Result<String, String>>,
    pub publication: &'a Option<Result<String, String>>,
}

/// Why the end of a run is called off.
pub open spec fn cut_off() -> Seq<char> {
    "live: archival interrupted before final publication"@
}

/// Why a run that failed is not published: the first failure, its own before that of its clock.
pub open spec fn failure_of(known: Known<'_>) -> Option<Seq<char>> {
    match *known.failure {
        Some(failure) => Some(failure@),
        None => text_of(*known.clock_failure),
    }
}

/// The first upload that failed, by the name of its segment.
pub open spec fn failed_upload(known: Known<'_>) -> Option<Seq<char>> {
    if known.upload_errors@.dom() == Set::<Seq<char>>::empty() {
        None
    } else {
        Some(known.upload_errors@[in_order(known.upload_errors@.dom())[0]]@)
    }
}

/// Why the end of a run stops at a stage.
pub open spec fn ending_refusal(stage: Stage, known: Known<'_>) -> Option<Seq<char>> {
    if known.interrupted {
        Some(cut_off())
    } else {
        match stage {
            Stage::Begin => if !known.reproduced {
                Some("live replay: recorded log ended before the journal prefix reproduced"@)
            } else {
                failure_of(known)
            },
            Stage::Draining => if known.reports {
                None
            } else {
                refusal(*known.joined)
            },
            Stage::Rows => text_of(*known.failure),
            Stage::Uploading => if known.uploads > 0 {
                None
            } else {
                failed_upload(known)
            },
            Stage::Ledger => match *known.ledger {
                None => None,
                Some(Err(message)) => Some(message@),
                Some(Ok(_)) => text_of(*known.failure),
            },
            Stage::Publishing => match *known.publication {
                Some(Err(message)) => Some(message@),
                _ => None,
            },
            _ => None,
        }
    }
}

/// The stage that follows one which does not stop the end of a run.
pub open spec fn stage_after(stage: Stage, known: Known<'_>) -> Stage {
    match stage {
        Stage::Begin => Stage::Draining,
        Stage::Draining => if known.reports {
            Stage::Draining
        } else {
            Stage::Rows
        },
        Stage::Rows => Stage::Released,
        Stage::Released => Stage::Uploading,
        Stage::Uploading => if known.uploads > 0 || known.closed@.len() > 0 {
            Stage::Uploading
        } else {
            Stage::Deleting { at: 0, told: false }
        },
        Stage::Deleting { at, told } => if at >= known.deletions@.len() {
            Stage::Ledger
        } else if told {
            Stage::Deleting { at: (at + 1) as usize, told: false }
        } else {
            Stage::Deleting { at, told: true }
        },
        Stage::Ledger => if *known.ledger is None {
            Stage::Ledger
        } else {
            Stage::Publishing
        },
        Stage::Publishing => if *known.publication is None {
            Stage::Publishing
        } else {
            Stage::Done
        },
        Stage::Done => Stage::Done,
    }
}

/// Whether this is what is done at a stage.
pub open spec fn is_done(stage: Stage, known: Known<'_>, ending: Option<Ending>) -> bool {
    match stage {
        Stage::Begin => ending matches Some(Ending::StopBrokers),
        Stage::Draining => if known.reports {
            ending matches Some(Ending::TakeReport)
        } else {
            ending matches Some(Ending::RowsReady)
        },
        Stage::Rows => ending == Some(
            Ending::Release {
                token: if known.fencing_token != 0 {
                    Some(known.fencing_token)
                } else {
                    None
                },
            },
        ),
        // The first upload is tried whatever failed before.
        Stage::Released => if known.uploads == 0 && known.closed@.len() > 0 {
            ending matches Some(Ending::Upload(name)) && name@ == known.closed@[0]@
        } else {
            ending is None
        },
        Stage::Uploading => if known.uploads > 0 {
            ending matches Some(Ending::Receive)
        } else if known.closed@.len() > 0 {
            ending matches Some(Ending::Upload(name)) && name@ == known.closed@[0]@
        } else {
            ending is None
        },
        Stage::Deleting { at, told } => if at >= known.deletions@.len() {
            ending matches Some(Ending::SendLedger)
        } else if told {
            ending matches Some(Ending::Delete(command)) && command@ == known.deletions@[at as int]@
        } else {
            ending matches Some(Ending::Announce(command)) && command@
                == known.deletions@[at as int]@
        },
        Stage::Ledger => if *known.ledger is None {
            ending matches Some(Ending::Receive)
        } else {
            ending matches Some(Ending::Publish)
        },
        Stage::Publishing => if *known.publication is None {
            ending matches Some(Ending::Receive)
        } else {
            ending matches Some(Ending::Complete)
        },
        Stage::Done => ending is None,
    }
}

fn stops(stage: Stage, known: &Known<'_>) -> (stopped: Option<String>)
    ensures
        text_of(stopped) == ending_refusal(stage, *known),
{
    if known.interrupted {
        return Some("live: archival interrupted before final publication".to_owned());
    }
    match stage {
        Stage::Begin => if !known.reproduced {
            Some("live replay: recorded log ended before the journal prefix reproduced".to_owned())
        } else if known.failure.is_some() {
            known.failure.clone()
        } else {
            known.clock_failure.clone()
        },
        Stage::Draining => if known.reports {
            None
        } else {
            match known.joined {
                Ok(_) => None,
                Err(message) => Some(message.clone()),
            }
        },
        Stage::Rows => known.failure.clone(),
        Stage::Uploading => if known.uploads > 0 {
            None
        } else {
            upload_failure(known.upload_errors)
        },
        Stage::Ledger => match known.ledger {
            None => None,
            Some(Err(message)) => Some(message.clone()),
            Some(Ok(_)) => known.failure.clone(),
        },
        Stage::Publishing => match known.publication {
            Some(Err(message)) => Some(message.clone()),
            _ => None,
        },
        _ => None,
    }
}

/// Takes the end of a run one step further: the stage that follows, and what is done to get
/// there, where anything is.
pub fn advance(stage: Stage, known: &Known<'_>) -> (advanced: Result<
    (Stage, Option<Ending>),
    String,
>)
    ensures
        refusal(advanced) == ending_refusal(stage, *known),
        advanced matches Ok((next, ending)) ==> next == stage_after(stage, *known) && is_done(
            stage,
            *known,
            ending,
        ),
{
    if let Some(message) = stops(stage, known) {
        return Err(message);
    }
    let step: (Stage, Option<Ending>) = match stage {
        Stage::Begin => (Stage::Draining, Some(Ending::StopBrokers)),
        Stage::Draining => if known.reports {
            (Stage::Draining, Some(Ending::TakeReport))
        } else {
            (Stage::Rows, Some(Ending::RowsReady))
        },
        Stage::Rows => {
            let token: Option<u64> = if known.fencing_token != 0 {
                Some(known.fencing_token)
            } else {
                None
            };
            (Stage::Released, Some(Ending::Release { token }))
        },
        Stage::Released => if known.uploads == 0 && known.closed.len() > 0 {
            (Stage::Uploading, Some(Ending::Upload(known.closed[0].clone())))
        } else {
            (Stage::Uploading, None)
        },
        Stage::Uploading => if known.uploads > 0 {
            (Stage::Uploading, Some(Ending::Receive))
        } else if known.closed.len() > 0 {
            (Stage::Uploading, Some(Ending::Upload(known.closed[0].clone())))
        } else {
            (Stage::Deleting { at: 0, told: false }, None)
        },
        Stage::Deleting { at, told } => if at >= known.deletions.len() {
            (Stage::Ledger, Some(Ending::SendLedger))
        } else if told {
            (
                Stage::Deleting { at: at + 1, told: false },
                Some(Ending::Delete(known.deletions[at].clone())),
            )
        } else {
            (
                Stage::Deleting { at, told: true },
                Some(Ending::Announce(known.deletions[at].clone())),
            )
        },
        Stage::Ledger => if known.ledger.is_none() {
            (Stage::Ledger, Some(Ending::Receive))
        } else {
            (Stage::Publishing, Some(Ending::Publish))
        },
        Stage::Publishing => if known.publication.is_none() {
            (Stage::Publishing, Some(Ending::Receive))
        } else {
            (Stage::Done, Some(Ending::Complete))
        },
        Stage::Done => (Stage::Done, None),
    };
    Ok(step)
}

/// The place of a stage in the order of the end of a run.
pub open spec fn rank(stage: Stage) -> int {
    match stage {
        Stage::Begin => 0,
        Stage::Draining => 1,
        Stage::Rows => 2,
        Stage::Released => 3,
        Stage::Uploading => 4,
        Stage::Deleting { .. } => 5,
        Stage::Ledger => 6,
        Stage::Publishing => 7,
        Stage::Done => 8,
    }
}

/// Whether the end of a run went from stage to stage, each allowed by what was known then.
pub open spec fn is_ending(stages: Seq<Stage>, known: Seq<Known<'_>>) -> bool {
    &&& stages.len() == known.len() + 1
    &&& stages[0] is Begin
    &&& forall|i: int|
        0 <= i < known.len() ==> #[trigger] ending_refusal(stages[i], known[i]) is None
            && stages[i + 1] == stage_after(stages[i], known[i])
}

proof fn ranks_grow(stages: Seq<Stage>, known: Seq<Known<'_>>, i: int, j: int)
    requires
        is_ending(stages, known),
        0 <= i <= j < stages.len(),
    ensures
        rank(stages[i]) <= rank(stages[j]),
        rank(stages[j]) <= rank(stages[i]) + (j - i),
    decreases j - i,
{
    if i < j {
        ranks_grow(stages, known, i, j - 1);
        assert(ending_refusal(stages[j - 1], known[j - 1]) is None);
    }
}

proof fn stage_was_left(stages: Seq<Stage>, known: Seq<Known<'_>>, wanted: int, end: int) -> (at:
    int)
    requires
        is_ending(stages, known),
        0 <= end < stages.len(),
        0 <= wanted < rank(stages[end]),
    ensures
        0 <= at < end,
        rank(stages[at]) == wanted,
        rank(stages[at + 1]) == wanted + 1,
        ending_refusal(stages[at], known[at]) is None,
        stages[at + 1] == stage_after(stages[at], known[at]),
    decreases end,
{
    assert(end > 0);
    assert(ending_refusal(stages[end - 1], known[end - 1]) is None);
    if rank(stages[end - 1]) <= wanted {
        end - 1
    } else {
        stage_was_left(stages, known, wanted, end - 1)
    }
}

/// A claim is removed only after every closed segment was uploaded without a failure, and only
/// where the run was not cut off: at some moment before, nothing was left to upload, nothing was
/// under way and nothing had failed.
pub proof fn claims_outlive_their_archive(
    stages: Seq<Stage>,
    known: Seq<Known<'_>>,
    end: int,
) -> (at: int)
    requires
        is_ending(stages, known),
        0 <= end < stages.len(),
        stages[end] is Deleting,
    ensures
        0 <= at < end,
        known[at].uploads == 0,
        known[at].closed@.len() == 0,
        failed_upload(known[at]) is None,
        !known[at].interrupted,
{
    stage_was_left(stages, known, 4, end)
}

/// A run is complete only after its lease was given back, its claims were removed, its ledger was
/// published and no failure was known: the ledger, and then the receipt and the manifest, were
/// answered without an error.
pub proof fn a_complete_run_is_published(stages: Seq<Stage>, known: Seq<Known<'_>>) -> (answered: (
    int,
    int,
))
    requires
        is_ending(stages, known),
        stages.last() is Done,
    ensures
        ({
            let (ledger, publication) = answered;
            &&& 0 <= ledger < publication < known.len()
            &&& *known[ledger].ledger matches Some(Ok(_))
            &&& *known[ledger].failure is None
            &&& *known[publication].publication matches Some(Ok(_))
            &&& !known[ledger].interrupted && !known[publication].interrupted
        }),
{
    let end = stages.len() - 1;
    let publication = stage_was_left(stages, known, 7, end);
    let ledger = stage_was_left(stages, known, 6, end);
    if publication <= ledger {
        ranks_grow(stages, known, publication, ledger);
    }
    (ledger, publication)
}

/// The end of a run never turns back.
pub proof fn an_ending_goes_forward(stages: Seq<Stage>, known: Seq<Known<'_>>, i: int, j: int)
    requires
        is_ending(stages, known),
        0 <= i <= j < stages.len(),
    ensures
        rank(stages[i]) <= rank(stages[j]),
{
    ranks_grow(stages, known, i, j);
}

} // verus!
