//! The beginning of a run: in which order the owner restores, records, takes the lease, recovers
//! and asks, and when it turns to the market.

use crate::live::deployment::Mode;
use crate::live::entries::{after_veto, Vetoes, AUTHORIZATION, BALANCE, WARMUP};
use vstd::prelude::*;
use vstd::string::*;

verus! {

/// How far the beginning of a run has come.
#[derive(Debug, Clone, Copy, PartialEq, Eq, Structural)]
pub enum Stage {
    /// The journal was opened, and the workers were started.
    Begin,
    /// What the journal says of running contracts was restored.
    Restored,
    /// The start or the restart was recorded.
    Recorded,
    /// The events of the engine were taken.
    Drained,
    /// The lease was asked for.
    Leased,
    /// The claims were recovered.
    Recovered,
    /// The account was asked for its facts.
    Asked,
    /// The answers of the account and of the authorization are awaited.
    Waiting,
    /// The instruments were subscribed to.
    Subscribed,
    /// The run goes on by itself.
    Running,
}

/// What the owner does to begin a run.
#[derive(Debug, Clone, Copy, PartialEq, Eq, Structural)]
pub enum Beginning {
    /// The ends of running contracts are restored, and compatibility is assessed.
    RestoreDue,
    /// The start or the restart is recorded.
    RecordOpening,
    /// The events of the engine are taken.
    Drain,
    /// The lease is asked for.
    Acquire,
    /// The claims are recovered.
    Recover,
    /// Transactions, the balance and every contract that runs are subscribed to.
    AskAccount,
    /// The authorization is asked for where it is wanted.
    AskAuthorization,
    /// The next report is received and handled.
    Receive,
    /// The instruments are subscribed to.
    Subscribe,
    /// Health is written.
    WriteHealth,
}

/// What is known while a run begins.
#[derive(Debug, Clone, Copy)]
pub struct Known {
    pub mode: Mode,
    pub balance_pending: bool,
    pub authorization_pending: bool,
    pub failed: bool,
}

impl Known {
    /// Whether an answer is awaited; a run that failed awaits none.
    pub open spec fn awaits(&self) -> bool {
        (self.balance_pending || self.authorization_pending) && !self.failed
    }
}

/// The stage that follows, and what is done to get there. A recorded run restores and recovers
/// nothing: it reproduces its evidence from the start.
pub open spec fn begins(stage: Stage, known: Known) -> (Stage, Option<Beginning>) {
    match stage {
        Stage::Begin => (
            Stage::Restored,
            if known.mode is Replay {
                None
            } else {
                Some(Beginning::RestoreDue)
            },
        ),
        Stage::Restored => (Stage::Recorded, Some(Beginning::RecordOpening)),
        Stage::Recorded => (Stage::Drained, Some(Beginning::Drain)),
        Stage::Drained => (Stage::Leased, Some(Beginning::Acquire)),
        Stage::Leased => (
            Stage::Recovered,
            if known.mode is Replay {
                None
            } else {
                Some(Beginning::Recover)
            },
        ),
        Stage::Recovered => (Stage::Asked, Some(Beginning::AskAccount)),
        Stage::Asked => (Stage::Waiting, Some(Beginning::AskAuthorization)),
        Stage::Waiting => if known.awaits() {
            (Stage::Waiting, Some(Beginning::Receive))
        } else {
            (Stage::Subscribed, Some(Beginning::Subscribe))
        },
        Stage::Subscribed => (Stage::Running, Some(Beginning::WriteHealth)),
        Stage::Running => (Stage::Running, None),
    }
}

/// The vetoes after a stage: a run starts cold and unreconciled, and a live one unauthorized.
pub open spec fn vetoed(stage: Stage, mode: Mode, before: Set<Seq<char>>) -> Set<Seq<char>> {
    match stage {
        Stage::Restored => after_veto(after_veto(before, WARMUP@, true), BALANCE@, true),
        Stage::Asked => if mode is Live {
            after_veto(before, AUTHORIZATION@, true)
        } else {
            before
        },
        _ => before,
    }
}

/// Takes the beginning of a run one step further.
pub fn begin(stage: Stage, known: &Known, vetoes: &mut Vetoes) -> (step: (
    Stage,
    Option<Beginning>,
))
    ensures
        step == begins(stage, *known),
        final(vetoes)@ == vetoed(stage, known.mode, old(vetoes)@),
{
    let replayed: bool = match known.mode {
        Mode::Replay => true,
        _ => false,
    };
    match stage {
        Stage::Begin => if replayed {
            (Stage::Restored, None)
        } else {
            (Stage::Restored, Some(Beginning::RestoreDue))
        },
        Stage::Restored => {
            vetoes.set(WARMUP, true);
            vetoes.set(BALANCE, true);
            (Stage::Recorded, Some(Beginning::RecordOpening))
        },
        Stage::Recorded => (Stage::Drained, Some(Beginning::Drain)),
        Stage::Drained => (Stage::Leased, Some(Beginning::Acquire)),
        Stage::Leased => if replayed {
            (Stage::Recovered, None)
        } else {
            (Stage::Recovered, Some(Beginning::Recover))
        },
        Stage::Recovered => (Stage::Asked, Some(Beginning::AskAccount)),
        Stage::Asked => {
            if let Mode::Live = known.mode {
                vetoes.set(AUTHORIZATION, true);
            }
            (Stage::Waiting, Some(Beginning::AskAuthorization))
        },
        Stage::Waiting => if (known.balance_pending || known.authorization_pending)
            && !known.failed {
            (Stage::Waiting, Some(Beginning::Receive))
        } else {
            (Stage::Subscribed, Some(Beginning::Subscribe))
        },
        Stage::Subscribed => (Stage::Running, Some(Beginning::WriteHealth)),
        Stage::Running => (Stage::Running, None),
    }
}

/// Whether the beginning of a run went from stage to stage, each with what was known then.
pub open spec fn is_beginning(stages: Seq<Stage>, known: Seq<Known>) -> bool {
    &&& stages.len() == known.len() + 1
    &&& stages[0] is Begin
    &&& forall|i: int|
        0 <= i < known.len() ==> stages[i + 1] == (#[trigger] begins(stages[i], known[i])).0
}

/// A run turns to the market only once its balance and its authorization were answered, or it has
/// failed.
pub proof fn the_market_comes_after_the_answers(stages: Seq<Stage>, known: Seq<Known>, end: int) -> (
at: int)
    requires
        is_beginning(stages, known),
        0 <= end < stages.len(),
        stages[end] is Subscribed || stages[end] is Running,
    ensures
        0 <= at < end,
        stages[at] is Waiting,
        !known[at].awaits(),
    decreases end,
{
    assert(end > 0);
    assert(stages[end] == begins(stages[end - 1], known[end - 1]).0);
    if stages[end - 1] is Waiting {
        end - 1
    } else {
        the_market_comes_after_the_answers(stages, known, end - 1)
    }
}

} // verus!
