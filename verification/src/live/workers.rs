//! What the broker and storage workers do next. Only the owner that receives their messages
//! changes financial state.

use crate::digest::{digest, hex, sha256};
use crate::live::control::Lease;
use crate::live::dispatch::PreparedPurchase;
use crate::live::finance::{Decimal, Direction};
use crate::live::receipt::Segment;
use crate::text::{join, join3, join4, refusal, same_text};
use vstd::prelude::*;
use vstd::string::*;

verus! {

/// A request for a proposal.
#[derive(Debug)]
pub struct ProposalRequest {
    pub binding: String,
    pub instrument: String,
    pub scale: u8,
    pub direction: Direction,
    pub duration_seconds: u32,
    pub stake: Decimal,
    pub currency: String,
    pub semantics: String,
    pub settlement: String,
}

/// What the owner asks a broker worker to do. An encoded purchase is named by its command.
#[allow(inconsistent_fields)]
#[derive(Debug)]
pub enum Intent {
    Subscribe { instrument: String, scale: u8 },
    Transactions,
    Proposal(ProposalRequest),
    Prepare(PreparedPurchase),
    Write { command: String },
    SubscribeContract { contract: String },
    Balance,
    OpenContracts,
    Statement { from: i64, through: i64 },
}

/// When a request was sent and its reply received.
#[derive(Debug, Clone, Copy, PartialEq, Eq, Structural)]
pub struct ReplyTiming {
    pub sent_micros: i64,
    pub received_micros: i64,
}

/// A tick as it was received.
#[derive(Debug)]
pub struct MarketTick {
    pub instrument: String,
    pub generation: u64,
    pub sequence: u64,
    pub provider_time_micros: i64,
    pub receipt_micros: i64,
    pub price_units: i64,
}

/// What the market connection yields.
#[derive(Debug)]
pub enum MarketEvent {
    Break { generation: u64, reason: String },
    Observation(MarketTick),
}

/// What the market worker hands to the owner.
#[derive(Debug)]
pub enum MarketMessage {
    Market(MarketEvent),
    MarketFailed(String),
}

/// What a worker does next.
#[derive(Debug)]
pub enum Next {
    /// Goes on without a message.
    Continue,
    /// Hands a message to the owner and waits until it is taken.
    Deliver(MarketMessage),
    /// Hands over the failure, then reconnects.
    Reconnect(String),
    /// Ends.
    Stop,
}

/// The market worker: it polls once it is subscribed.
#[derive(Debug, Clone, Copy)]
pub struct MarketWorker {
    pub subscribed: bool,
}

impl MarketWorker {
    /// A worker that has not subscribed yet.
    pub fn new() -> (worker: MarketWorker)
        ensures
            !worker.subscribed,
    {
        MarketWorker { subscribed: false }
    }

    /// Takes the answer to a subscription. Shutdown may interrupt it; that is no fault.
    pub fn subscribed(&mut self, answer: Result<(), String>, stopped: bool) -> (next: Next)
        ensures
            final(self).subscribed == (old(self).subscribed || answer is Ok),
            match answer {
                Ok(_) => next is Continue,
                Err(reason) => if stopped {
                    next is Stop
                } else {
                    next == Next::Deliver(MarketMessage::MarketFailed(reason))
                },
            },
    {
        match answer {
            Ok(_) => {
                self.subscribed = true;
                Next::Continue
            },
            Err(reason) => if stopped {
                Next::Stop
            } else {
                Next::Deliver(MarketMessage::MarketFailed(reason))
            },
        }
    }

    /// Takes the result of a poll.
    pub fn polled(&self, result: Result<Option<MarketEvent>, String>, stopped: bool) -> (next: Next)
        ensures
            match result {
                Ok(Some(event)) => next == Next::Deliver(MarketMessage::Market(event)),
                Ok(None) => next is Continue,
                Err(reason) => if stopped {
                    next is Stop
                } else {
                    next == Next::Reconnect(reason)
                },
            },
    {
        match result {
            Ok(Some(event)) => Next::Deliver(MarketMessage::Market(event)),
            Ok(None) => Next::Continue,
            Err(reason) => if stopped {
                Next::Stop
            } else {
                Next::Reconnect(reason)
            },
        }
    }

    /// Takes the result of a reconnection with the first event that it yields: the owner always
    /// hears of a break, and subscribes again.
    pub fn reconnected(
        &mut self,
        result: Result<Option<MarketEvent>, String>,
        generation: u64,
        reason: String,
    ) -> (message: MarketMessage)
        ensures
            !final(self).subscribed,
            match result {
                Ok(Some(MarketEvent::Break { generation: g, reason: r })) => message
                    == MarketMessage::Market(MarketEvent::Break { generation: g, reason: r }),
                Ok(_) => message == MarketMessage::Market(
                    MarketEvent::Break { generation, reason },
                ),
                Err(error) => message == MarketMessage::MarketFailed(error),
            },
    {
        self.subscribed = false;
        match result {
            Ok(Some(MarketEvent::Break { generation: g, reason: r })) => MarketMessage::Market(
                MarketEvent::Break { generation: g, reason: r },
            ),
            Ok(_) => MarketMessage::Market(MarketEvent::Break { generation, reason }),
            Err(error) => MarketMessage::MarketFailed(error),
        }
    }
}

/// The account worker: it polls facts once it was asked for anything, until a poll fails.
#[derive(Debug, Clone, Copy)]
pub struct AccountWorker {
    pub initialized: bool,
    pub failed: bool,
}

impl AccountWorker {
    /// A worker that was not asked for anything yet.
    pub fn new() -> (worker: AccountWorker)
        ensures
            !worker.initialized && !worker.failed,
    {
        AccountWorker { initialized: false, failed: false }
    }

    /// Takes a request: market requests are not for this worker.
    pub fn requested(&mut self, intent: &Intent) -> (taken: Result<(), String>)
        ensures
            final(self).initialized && !final(self).failed,
            refusal(taken) == (if *intent is Subscribe {
                Some("account worker received market intent"@)
            } else {
                None
            }),
    {
        self.initialized = true;
        self.failed = false;
        match intent {
            Intent::Subscribe { .. } => Err("account worker received market intent".to_owned()),
            _ => Ok(()),
        }
    }

    /// Whether facts are polled.
    pub fn polls(&self) -> (polls: bool)
        ensures
            polls == (self.initialized && !self.failed),
    {
        self.initialized && !self.failed
    }

    /// Takes a failed poll; says whether the owner is told. Shutdown is no fault.
    pub fn poll_failed(&mut self, stopped: bool) -> (tell: bool)
        ensures
            tell == !stopped,
            final(self).initialized == old(self).initialized,
            final(self).failed == (old(self).failed || !stopped),
    {
        if !stopped {
            self.failed = true;
        }
        !stopped
    }
}

/// What waiting for the owner's acknowledgement brought.
#[derive(Debug, Clone, Copy, PartialEq, Eq, Structural)]
pub enum Acknowledgement {
    Received,
    Disconnected,
    TimedOut,
}

/// Whether a message counts as delivered, or must be waited for. Shutdown hands facts that were
/// consumed to the owner without waiting.
pub fn delivered(stopped: bool, acknowledgement: Acknowledgement) -> (delivered: Option<bool>)
    ensures
        delivered == (if stopped {
            Some(true)
        } else {
            match acknowledgement {
                Acknowledgement::Received => Some(true),
                Acknowledgement::Disconnected => Some(false),
                Acknowledgement::TimedOut => None,
            }
        }),
{
    if stopped {
        return Some(true);
    }
    match acknowledgement {
        Acknowledgement::Received => Some(true),
        Acknowledgement::Disconnected => Some(false),
        Acknowledgement::TimedOut => None,
    }
}

/// Checks an uploaded segment against the file that it was uploaded from.
pub fn verify_upload(
    key: String,
    sha256_text: String,
    bytes: u64,
    head: Option<u64>,
    stored: &[u8],
) -> (segment: Result<Segment, String>)
    ensures
        refusal(segment) == (match head {
            None => Some("live: uploaded journal missing"@),
            Some(length) => if length != bytes || hex(sha256(stored@)) != sha256_text@ {
                Some("live: journal upload identity mismatch"@)
            } else {
                None
            },
        }),
        segment matches Ok(segment) ==> segment == (Segment { key, sha256: sha256_text, bytes }),
{
    match head {
        None => Err("live: uploaded journal missing".to_owned()),
        Some(length) => {
            let found = digest(stored);
            if length != bytes || !same_text(found.as_str(), sha256_text.as_str()) {
                return Err("live: journal upload identity mismatch".to_owned());
            }
            Ok(Segment { key, sha256: sha256_text, bytes })
        },
    }
}

/// The key under which a final manifest is published.
pub fn final_key(deployment: &str, bytes: &[u8]) -> (key: String)
    ensures
        key@ == "live/"@ + deployment@ + "/final/"@ + hex(sha256(bytes@)) + ".json"@,
{
    let name = digest(bytes);
    let mut key = join4("live/", deployment, "/final/", name.as_str());
    key.append(".json");
    key
}

/// The message of a worker that panicked.
pub fn worker_panicked(name: &str) -> (message: String)
    ensures
        message@ == "live: "@ + name@ + " worker panicked"@,
{
    join3("live: ", name, " worker panicked")
}

/// The message of a fact that was queued but could not be read.
pub fn queued_fact(error: &str) -> (message: String)
    ensures
        message@ == "live: queued account fact: "@ + error@,
{
    join("live: queued account fact: ", error)
}

/// What a renewal worker reports to the owner: when it asked for the lease, and the answer.
#[derive(Debug)]
pub struct LeaseReport {
    pub sent_micros: i64,
    pub result: Result<Option<Lease>, String>,
}

/// Takes the connection of a renewal worker. One that cannot connect ends, after it has reported
/// at `now` that the lease is out of its reach.
pub fn renewal_connection<T>(connected: Result<T, String>, now: i64) -> (taken: (
    Option<T>,
    Option<LeaseReport>,
))
    ensures
        match connected {
            Ok(control) => taken.0 == Some(control) && taken.1 is None,
            Err(_) => {
                &&& taken.0 is None
                &&& taken.1 matches Some(report)
                &&& report.sent_micros == now
                &&& refusal(report.result) == Some("lease connection unavailable"@)
            },
        },
{
    match connected {
        Ok(control) => (Some(control), None),
        Err(_) => (
            None,
            Some(
                LeaseReport {
                    sent_micros: now,
                    result: Err("lease connection unavailable".to_owned()),
                },
            ),
        ),
    }
}

/// Reads whether a renewal worker has ended; only a panic is fatal.
pub fn renewal_finished(running: bool, finished: bool, panicked: bool) -> (ended: Result<
    bool,
    String,
>)
    ensures
        refusal(ended) == (if running && finished && panicked {
            Some("live: renewal worker panicked"@)
        } else {
            None
        }),
        ended matches Ok(ended) ==> ended == (running && finished),
{
    if !running || !finished {
        return Ok(false);
    }
    if panicked {
        return Err(worker_panicked_renewal());
    }
    Ok(true)
}

fn worker_panicked_renewal() -> (message: String)
    ensures
        message@ == "live: renewal worker panicked"@,
{
    "live: renewal worker panicked".to_owned()
}

} // verus!
