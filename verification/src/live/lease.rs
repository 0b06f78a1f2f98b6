//! The lease under which a run may trade: how its lifetime maps to the local clock, and when it
//! is renewed.

use crate::live::control::Lease;
use crate::live::entries::{after_veto, Vetoes, DEADLINE, LEASE_LOST, RENEWAL};
use crate::live::journal::LeaseState;
use crate::text::{join, refusal};
use vstd::prelude::*;
use vstd::string::*;

verus! {

/// The smallest and largest values of a time.
pub open spec fn is_time(value: int) -> bool {
    i64::MIN <= value <= i64::MAX
}

/// Why a lease's lifetime cannot be mapped to the local clock.
pub open spec fn deadline_refusal(sent: i64, received: i64, lease: Lease, margin: i64) -> Option<
    Seq<char>,
> {
    let ttl = lease.expires_at_micros - lease.server_now_micros;
    let round_trip = received - sent;
    if received < sent || margin < 0 {
        Some("live: invalid lease clock mapping"@)
    } else if !is_time(round_trip) {
        Some("live: lease clock arithmetic overflow"@)
    } else if !is_time(ttl) || !is_time(sent + ttl) || !is_time(sent + ttl - round_trip)
        || !is_time(sent + ttl - round_trip - margin) {
        Some("live: lease clock mapping overflow"@)
    } else {
        None
    }
}

/// Conservatively maps the database lifetime using the measured round trip and frozen margin:
/// the deadline never lies after the moment at which the lease was asked for plus its lifetime.
pub fn lease_deadline(sent: i64, received: i64, lease: &Lease, margin: i64) -> (deadline: Result<
    i64,
    String,
>)
    ensures
        refusal(deadline) == deadline_refusal(sent, received, *lease, margin),
        deadline matches Ok(deadline) ==> {
            &&& deadline == sent + (lease.expires_at_micros - lease.server_now_micros) - (received
                - sent) - margin
            &&& deadline <= sent + (lease.expires_at_micros - lease.server_now_micros)
        },
{
    if received < sent || margin < 0 {
        return Err("live: invalid lease clock mapping".to_owned());
    }
    let round_trip: i64 = match received.checked_sub(sent) {
        Some(value) => value,
        None => {
            return Err("live: lease clock arithmetic overflow".to_owned());
        },
    };
    let ttl: Option<i64> = lease.expires_at_micros.checked_sub(lease.server_now_micros);
    let end: Option<i64> = match ttl {
        Some(ttl) => sent.checked_add(ttl),
        None => None,
    };
    let measured: Option<i64> = match end {
        Some(end) => end.checked_sub(round_trip),
        None => None,
    };
    let deadline: Option<i64> = match measured {
        Some(measured) => measured.checked_sub(margin),
        None => None,
    };
    match deadline {
        Some(deadline) => Ok(deadline),
        None => Err("live: lease clock mapping overflow".to_owned()),
    }
}

/// What a run holds of its lease.
#[derive(Debug, Clone, Copy)]
pub struct Holding {
    pub token: u64,
    /// When the lease ends, on the local clock.
    pub deadline: i64,
    /// The latest time that the control database has shown.
    pub control_time: i64,
    pub last_renewal: i64,
}

impl Holding {
    /// Holds no lease yet.
    pub fn none(now: i64) -> (holding: Holding)
        ensures
            holding == (Holding {
                token: 0,
                deadline: 0,
                control_time: i64::MIN,
                last_renewal: now,
            }),
    {
        Holding { token: 0, deadline: 0, control_time: i64::MIN, last_renewal: now }
    }

    /// Takes a lease that was asked for at `before` and is held at `local_now`.
    pub fn set_lease(
        &mut self,
        vetoes: &mut Vetoes,
        before: i64,
        local_now: i64,
        lease: &Lease,
        margin: i64,
    ) -> (taken: Result<(), String>)
        ensures
            refusal(taken) == deadline_refusal(before, local_now, *lease, margin),
            final(self).last_renewal == old(self).last_renewal,
            final(self).control_time == (if old(self).control_time >= lease.server_now_micros {
                old(self).control_time
            } else {
                lease.server_now_micros
            }),
            taken is Ok ==> {
                &&& final(self).token == lease.token
                &&& final(self).deadline == before + (lease.expires_at_micros
                    - lease.server_now_micros) - (local_now - before) - margin
                &&& final(vetoes)@ == after_veto(
                    after_veto(old(vetoes)@, LEASE_LOST@, false),
                    DEADLINE@,
                    false,
                )
            },
            taken is Err ==> {
                &&& final(self).token == old(self).token
                &&& final(self).deadline == old(self).deadline
                &&& final(vetoes)@ == old(vetoes)@
            },
    {
        if lease.server_now_micros > self.control_time {
            self.control_time = lease.server_now_micros;
        }
        match lease_deadline(before, local_now, lease, margin) {
            Ok(deadline) => {
                self.deadline = deadline;
                self.token = lease.token;
                vetoes.set(LEASE_LOST, false);
                vetoes.set(DEADLINE, false);
                Ok(())
            },
            Err(message) => Err(message),
        }
    }

    /// Takes the answer to a renewal. A lease that is gone, or that could not be asked for, ends
    /// at once.
    pub fn renewed(
        &mut self,
        vetoes: &mut Vetoes,
        sent: i64,
        local_now: i64,
        result: Result<Option<Lease>, String>,
        margin: i64,
    ) -> (state: Result<LeaseState, String>)
        ensures
            refusal(state) == (match result {
                Ok(Some(lease)) => deadline_refusal(sent, local_now, lease, margin),
                _ => None,
            }),
            state matches Ok(state) ==> match result {
                Ok(Some(lease)) => {
                    &&& state == LeaseState::Renewed
                    &&& final(self).token == lease.token
                    &&& final(self).deadline == sent + (lease.expires_at_micros
                        - lease.server_now_micros) - (local_now - sent) - margin
                    &&& final(vetoes)@ == after_veto(
                        after_veto(
                            after_veto(old(vetoes)@, LEASE_LOST@, false),
                            DEADLINE@,
                            false,
                        ),
                        RENEWAL@,
                        false,
                    )
                },
                _ => {
                    &&& state == LeaseState::Lost
                    &&& final(self).token == old(self).token
                    &&& final(self).control_time == old(self).control_time
                    &&& final(self).deadline == i64::MIN
                    &&& final(vetoes)@ == after_veto(old(vetoes)@, RENEWAL@, true)
                },
            },
    {
        match result {
            Ok(Some(lease)) => {
                match self.set_lease(vetoes, sent, local_now, &lease, margin) {
                    Ok(_) => {
                        vetoes.set(RENEWAL, false);
                        Ok(LeaseState::Renewed)
                    },
                    Err(message) => Err(message),
                }
            },
            _ => {
                self.deadline = i64::MIN;
                vetoes.set(RENEWAL, true);
                Ok(LeaseState::Lost)
            },
        }
    }

    /// Whether a renewal is due; if so, the clock of the next one starts.
    pub fn renewal_due(&mut self, now: i64, interval: i64) -> (due: bool)
        requires
            is_time(now - old(self).last_renewal),
        ensures
            due == (now - old(self).last_renewal >= interval),
            *final(self) == (Holding {
                last_renewal: if due {
                    now
                } else {
                    old(self).last_renewal
                },
                ..*old(self)
            }),
    {
        let due: bool = now - self.last_renewal >= interval;
        if due {
            self.last_renewal = now;
        }
        due
    }

    /// Whether the owner renews the lease itself: only a run without its own renewal worker, and
    /// only a lease that it holds.
    pub fn renews_itself(&self, clock_anchored: bool, worker: bool) -> (renews: bool)
        ensures
            renews == (!clock_anchored && !worker && self.token != 0),
    {
        !clock_anchored && !worker && self.token != 0
    }
}

/// The answer to the first request for a lease.
#[derive(Debug)]
pub enum Acquired {
    /// The lease is held.
    Held(Lease),
    /// Entries are disabled for this reason.
    Refused(String),
}

/// Reads the answer to the first request for a lease.
pub fn acquired(answer: Result<Option<Lease>, String>) -> (acquired: Acquired)
    ensures
        match answer {
            Ok(Some(lease)) => acquired == Acquired::Held(lease),
            Ok(None) => acquired matches Acquired::Refused(reason) && reason@
                == "account lease is held by another owner"@,
            Err(error) => acquired matches Acquired::Refused(reason) && reason@
                == "lease unavailable: "@ + error@,
        },
{
    match answer {
        Ok(Some(lease)) => Acquired::Held(lease),
        Ok(None) => Acquired::Refused("account lease is held by another owner".to_owned()),
        Err(error) => Acquired::Refused(join("lease unavailable: ", error.as_str())),
    }
}

/// What a release is recorded as.
pub fn released(answer: Result<bool, String>) -> (state: LeaseState)
    ensures
        state == (if answer == Ok::<bool, String>(true) {
            LeaseState::Released
        } else {
            LeaseState::Lost
        }),
{
    match answer {
        Ok(true) => LeaseState::Released,
        _ => LeaseState::Lost,
    }
}

} // verus!
