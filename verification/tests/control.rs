//! The control database: leases with fencing tokens, and claims on commands.

use binary_alpha::live::control::{
    expiry, grant, sql_token, stored_token, Claim, ClaimOutcome, ClaimState, Control, FakeControl,
    Fault, Lease, LeaseKey, LeaseRow,
};
use binary_alpha::live::entries::Vetoes;
use binary_alpha::live::finance::{
    Decimal, Direction, Disposition, EventKind, FinancialEvent, Proposal, Signal,
};
use binary_alpha::live::journal::LeaseState;
use binary_alpha::live::lease::{acquired, lease_deadline, released, Acquired, Holding};
use binary_alpha::live::workers::{
    delivered, queued_fact, renewal_connection, renewal_finished, worker_panicked, Acknowledgement,
};

fn key() -> LeaseKey<'static> {
    LeaseKey { broker: "deriv", account: "clock" }
}

fn claim(command: &str, token: u64) -> Claim {
    Claim {
        command: command.into(),
        claim: "claim".into(),
        deployment: "deployment".into(),
        token,
        max_proposal_age_micros: 1_000,
        signal: FinancialEvent {
            sequence: 0,
            time_micros: 100,
            kind: EventKind::Signal(Signal {
                instrument: "deriv:R_50".into(),
                binding: "call".into(),
                disposition: Disposition::Admitted,
                quote_price_units: Some(1),
                quote_time_micros: Some(100),
                command: Some(command.into()),
                proposal: Some(Proposal {
                    identity: "proposal".into(),
                    account: "clock".into(),
                    instrument: "deriv:R_50".into(),
                    receipt_micros: 100,
                    direction: Direction::Buy,
                    duration_micros: 15_000_000,
                    max_settlement_delay_micros: 0,
                    quoted_cost: Decimal { units: 10, scale: 0 },
                    economics: "economics".into(),
                    semantics: "semantics".into(),
                    settlement: "settlement".into(),
                    terms_identity: "terms".into(),
                    request_identity: "request".into(),
                    canonical_request_identity: "request".into(),
                }),
                reservation: Some(Decimal { units: 10, scale: 0 }),
            }),
        },
        state: ClaimState::Claimed,
        contract_ref: None,
        transaction_ref: None,
    }
}

#[test]
fn fake_release_sets_expiry_to_server_now() {
    let mut control = FakeControl::new(100);
    let first = control.acquire(key(), "owner", "deployment", 20).unwrap().unwrap();
    control.advance(7);
    assert!(control.release(key(), "owner", first.token).unwrap());
    assert_eq!(control.lease_expiry(key()), Some(107));
    let second = control.acquire(key(), "owner", "deployment", 20).unwrap().unwrap();
    assert_eq!(second.token, 2);
    assert!(!control.release(key(), "owner", first.token).unwrap());
    assert_eq!(control.lease_expiry(key()), Some(127));
}

#[test]
fn a_lease_excludes_others_until_it_ends() {
    let mut control = FakeControl::new(100);
    let first = control.acquire(key(), "owner", "deployment", 20).unwrap().unwrap();
    assert_eq!(
        first,
        Lease { token: 1, expires_at_micros: 120, server_now_micros: 100 }
    );
    assert_eq!(control.acquire(key(), "other", "deployment", 20).unwrap(), None);
    control.advance(20);
    let second = control.acquire(key(), "other", "deployment", 20).unwrap().unwrap();
    assert_eq!(second.token, 2);
    assert_eq!(control.renew(key(), "owner", first.token, 20).unwrap(), None);
    assert!(control.renew(key(), "other", second.token, 20).unwrap().is_some());
}

#[test]
fn a_command_is_claimed_once_and_stale_tokens_are_fenced() {
    let mut control = FakeControl::new(100);
    let lease = control.acquire(key(), "owner", "deployment", 50).unwrap().unwrap();
    assert!(matches!(
        control.claim(key(), "owner", lease.token, &claim("c", lease.token)).unwrap(),
        ClaimOutcome::Inserted
    ));
    assert!(matches!(
        control.claim(key(), "owner", lease.token, &claim("c", lease.token)).unwrap(),
        ClaimOutcome::Replay(_)
    ));
    assert!(matches!(
        control.claim(key(), "owner", 7, &claim("d", 7)).unwrap(),
        ClaimOutcome::LeaseLost
    ));
    assert!(control
        .update_claim(key(), "owner", lease.token, "c", ClaimState::Accepted, Some("k"), None)
        .unwrap());
    assert!(!control
        .update_claim(key(), "owner", 7, "c", ClaimState::Rejected, None, None)
        .unwrap());
    let retained = control.retained_claims(key()).unwrap();
    assert_eq!(retained.len(), 1);
    assert_eq!(retained[0].state, ClaimState::Accepted);
    assert_eq!(retained[0].contract_ref.as_deref(), Some("k"));
}

#[test]
fn faults_lose_answers_or_everything() {
    let mut control = FakeControl::new(100);
    control.fault(Fault::LoseResponse);
    assert!(control.acquire(key(), "owner", "deployment", 20).is_err());
    assert_eq!(control.lease_expiry(key()), Some(120));
    control.advance(20);
    control.fault(Fault::Partition);
    assert!(control.acquire(key(), "owner", "deployment", 20).is_err());
    assert_eq!(control.lease_expiry(key()), Some(120));
}

#[test]
fn stored_states_read_back() {
    for state in [
        ClaimState::Claimed,
        ClaimState::NotSent,
        ClaimState::PossiblySent,
        ClaimState::Accepted,
        ClaimState::Rejected,
        ClaimState::Reconciled,
    ] {
        assert_eq!(ClaimState::parse(state.text()).unwrap(), state);
    }
    assert_eq!(ClaimState::parse("lost").unwrap_err(), "unknown claim state lost");
}

#[test]
fn tokens_and_expiries_stay_in_range() {
    assert_eq!(sql_token(5), Ok(5));
    assert_eq!(sql_token(u64::MAX).unwrap_err(), "lease token overflow");
    assert_eq!(stored_token(5), Ok(5));
    assert_eq!(stored_token(-1).unwrap_err(), "negative lease token");
    assert_eq!(expiry(100, 20), Ok(120));
    assert!(expiry(100, 0).is_err());
    assert!(expiry(i64::MAX, 1).is_err());
    let row = LeaseRow {
        owner: "owner".into(),
        deployment: "deployment".into(),
        token: 3,
        expires: 90,
    };
    assert_eq!(grant(Some(&row), 100, 10).unwrap().unwrap().token, 4);
    assert_eq!(grant(Some(&row), 89, 10).unwrap(), None);
    assert_eq!(grant(None, 0, 10).unwrap().unwrap().token, 1);
}

#[test]
fn owner_deadline_is_a_local_integer() {
    let _: fn(&Holding) -> i64 = |owner| owner.deadline;
}

#[test]
fn a_deadline_is_counted_from_the_request() {
    let lease = Lease { token: 1, expires_at_micros: 1_100, server_now_micros: 100 };
    assert_eq!(lease_deadline(5_000, 5_040, &lease, 10), Ok(5_000 + 1_000 - 40 - 10));
    assert!(lease_deadline(5_040, 5_000, &lease, 10).is_err());
    let mut holding = Holding::none(5_000);
    let mut vetoes = Vetoes::none();
    assert!(holding.set_lease(&mut vetoes, 5_000, 5_040, &lease, 10).is_ok());
    assert_eq!((holding.token, holding.deadline), (1, 5_950));
    assert_eq!(holding.control_time, 100);
    assert!(!holding.renewal_due(5_500, 600));
    assert!(holding.renewal_due(5_600, 600));
    assert_eq!(
        holding.renewed(&mut vetoes, 5_600, 5_601, Ok(None), 10),
        Ok(LeaseState::Lost)
    );
    assert!(!vetoes.enabled());
}

#[test]
fn lease_answers_become_states() {
    assert!(matches!(acquired(Ok(None)), Acquired::Refused(reason)
        if reason == "account lease is held by another owner"));
    assert!(matches!(acquired(Err("down".into())), Acquired::Refused(reason)
        if reason == "lease unavailable: down"));
    assert_eq!(released(Ok(true)), LeaseState::Released);
    assert_eq!(released(Err("down".into())), LeaseState::Lost);
}

#[test]
fn renewal_connection_failure_is_lease_loss_and_only_panic_is_fatal() {
    let (control, report) =
        renewal_connection::<FakeControl>(Err("synthetic separate connection failure".into()), 101);
    assert!(control.is_none());
    let report = report.unwrap();
    assert_eq!(report.sent_micros, 101);
    assert_eq!(report.result.unwrap_err(), "lease connection unavailable");
    let (control, report) = renewal_connection(Ok(7), 101);
    assert_eq!(control, Some(7));
    assert!(report.is_none());
    assert_eq!(renewal_finished(true, false, false), Ok(false));
    assert_eq!(renewal_finished(true, true, false), Ok(true));
    assert_eq!(renewal_finished(false, false, false), Ok(false));
    assert_eq!(
        renewal_finished(true, true, true),
        Err("live: renewal worker panicked".into())
    );
}

#[test]
fn shutdown_delivers_consumed_facts_and_panic_senders_disconnect() {
    assert_eq!(delivered(true, Acknowledgement::TimedOut), Some(true));
    assert_eq!(delivered(true, Acknowledgement::Disconnected), Some(true));
    assert_eq!(delivered(false, Acknowledgement::Received), Some(true));
    assert_eq!(delivered(false, Acknowledgement::Disconnected), Some(false));
    assert_eq!(delivered(false, Acknowledgement::TimedOut), None);
    assert_eq!(worker_panicked("market"), "live: market worker panicked");
    assert_eq!(queued_fact("lost"), "live: queued account fact: lost");
}
