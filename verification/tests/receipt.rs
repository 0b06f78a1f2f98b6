//! Compatibility receipts: what an observed ledger shows of each assessed dimension.

use binary_alpha::live::finance::{
    AccountClass, BrokerLiability, CashAction, CashFact, Cashflow, ContractTerms, Decimal,
    Direction, Disposition, EventKind, EventSource, FinancialEvent, Outcome, Resolution, Signal,
    Terminal, TerminalStatus,
};
use binary_alpha::live::journal::{Record, RecordKind};
use binary_alpha::live::receipt::{
    compute, key, Binding, Inputs, LiveSource, Receipt, RiskPolicy, Status, Window, CLOCK_BASIS,
};

const T: i64 = 1_789_347_035_000_000;
const DUE: i64 = T + 15_000_000;

fn amount(units: i64, scale: u8) -> Decimal {
    Decimal { units, scale }
}

fn baseline() -> ContractTerms {
    ContractTerms {
        id: "call".into(),
        direction: Direction::Buy,
        duration_micros: 15_000_000,
        economics: "economics".into(),
        semantics: "rise_fall_strict_v1".into(),
        settlement: "settlement".into(),
        quoted_cost: amount(10, 0),
        purchase: Ok(amount(10, 0)),
        win: Cashflow { gross_return: amount(1883, 2), terminal_fee: amount(0, 0) },
        loss: Cashflow { gross_return: amount(0, 0), terminal_fee: amount(0, 0) },
        tie: Cashflow { gross_return: amount(0, 0), terminal_fee: amount(0, 0) },
    }
}

fn source(id: &str, at: i64) -> EventSource {
    EventSource {
        id: id.into(),
        provider_time_micros: at,
        available_at_micros: at,
        simulated: true,
    }
}

fn events() -> Vec<FinancialEvent> {
    vec![
        EventKind::Signal(Signal {
            instrument: "deriv:R_50".into(),
            binding: "call".into(),
            disposition: Disposition::Admitted,
            quote_price_units: Some(100),
            quote_time_micros: Some(T),
            command: Some("c".into()),
            proposal: None,
            reservation: Some(amount(10, 0)),
        }),
        EventKind::Accepted {
            command: "c".into(),
            source: source("buy", T),
            liability: Some(BrokerLiability {
                contract_ref: "contract".into(),
                transaction_ref: "buy".into(),
                purchase_time_micros: T,
                expected_start_micros: T,
                payout: amount(1883, 2),
            }),
            discrepancy: false,
            deficit: None,
        },
        EventKind::Confirmed {
            command: "c".into(),
            entry_price_units: Some(100),
            entry_time_micros: Some(T),
            start_micros: Some(T),
            expiry_micros: Some(DUE),
        },
        EventKind::Unresolved {
            command: "c".into(),
            terminal: Some(Terminal {
                status: TerminalStatus::Won,
                exit_price_units: Some(101),
                exit_time_micros: Some(DUE),
                transaction_ref: Some("sell".into()),
            }),
            source: Some(source("terminal", DUE)),
        },
        EventKind::CashObserved {
            source: source("sell", DUE),
            fact: CashFact {
                account: "a".into(),
                transaction_ref: "sell".into(),
                contract_ref: Some("contract".into()),
                action: CashAction::Sell,
            },
            matched: Some("c".into()),
        },
        EventKind::Settled {
            command: "c".into(),
            outcome: Outcome::Win,
            gross_return: amount(1883, 2),
            terminal_fee: amount(0, 0),
            discrepancy: false,
            deficit: None,
            transaction_ref: Some("sell".into()),
        },
    ]
    .into_iter()
    .enumerate()
    .map(|(i, kind)| FinancialEvent {
        sequence: i as u64,
        time_micros: if i < 3 { T } else { DUE },
        kind,
    })
    .collect()
}

fn measured(events: Vec<FinancialEvent>, min_samples: u32) -> Receipt {
    measured_with_due_tick(events, min_samples, Some(101))
}

fn measured_with_due_tick(
    events: Vec<FinancialEvent>,
    min_samples: u32,
    due_tick: Option<i64>,
) -> Receipt {
    let due_records = vec![Record {
        sequence: 1,
        previous_sha256: "0".repeat(64),
        time_micros: DUE,
        deployment: "deployment".into(),
        kind: RecordKind::DueTick {
            command: "c".into(),
            provider_time_micros: DUE,
            price_units: due_tick.unwrap_or(101),
        },
    }];
    compute(&Inputs {
        deployment: "deployment".into(),
        definition: "definition".into(),
        source: LiveSource {
            research: "research".into(),
            bundle_sha256: "bundle".into(),
            frozen: "frozen".into(),
            certification: "certification".into(),
        },
        execution_contract: "contract".into(),
        broker: "deriv".into(),
        account: "a".into(),
        account_class: AccountClass::Demo,
        required_account_class: AccountClass::Demo,
        instruments: vec!["deriv:R_50".into()],
        currency: "USD".into(),
        observation: Window {
            decision_start: "2026-09-14T00:00:00.000000Z".into(),
            decision_end: "2026-09-15T00:00:00.000000Z".into(),
            start_micros: Some(T - 3_600_000_000),
            end_micros: Some(T + 3_600_000_000),
        },
        scenarios: vec![],
        min_samples,
        ledger: "ledger".into(),
        baseline: vec![baseline()],
        bindings: vec![Binding {
            id: "call".into(),
            instrument: "deriv:R_50".into(),
            strategy: "s".into(),
            contract: "call".into(),
            risk_policy: "p".into(),
        }],
        risk_policies: vec![RiskPolicy {
            id: "p".into(),
            max_quote_age_micros: 120_000_000,
            max_feature_age_micros: 120_000_000,
            max_proposal_age_micros: None,
        }],
        events,
        refusals: if due_tick.is_some() { due_records } else { vec![] },
    })
}

fn outside(events: Vec<FinancialEvent>, i: usize, bound: &str, reason: &str) {
    let receipt = measured(events, 1);
    let d = &receipt.dimensions[i];
    assert_eq!(d.status, Status::OutsideEnvelope);
    assert_eq!(d.bound, bound);
    assert_eq!(d.reason.as_deref(), Some(reason));
    assert!(!receipt.promotion.eligible);
}

#[test]
fn nothing_outside_the_window_counts() {
    let expected = measured(events(), 1);
    for time_micros in [T - 3_600_000_001, T + 3_600_000_000] {
        let mut list = events();
        list.insert(
            0,
            FinancialEvent {
                sequence: 9,
                time_micros,
                kind: EventKind::Settled {
                    command: "c".into(),
                    outcome: Outcome::Loss,
                    gross_return: amount(0, 0),
                    terminal_fee: amount(5, 0),
                    discrepancy: true,
                    deficit: None,
                    transaction_ref: None,
                },
            },
        );
        let receipt = measured(list, 1);
        assert!(receipt.promotion.eligible);
        for (d, e) in receipt.dimensions.iter().zip(&expected.dimensions) {
            assert_eq!((d.status, d.samples, &d.bound), (e.status, e.samples, &e.bound));
            assert_eq!(d.reason, e.reason);
        }
    }
}

#[test]
fn contract_timing_bound_declares_all_four_requirements() {
    let receipt = measured(events(), 1);
    assert_eq!(
        receipt.dimensions[4].bound,
        "expiry=entry_time+duration; exit_time=expiry; start=entry_time; exit_price=first_due_tick_price"
    );
}

#[test]
fn all_dimensions_matched_and_sample_support_is_mandatory() {
    let receipt = measured(events(), 1);
    assert!(receipt.promotion.eligible);
    assert_eq!(receipt.clock_basis, CLOCK_BASIS);
    assert_eq!(
        receipt.dimensions.iter().map(|d| d.name).collect::<Vec<_>>(),
        [
            "economics_scope",
            "offer_availability_rejection",
            "quote_age_entry_price",
            "acceptance_delay",
            "contract_timing",
            "funds_release"
        ]
    );
    for d in &receipt.dimensions {
        assert_eq!(d.status, Status::Matched);
        assert_eq!(d.samples, 1);
    }
    let insufficient = measured(events(), 2);
    assert!(!insufficient.promotion.eligible);
    assert_eq!(insufficient.promotion.reasons.len(), 6);
    for dimension in &insufficient.dimensions {
        assert_eq!(dimension.status, Status::Unavailable);
        assert_eq!((dimension.samples, dimension.required), (1, 2));
        assert_eq!(dimension.reason.as_deref(), Some("1 of 2 required samples"));
    }
    assert_eq!(format!("{receipt:?}"), format!("{:?}", measured(events(), 1)));
}

#[test]
fn economics_scope_outside_and_unavailable() {
    let cheaper = || {
        let mut events = events();
        if let EventKind::Settled { gross_return, .. } = &mut events[5].kind {
            *gross_return = amount(1882, 2);
        }
        events
    };
    outside(cheaper(), 0, "call", "c: settled cashflow differs from baseline call win");
    let mut events = cheaper();
    events.remove(1);
    assert_eq!(measured(events, 1).dimensions[0].status, Status::OutsideEnvelope);
    assert_eq!(measured(vec![], 1).dimensions[0].status, Status::Unavailable);
}

#[test]
fn offer_availability_rejection_outside_and_unavailable() {
    let mut events = events();
    events.push(FinancialEvent {
        sequence: 6,
        time_micros: DUE,
        kind: EventKind::Released {
            command: "refused".into(),
            source: source("broker-rejected", DUE),
            rejected: true,
        },
    });
    outside(
        events,
        1,
        "every admitted command accepted at the assessed terms, no rejections",
        "refused: broker rejected (broker-rejected)",
    );
    let receipt = measured(vec![], 1);
    assert_eq!(receipt.dimensions[1].status, Status::Unavailable);
    assert_eq!(receipt.dimensions[1].reason.as_deref(), Some("no rejection-model evidence"));
}

#[test]
fn quote_age_entry_price_outside_and_unavailable() {
    let with_entry = |price| {
        let mut events = events();
        if let EventKind::Confirmed { entry_price_units, .. } = &mut events[2].kind {
            *entry_price_units = price;
        }
        events
    };
    outside(
        with_entry(Some(101)),
        2,
        "p: max_quote_age_micros=120000000; entry_price_units=signal.quote_price_units",
        "c: entry_price_units=101, quote_price_units=100, quote_age_micros=0",
    );
    assert_eq!(measured(with_entry(None), 1).dimensions[2].status, Status::Unavailable);
}

#[test]
fn acceptance_delay_outside_and_unavailable() {
    let late = || {
        let mut events = events();
        if let EventKind::Accepted { liability: Some(liability), .. } = &mut events[1].kind {
            liability.purchase_time_micros += 1_000_000;
        }
        events
    };
    outside(
        late(),
        3,
        "0 microseconds (whole-second resolution)",
        "c: purchase_time_micros - decision_second = 1000000; assessed 0 microseconds",
    );
    let mut events = late();
    events.remove(1);
    assert_eq!(measured(events, 1).dimensions[3].status, Status::Unavailable);
}

#[test]
fn contract_timing_outside_and_unavailable() {
    let moved = |expiry| {
        let mut events = events();
        if let EventKind::Confirmed { entry_time_micros, expiry_micros, .. } = &mut events[2].kind {
            *entry_time_micros = Some(T + 2_000_000);
            *expiry_micros = expiry;
        }
        events
    };
    outside(
        moved(Some(DUE)),
        4,
        "expiry=entry_time+duration; exit_time=expiry; start=entry_time; exit_price=first_due_tick_price",
        &format!(
            "c: entry_time={}, duration=15000000, expiry={DUE}, exit_time={DUE}, start={T}, exit_price=101, due_tick=101@{DUE}",
            T + 2_000_000
        ),
    );
    assert_eq!(measured(moved(None), 1).dimensions[4].status, Status::Unavailable);
}

#[test]
fn contract_timing_requires_start_exit_price_and_due_tick() {
    let mut missing_start = events();
    if let EventKind::Confirmed { start_micros, .. } = &mut missing_start[2].kind {
        *start_micros = None;
    }
    assert_eq!(measured(missing_start, 1).dimensions[4].status, Status::Unavailable);
    let mut missing_exit = events();
    if let EventKind::Unresolved { terminal: Some(terminal), .. } = &mut missing_exit[3].kind {
        terminal.exit_price_units = None;
    }
    assert_eq!(measured(missing_exit, 1).dimensions[4].status, Status::Unavailable);
    assert_eq!(
        measured_with_due_tick(events(), 1, None).dimensions[4].status,
        Status::Unavailable
    );
}

#[test]
fn funds_release_outside_and_unavailable() {
    let delayed = || {
        let mut events = events();
        if let EventKind::CashObserved { source, .. } = &mut events[4].kind {
            source.available_at_micros += 2;
        }
        events[4].time_micros += 2;
        events[5].time_micros += 3;
        events
    };
    outside(
        delayed(),
        5,
        "expiry_to_evidence=0; evidence_to_application=0; total=0 microseconds",
        "c: expiry_to_evidence=2; evidence_to_application=1; total=3 microseconds",
    );
    let mut events = delayed();
    events.retain(|e| !matches!(e.kind, EventKind::CashObserved { .. }));
    assert_eq!(measured(events, 1).dimensions[5].status, Status::Unavailable);
}

#[test]
fn zero_credit_needs_explicit_reconciliation_and_its_receipt_clock() {
    let lost = || {
        let mut events = events();
        events.retain(|event| {
            !matches!(event.kind, EventKind::CashObserved { .. } | EventKind::Settled { .. })
        });
        if let EventKind::Unresolved { terminal: Some(terminal), .. } = &mut events[3].kind {
            terminal.status = TerminalStatus::Lost;
            terminal.exit_price_units = Some(99);
        }
        events
    };
    assert_eq!(measured(lost(), 1).dimensions[5].status, Status::Unavailable);
    let reconciled = |available: i64, applied: i64| {
        let mut events = lost();
        let mut proof = source("zero-proof", DUE);
        proof.available_at_micros += available;
        events.push(FinancialEvent {
            sequence: 5,
            time_micros: DUE + applied,
            kind: EventKind::Reconciled {
                command: "c".into(),
                source: proof,
                resolution: Resolution::Settled {
                    outcome: Outcome::Loss,
                    gross_return: Decimal::zero(0),
                    terminal_fee: Decimal::zero(0),
                },
                profit: Some(amount(-10, 0)),
            },
        });
        events
    };
    let receipt = measured_with_due_tick(reconciled(0, 0), 1, Some(99));
    assert_eq!(receipt.dimensions[5].status, Status::Matched);
    assert!(receipt.promotion.eligible);
    outside(
        reconciled(2, 3),
        5,
        "expiry_to_evidence=0; evidence_to_application=0; total=0 microseconds",
        "c: expiry_to_evidence=2; evidence_to_application=1; total=3 microseconds",
    );
}

#[test]
fn a_receipt_key_carries_the_digest_of_its_bytes() {
    assert_eq!(
        key("deployment", b"abc"),
        "live/deployment/receipts/ba7816bf8f01cfea414140de5dae2223b00361a396177a9cb410ff61f20015ad.json"
    );
}

#[test]
fn amounts_are_equal_across_scales() {
    assert!(amount(1880, 2).same(amount(188, 1)));
    assert!(!amount(1883, 2).same(amount(188, 1)));
    assert!(amount(0, 0).same(amount(0, 9)));
    assert!(!amount(i64::MAX, 0).same(amount(i64::MAX, 1)));
    assert!(amount(0, 3).is_zero());
}
