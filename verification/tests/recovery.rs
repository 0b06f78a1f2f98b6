//! Recovery after a restart, reconciliation, and the rows that wait for a decision.

use binary_alpha::live::archive::{check_archival_interruption, deletable, upload_failure};
use binary_alpha::live::claims::{
    adopt, after_drain, drained, handover, orphan, orphans, recovered, refresh, standing,
    update_answered, ClaimFate, Consequence, OrphanFate, Refresh,
};
use binary_alpha::live::control::{Claim, ClaimOutcome, ClaimState};
use binary_alpha::live::deployment::{
    check_bound, check_refits, final_manifest, Declared, Measurements, Mode,
};
use binary_alpha::live::due::restore_due;
use binary_alpha::live::entries::Vetoes;
use binary_alpha::live::finance::{
    BrokerLiability, CashAction, CashFact, Cashflow, ContractTerms, Decimal, Direction,
    Disposition, EventKind, EventSource, FinancialEvent, Outcome, Proposal, Resolution, Signal,
    Terminal, TerminalStatus,
};
use binary_alpha::live::journal::{segment_key, segment_name, Record, RecordKind};
use binary_alpha::live::opening::{
    check_account, check_replayed, check_warmup, uploaded_segments, AccountBinding, StoredFile,
    Warmup,
};
use binary_alpha::live::owner::{
    asks_authorization, check_progress, check_replay_progress, uncertain_commands, writes_health,
};
use binary_alpha::live::receipt::{Binding, RiskPolicy, Segment};
use binary_alpha::live::reconcile::{
    match_claim, settles_at_zero, unpaid_losses, Match, OpenContract, StatementRow,
};
use binary_alpha::live::rows::{
    base_rows_ready, clear_waits, next_ready, pending, proposal_ready, prune_rows, requests,
    select_rows, ColumnSpec, FeatureValue, Observation, PendingRows, ProducedRow, StreamColumns,
    StreamKey, StreamPlan, Strategy,
};
use binary_alpha::live::dispatch::{
    written, Dispatch, PreparedPurchase, PurchaseOutcome, Queue,
};
use binary_alpha::live::steps::{
    after_claim, claim_answered, claim_steps, dispatch, match_steps, not_sent, orphan_steps,
    preparation_failed, prepared, refresh_steps, write_answered, zero_credit, Action, Told,
};
use binary_alpha::live::statement::{
    match_claims, observed_now, settlement_delay, zero_credits, Covered,
};
use binary_alpha::live::workers::{MarketEvent, MarketMessage, MarketWorker};
use binary_alpha::table::Table;

fn amount(units: i64) -> Decimal {
    Decimal { units, scale: 0 }
}

fn proposal() -> Proposal {
    Proposal {
        identity: "proposal".into(),
        account: "account".into(),
        instrument: "deriv:R_50".into(),
        receipt_micros: 100,
        direction: Direction::Buy,
        duration_micros: 15_000_000,
        max_settlement_delay_micros: 0,
        quoted_cost: amount(10),
        economics: "economics".into(),
        semantics: "semantics".into(),
        settlement: "settlement".into(),
        terms_identity: "terms".into(),
        request_identity: "request".into(),
        canonical_request_identity: "request".into(),
    }
}

fn event(kind: EventKind) -> FinancialEvent {
    FinancialEvent { sequence: 0, time_micros: 1_500_000, kind }
}

fn signal(command: &str) -> FinancialEvent {
    event(EventKind::Signal(Signal {
        instrument: "deriv:R_50".into(),
        binding: "call".into(),
        disposition: Disposition::Admitted,
        quote_price_units: Some(1),
        quote_time_micros: Some(100),
        command: Some(command.into()),
        proposal: Some(proposal()),
        reservation: Some(amount(10)),
    }))
}

fn claim(command: &str, state: ClaimState) -> Claim {
    Claim {
        command: command.into(),
        claim: "claim".into(),
        deployment: "deployment".into(),
        token: 1,
        max_proposal_age_micros: 1_000,
        signal: signal(command),
        state,
        contract_ref: None,
        transaction_ref: None,
    }
}

fn claims(list: Vec<Claim>) -> Table<Claim> {
    let mut table = Table::new();
    for claim in list {
        table.insert(claim.command.clone(), claim);
    }
    table
}

fn record(sequence: u64, kind: RecordKind) -> Record {
    Record {
        sequence,
        previous_sha256: String::new(),
        time_micros: 0,
        deployment: "deployment".into(),
        kind,
    }
}

fn liability(contract: &str) -> BrokerLiability {
    BrokerLiability {
        contract_ref: contract.into(),
        transaction_ref: format!("{contract}-buy"),
        purchase_time_micros: 2_000_000,
        expected_start_micros: 2_000_000,
        payout: amount(18),
    }
}

fn source() -> EventSource {
    EventSource {
        id: "s".into(),
        provider_time_micros: 0,
        available_at_micros: 0,
        simulated: false,
    }
}

fn settled(command: &str) -> EventKind {
    EventKind::Settled {
        command: command.into(),
        outcome: Outcome::Win,
        gross_return: amount(18),
        terminal_fee: amount(0),
        discrepancy: false,
        deficit: None,
        transaction_ref: None,
    }
}

fn accepted(command: &str, discrepancy: bool) -> EventKind {
    EventKind::Accepted {
        command: command.into(),
        source: source(),
        liability: Some(liability("contract")),
        discrepancy,
        deficit: None,
    }
}

#[test]
fn retained_claims_bring_their_signal_back() {
    let mut found = Table::new();
    let mut vetoes = Vetoes::none();
    let mut ledger = vec![signal("known")];
    let known = claim("known", ClaimState::PossiblySent);
    assert!(!adopt(&mut found, &mut vetoes, &mut ledger, known, "deployment"));
    let lost = claim("lost", ClaimState::PossiblySent);
    assert!(adopt(&mut found, &mut vetoes, &mut ledger, lost, "deployment"));
    assert_eq!(ledger.len(), 2);
    assert_eq!(ledger[1].sequence, 1);
    let foreign = claim("foreign", ClaimState::PossiblySent);
    assert!(!adopt(&mut found, &mut vetoes, &mut ledger, foreign, "another"));
    assert!(vetoes.contains("unresolved claim belongs to another deployment"));
    assert_eq!(found.len(), 3);
}

#[test]
fn commands_without_a_control_row_stay_in_doubt() {
    let ledger = vec![
        signal("a"),
        signal("b"),
        signal("c"),
        signal("over"),
        event(settled("over")),
        signal("taken"),
        event(accepted("taken", false)),
        event(EventKind::PossiblySent { command: "b".into() }),
    ];
    let records = vec![record(
        1,
        RecordKind::Claimed { command: "c".into(), claim: "x".into(), token: 1 },
    )];
    let mut contracts = Table::new();
    let (open, accepted) = standing(&ledger, &mut contracts);
    assert!(open.contains("a") && !open.contains("over"));
    assert!(accepted.contains("taken"));
    assert_eq!(contracts.get("contract").map(String::as_str), Some("taken"));
    assert_eq!(orphans(&open, &claims(vec![claim("a", ClaimState::Claimed)])), [
        "b", "c", "taken"
    ]);
    let mut vetoes = Vetoes::none();
    let fate = |vetoes: &mut Vetoes, command: &str| {
        orphan(vetoes, &ledger, &records, &accepted, command)
    };
    assert_eq!(fate(&mut vetoes, "a"), OrphanFate::NotSent);
    assert_eq!(fate(&mut vetoes, "taken"), OrphanFate::Accepted);
    assert!(vetoes.enabled());
    assert_eq!(fate(&mut vetoes, "b"), OrphanFate::Doubted);
    assert_eq!(fate(&mut vetoes, "c"), OrphanFate::Doubt);
    assert!(vetoes.contains("journaled dispatch has no control row; reconciliation required"));
    let fate = |state, command: &str| {
        recovered(&claim(command, state), "deployment", &open, &accepted, &ledger)
    };
    assert_eq!(fate(ClaimState::Claimed, "over"), Some(ClaimFate::Reconciled));
    assert_eq!(fate(ClaimState::NotSent, "a"), Some(ClaimFate::NotSent));
    assert_eq!(fate(ClaimState::Claimed, "a"), Some(ClaimFate::PossiblySent { tell: true }));
    assert_eq!(fate(ClaimState::Claimed, "b"), Some(ClaimFate::PossiblySent { tell: false }));
    assert_eq!(fate(ClaimState::Claimed, "taken"), Some(ClaimFate::Accepted));
    assert!(recovered(
        &claim("a", ClaimState::Claimed),
        "another",
        &open,
        &accepted,
        &ledger
    )
    .is_none());
}

#[test]
fn only_the_operator_settles_doubt() {
    let mut table = claims(vec![claim("c", ClaimState::PossiblySent)]);
    let row = |state| claim("c", state);
    assert_eq!(
        refresh(&mut table, row(ClaimState::PossiblySent), "deployment"),
        Refresh::Nothing
    );
    assert_eq!(refresh(&mut table, row(ClaimState::NotSent), "deployment"), Refresh::NotSent);
    let mut given = row(ClaimState::Accepted);
    given.contract_ref = Some("k".into());
    assert_eq!(refresh(&mut table, given, "deployment"), Refresh::References);
    assert_eq!(table.get("c").unwrap().contract_ref.as_deref(), Some("k"));
    assert_eq!(table.get("c").unwrap().state, ClaimState::PossiblySent);
}

#[test]
fn events_hand_over_signals_and_the_receipt() {
    let events = vec![signal("a"), event(settled("c")), signal("b")];
    let follows = handover(&events, true);
    assert_eq!(follows.signals, [0, 2]);
    assert!(follows.assess);
    assert!(!handover(&events, false).assess);
    let signals = handover(&vec![signal("a")], true);
    assert_eq!((signals.signals.as_slice(), signals.assess), (&[0][..], false));
}

#[test]
fn ledger_events_have_consequences() {
    let mut contracts = Table::new();
    let mut vetoes = Vetoes::none();
    assert_eq!(drained(&mut contracts, &mut vetoes, &signal("c")), Consequence::Dispatch);
    assert_eq!(
        drained(&mut contracts, &mut vetoes, &event(accepted("c", true))),
        Consequence::Nothing
    );
    assert_eq!(contracts.get("contract").map(String::as_str), Some("c"));
    assert!(vetoes.contains("account has unresolved financial evidence"));
    let confirmed = event(EventKind::Confirmed {
        command: "c".into(),
        entry_price_units: None,
        entry_time_micros: None,
        start_micros: None,
        expiry_micros: Some(9),
    });
    assert_eq!(drained(&mut contracts, &mut vetoes, &confirmed), Consequence::Due(9));
    assert_eq!(
        drained(&mut contracts, &mut vetoes, &event(settled("c"))),
        Consequence::Over
    );
    after_drain(&mut vetoes, false, &claims(vec![claim("c", ClaimState::PossiblySent)]));
    assert!(!vetoes.contains("account has unresolved financial evidence"));
    assert!(vetoes.contains("unresolved dispatch claim"));
    let told = update_answered(&mut vetoes, &Table::new(), "c", &Err("gone".into()));
    assert_eq!(told.as_deref(), Some("claim update c: gone"));
    assert!(!vetoes.contains("unresolved dispatch claim"));
    assert!(update_answered(&mut vetoes, &Table::new(), "c", &Ok(false)).is_none());
    assert!(vetoes.contains("lease lost"));
}

fn bindings() -> Vec<Binding> {
    vec![Binding {
        id: "call".into(),
        instrument: "deriv:R_50".into(),
        strategy: "strategy".into(),
        contract: "contract".into(),
        risk_policy: "risk".into(),
    }]
}

fn risks() -> Vec<RiskPolicy> {
    vec![RiskPolicy {
        id: "risk".into(),
        max_quote_age_micros: 5_000_000,
        max_feature_age_micros: 5_000_000,
        max_proposal_age_micros: Some(5_000_000),
    }]
}

fn open_contract(contract: &str) -> OpenContract {
    OpenContract {
        contract_ref: contract.into(),
        transaction_ref: format!("{contract}-buy"),
        instrument: "R_50".into(),
        direction: Direction::Buy,
        buy_price: amount(10),
        purchase_time_micros: 2_000_000,
        start_micros: 2_000_000,
        payout: amount(18),
    }
}

fn row(contract: &str, action: CashAction, purchase: bool) -> StatementRow {
    StatementRow {
        purchase: purchase.then(|| (amount(10), liability(contract))),
        instrument: Some("R_50".into()),
        direction: Some(Direction::Buy),
        cash: CashFact {
            account: "account".into(),
            transaction_ref: "t".into(),
            contract_ref: Some(contract.into()),
            action,
        },
        receipt_micros: 0,
    }
}

#[test]
fn exactly_one_purchase_resolves_a_claim() {
    let uncertain = claim("c", ClaimState::PossiblySent);
    let all = claims(vec![claim("c", ClaimState::PossiblySent)]);
    let find = |contracts: &Table<String>, open: Vec<OpenContract>, rows: Vec<StatementRow>| {
        match_claim(
            &uncertain,
            "deployment",
            contracts,
            &all,
            &bindings(),
            &risks(),
            &open,
            &rows,
        )
    };
    let none = Table::new();
    assert!(matches!(
        find(&none, vec![open_contract("k")], vec![row("k", CashAction::Buy, true)]),
        Match::Purchased(debit, found) if debit.units == 10 && found.contract_ref == "k"
    ));
    assert!(matches!(
        find(&none, vec![open_contract("k")], vec![row("l", CashAction::Buy, true)]),
        Match::Ambiguous
    ));
    assert!(matches!(find(&none, vec![], vec![]), Match::Ambiguous));
    let mut tied = Table::new();
    tied.insert("k".to_string(), "c".to_string());
    assert!(matches!(find(&tied, vec![open_contract("k")], vec![]), Match::Skip));
}

#[test]
fn silence_proves_a_loss_only_past_its_horizon() {
    let zero = |now, from, through, rows: Vec<StatementRow>| {
        settles_at_zero("k", 5_000_000, 1_000_000, now, from, through, &rows)
    };
    assert!(zero(6_000_000, 5, 6, vec![]));
    assert!(!zero(5_999_999, 5, 6, vec![]));
    assert!(!zero(6_000_000, 5, 5, vec![]));
    assert!(!zero(6_000_000, 6, 6, vec![]));
    assert!(!zero(6_000_000, 5, 6, vec![row("k", CashAction::Sell, false)]));
    assert!(zero(6_000_000, 5, 6, vec![row("l", CashAction::Sell, false)]));
}

fn key() -> StreamKey {
    StreamKey { duration_seconds: 5, offset_seconds: 0 }
}

fn columns() -> Vec<StreamColumns> {
    vec![StreamColumns {
        stream: key(),
        columns: vec![ColumnSpec {
            name: "ready".into(),
            source: "out".into(),
            readiness: vec![],
            unready: vec![],
        }],
    }]
}

fn produced(value: Option<FeatureValue>) -> Vec<ProducedRow> {
    vec![ProducedRow {
        plan: 0,
        close_time_micros: 10,
        known_at_micros: 11,
        values: vec![None, value],
    }]
}

#[test]
fn produced_rows_are_bound_and_ask_for_proposals() {
    let plan =
        vec![StreamPlan { stream: key(), outputs: vec!["other".into(), "out".into()] }];
    let strategies = vec![Strategy { id: "strategy".into(), base_stream: key() }];
    let bound = columns();
    let rows = select_rows(&plan, &bound, &produced(Some(FeatureValue::Bool(true))), 20);
    assert_eq!((rows.len(), rows[0].stream, rows[0].known_at_micros), (1, 0, 20));
    assert!(matches!(rows[0].values[..], [Some(FeatureValue::Bool(true))]));
    assert_eq!(requests(&strategies, &bound, &rows, &bindings(), "deriv:R_50"), [0]);
    assert!(requests(&strategies, &bound, &rows, &bindings(), "other").is_empty());
    assert!(base_rows_ready(&strategies, &bound, &rows, &bindings(), "deriv:R_50"));
    let cold = select_rows(&plan, &bound, &produced(None), 20);
    assert!(!base_rows_ready(&strategies, &bound, &cold, &bindings(), "deriv:R_50"));
    let waiting = pending(0, rows, &bindings(), &vec![0], false, 20);
    assert_eq!(waiting.close_micros, 10);
    assert!(waiting.bindings.contains("call"));
}

fn waiting(close_micros: i64) -> PendingRows {
    let mut bindings = Table::new();
    bindings.insert("call".to_string(), ());
    PendingRows {
        instrument: 0,
        close_micros,
        bindings,
        observations: vec![],
        receipt_micros: close_micros,
    }
}

#[test]
fn rows_wait_for_their_proposals_until_they_are_stale() {
    let mut list = vec![waiting(1_000_000), waiting(3_000_000)];
    assert!(next_ready(&mut list, false, false).is_none());
    prune_rows(&mut list, &vec!["deriv:R_50".into()], &bindings(), &risks(), 6_000_001);
    assert_eq!(list.len(), 1);
    assert_eq!(list[0].close_micros, 3_000_000);
    proposal_ready(&mut list, "call", &Some(proposal()));
    assert!(matches!(list[0].observations[..], [Observation::Proposal { .. }]));
    assert!(next_ready(&mut list, true, false).is_none());
    assert!(next_ready(&mut list, true, true).is_some());
    assert!(list.is_empty());
    let mut list = vec![waiting(1)];
    clear_waits(&mut list);
    assert!(next_ready(&mut list, false, false).is_some());
}

#[test]
fn expiries_are_restored_from_the_journal() {
    let confirmed = event(EventKind::Confirmed {
        command: "c".into(),
        entry_price_units: None,
        entry_time_micros: None,
        start_micros: None,
        expiry_micros: Some(9),
    });
    let mut records = vec![
        record(1, RecordKind::Ledger { event: signal("c") }),
        record(2, RecordKind::Ledger { event: confirmed }),
    ];
    let instruments = vec!["deriv:R_50".to_string()];
    let due = restore_due(&records, &instruments);
    assert_eq!(due.get("c"), Some(&(0, 9)));
    records.push(record(
        3,
        RecordKind::DueTick { command: "c".into(), provider_time_micros: 9, price_units: 1 },
    ));
    assert!(restore_due(&records, &instruments).is_empty());
}

#[test]
fn a_run_opens_only_on_its_own_terms() {
    let binding = |currency| AccountBinding { broker: "b", account: "a", currency };
    assert_eq!(check_account(binding("USD"), binding("USD")), Ok(()));
    assert_eq!(
        check_account(binding("USD"), binding("EUR")).unwrap_err(),
        "live: broker account binding mismatch"
    );
    let warmup = Warmup {
        instrument: "i".into(),
        price_scale: 2,
        last_event_micros: 9,
        row_count: 3,
        coverage: "c".into(),
    };
    assert_eq!(check_warmup(&warmup, "i", 2, 10), Ok(()));
    assert_eq!(
        check_warmup(&warmup, "i", 3, 10).unwrap_err(),
        "live: warmup instrument or scale mismatch"
    );
    assert_eq!(
        check_warmup(&warmup, "i", 2, 9).unwrap_err(),
        "live: warmup must precede the observation window"
    );
    assert_eq!(check_replayed(&warmup, 3, &Some("c".into())), Ok(()));
    assert_eq!(
        check_replayed(&warmup, 3, &None).unwrap_err(),
        "live: warmup coverage or row count mismatch"
    );
    let names = |list: &[&str]| list.iter().map(|name| name.to_string()).collect::<Vec<_>>();
    assert_eq!(check_refits(&names(&["a"]), &names(&["a"]), 1), Ok(()));
    assert_eq!(
        check_refits(&names(&["a"]), &names(&["a"]), 2).unwrap_err(),
        "live: exactly one refit and warmup per frozen instrument is required"
    );
    assert_eq!(
        check_refits(&names(&["a", "b"]), &names(&["b", "a"]), 2).unwrap_err(),
        "live: refit instrument order mismatch"
    );
    let declared =
        Declared { price_scale: 2, quote_currency: "USD".into(), definition: "d".into() };
    assert_eq!(check_bound("p", "p", Some(&declared), 2, "USD", "d"), Ok(()));
    assert_eq!(
        check_bound("p", "q", Some(&declared), 2, "USD", "d").unwrap_err(),
        "live: refit plan identity mismatch"
    );
    assert_eq!(
        check_bound("p", "p", None, 2, "USD", "d").unwrap_err(),
        "live: frozen instrument is not configured"
    );
    assert_eq!(
        check_bound("p", "p", Some(&declared), 2, "EUR", "d").unwrap_err(),
        "live: configured instrument currency, scale, or feature definition differs from the frozen refit"
    );
}

#[test]
fn marked_segments_are_listed_by_their_keys() {
    let file = |name: String| StoredFile { name, sha256: "x".into(), bytes: 4 };
    let full = segment_name(1, 2);
    let found = uploaded_segments(
        &vec![file(format!("{full}.uploaded")), file(segment_name(3, 4))],
        "deployment",
    )
    .unwrap();
    assert_eq!(found.len(), 1);
    assert!(found.contains(&segment_key("deployment", &full)));
    assert_eq!(
        uploaded_segments(&vec![file("stray.uploaded".into())], "deployment").unwrap_err(),
        "invalid journal segment name"
    );
    let manifest = final_manifest(
        "deployment".into(),
        "file:///d/",
        "ledger",
        "g".into(),
        "receipt",
        vec![],
        None,
        Table::new(),
    );
    assert_eq!(manifest.ledger, "file:///d/ledger");
    assert_eq!(manifest.receipt, "file:///d/receipt");
}

#[test]
fn claims_outlive_their_archive() {
    let records = vec![
        record(1, RecordKind::Ledger { event: signal("c") }),
        record(2, RecordKind::Ledger { event: event(settled("c")) }),
    ];
    let table = claims(vec![claim("c", ClaimState::Reconciled)]);
    let mut segments = Table::new();
    assert!(deletable(&table, &records, &segments, 2).is_empty());
    let key = segment_key("deployment", &segment_name(1, 2));
    let segment = Segment { key: key.clone(), sha256: "x".into(), bytes: 1 };
    segments.insert(key, segment);
    assert_eq!(deletable(&table, &records, &segments, 2), ["c"]);
    let pending = claims(vec![claim("c", ClaimState::PossiblySent)]);
    assert!(deletable(&pending, &records, &segments, 2).is_empty());
    assert_eq!(check_archival_interruption(false), Ok(()));
    assert_eq!(
        check_archival_interruption(true).unwrap_err(),
        "live: archival interrupted before final publication"
    );
    let mut errors = Table::new();
    assert_eq!(upload_failure(&errors), None);
    errors.insert("b".to_string(), "later".to_string());
    errors.insert("a".to_string(), "first".to_string());
    assert_eq!(upload_failure(&errors).as_deref(), Some("first"));
}

#[test]
fn the_owner_reports_what_is_uncertain() {
    let mut vetoes = Vetoes::none();
    assert!(asks_authorization(Mode::Live, false, &vetoes, 0));
    assert!(!asks_authorization(Mode::Live, false, &vetoes, 1));
    vetoes.set("live authorization is absent", true);
    assert!(asks_authorization(Mode::Live, false, &vetoes, 1));
    assert!(!asks_authorization(Mode::Live, true, &vetoes, 1));
    assert!(!asks_authorization(Mode::Paper, false, &vetoes, 1));
    assert_eq!(check_progress(&None, &None, true, false, false), Ok(None));
    assert_eq!(
        check_progress(&None, &None, true, true, false),
        Ok(Some("lease renewal connection ended".to_string()))
    );
    assert_eq!(
        check_progress(&None, &None, true, true, true).unwrap_err(),
        "live: renewal worker panicked"
    );
    assert_eq!(
        check_progress(&None, &Some("clock".into()), true, true, true).unwrap_err(),
        "clock"
    );
    assert_eq!(
        check_progress(&Some("own".into()), &Some("clock".into()), true, true, true).unwrap_err(),
        "own"
    );
    assert_eq!(check_replay_progress(true, 0, true), Ok(()));
    assert_eq!(
        check_replay_progress(false, 0, true).unwrap_err(),
        "live replay: recorded log stalled before all frames and expected writes were consumed"
    );
    let table = claims(vec![
        claim("a", ClaimState::PossiblySent),
        claim("b", ClaimState::Claimed),
        claim("c", ClaimState::Accepted),
    ]);
    let mut doubted = Table::new();
    doubted.insert("a".to_string(), ());
    assert_eq!(uncertain_commands(&table, &doubted, 2), 3);
    assert_eq!(writes_health(10, 5, 10, &Some("same".into()), "same"), (false, false));
    assert_eq!(writes_health(10, 5, 10, &Some("same".into()), "other"), (true, false));
    assert_eq!(writes_health(15, 5, 10, &Some("same".into()), "same"), (true, true));
}

#[test]
fn a_reconnected_market_breaks_its_stream() {
    let mut worker = MarketWorker { subscribed: true };
    let message = worker.reconnected(Ok(None), 4, "lost".into());
    assert!(!worker.subscribed);
    assert!(matches!(
        message,
        MarketMessage::Market(MarketEvent::Break { generation: 4, reason }) if reason == "lost"
    ));
    assert!(matches!(
        worker.reconnected(Err("refused".into()), 4, "lost".into()),
        MarketMessage::MarketFailed(error) if error == "refused"
    ));
}

#[test]
fn purchases_that_are_reconciled_tie_their_contract() {
    let mut contracts = Table::new();
    let mut vetoes = Vetoes::none();
    let purchased = event(EventKind::Reconciled {
        command: "c".into(),
        source: source(),
        resolution: Resolution::Purchased { debit: amount(10), liability: liability("k") },
        profit: None,
    });
    assert_eq!(drained(&mut contracts, &mut vetoes, &purchased), Consequence::Nothing);
    assert_eq!(contracts.get("k").map(String::as_str), Some("c"));
    let closed = event(EventKind::Reconciled {
        command: "c".into(),
        source: source(),
        resolution: Resolution::ExternallyClosed,
        profit: None,
    });
    assert_eq!(drained(&mut contracts, &mut vetoes, &closed), Consequence::Over);
}

fn queued(commands: &[&str]) -> Queue {
    let mut queue = Queue::new();
    for command in commands {
        let actions = dispatch(&mut queue, signal(command), "d", true, 200, Mode::Live).unwrap();
        assert_eq!(actions.len(), usize::from(*command == commands[0]));
    }
    queue
}

fn told(action: &Action) -> (&str, &str, &str) {
    match action {
        Action::Tell(Told::NotSent { command, source }) => ("not sent", command, &source.id),
        Action::Tell(Told::PossiblySent { command, source }) => {
            ("possibly sent", command, &source.id)
        }
        Action::Tell(Told::Reconciliation { command, source, .. }) => {
            ("reconciliation", command, &source.id)
        }
        _ => ("", "", ""),
    }
}

#[test]
fn signals_are_queued_or_given_up() {
    let mut queue = Queue::new();
    let paper = dispatch(&mut queue, signal("a"), "d", true, 200, Mode::Paper).unwrap();
    assert_eq!(told(&paper[0]), ("not sent", "a", "paper:a"));
    let disabled = dispatch(&mut queue, signal("a"), "d", false, 200, Mode::Live).unwrap();
    assert_eq!(told(&disabled[0]), ("not sent", "a", "entry-disabled:a"));
    assert!(queue.order.is_empty());
    let actions = dispatch(&mut queue, signal("a"), "d", true, 200, Mode::Live).unwrap();
    assert!(matches!(
        &actions[..],
        [Action::Prepare(PreparedPurchase { dispatch_claim, .. })] if dispatch_claim == "d:a"
    ));
    assert_eq!(
        dispatch(&mut queue, event(EventKind::Other), "d", true, 200, Mode::Live).unwrap_err(),
        "live: dispatch requires an admitted broker signal"
    );
    let mut queue = queued(&["a", "b"]);
    let failed = preparation_failed(&mut queue, "a", 200, Mode::Replay);
    assert!(matches!(&failed[0], Action::Prepare(next) if next.command == "b"));
    assert_eq!(told(&failed[1]), ("not sent", "a", "prepare-failed:a"));
    assert!(matches!(
        &failed[1],
        Action::Tell(Told::NotSent { source, .. }) if source.simulated
            && source.provider_time_micros == 200
    ));
    assert_eq!(not_sent(&mut queue, "unknown", "x", 0, Mode::Live).len(), 1);
    assert_eq!(queue.order, ["b"]);
}

#[test]
fn a_prepared_purchase_is_claimed_in_time() {
    let prepare = |queue: &mut Queue, command: &str, enabled, now| {
        prepared(queue, command, &bindings(), &risks(), "d", 7, enabled, now, 0, 9, Mode::Live)
    };
    let mut queue = queued(&["a"]);
    assert_eq!(
        prepare(&mut queue, "b", true, 200).unwrap_err(),
        "live: prepared reply without command"
    );
    let claimed = prepare(&mut queue, "a", true, 200).unwrap();
    assert!(matches!(
        &claimed[..],
        [Action::Claim(claim)] if claim.command == "a" && claim.claim == "d:a" && claim.token == 7
            && claim.max_proposal_age_micros == 5_000_000
    ));
    let late = prepare(&mut queue, "a", true, 5_000_101).unwrap();
    assert_eq!(told(&late[0]), ("not sent", "a", "claim-boundary-expired:a"));
    assert!(matches!(&late[1], Action::Veto(reason) if reason == "proposal unavailable: call"));
    let mut queue = queued(&["a"]);
    let disabled = prepare(&mut queue, "a", false, 200).unwrap();
    assert_eq!(told(&disabled[0]), ("not sent", "a", "entry-disabled-after-prepare:a"));
}

#[test]
fn only_an_inserted_claim_goes_on() {
    let answer = |queue: &mut Queue, answer| {
        let mut claims = Table::new();
        let mut vetoes = Vetoes::none();
        let made = claim("a", ClaimState::Claimed);
        let actions =
            claim_answered(queue, &mut claims, &mut vetoes, made, answer, 300, Mode::Live);
        (actions, claims, vetoes)
    };
    let mut queue = queued(&["a", "b"]);
    let (actions, claims, vetoes) = answer(&mut queue, Ok(ClaimOutcome::Inserted));
    assert!(matches!(
        &actions[..],
        [Action::Record(RecordKind::Claimed { token: 1, .. })]
    ));
    assert!(claims.contains("a") && vetoes.enabled());
    assert_eq!(queue.dispatches.get("a").unwrap().claim_at, Some(300));
    let (actions, claims, vetoes) = answer(&mut queue, Ok(ClaimOutcome::LeaseLost));
    assert!(matches!(&actions[0], Action::Prepare(next) if next.command == "b"));
    assert_eq!(told(&actions[1]), ("not sent", "a", "claim-lease-lost:a"));
    assert!(claims.is_empty() && vetoes.contains("lease lost"));
    let existing = claim("a", ClaimState::Claimed);
    let (actions, claims, _) =
        answer(&mut queued(&["a"]), Ok(ClaimOutcome::Replay(existing)));
    assert_eq!(told(&actions[0]), ("possibly sent", "a", "claim-replay:a"));
    assert_eq!(claims.get("a").unwrap().state, ClaimState::PossiblySent);
    let (actions, _, vetoes) = answer(&mut queued(&["a"]), Err("gone".into()));
    assert!(matches!(
        &actions[0],
        Action::Record(RecordKind::Discontinuity { reason })
            if reason == "claim commit uncertain: gone"
    ));
    assert_eq!(told(&actions[1]), ("possibly sent", "a", "claim-uncertain:a"));
    assert!(matches!(actions[2], Action::Refresh));
    assert_eq!(told(&actions[3]), ("reconciliation", "a", "claim-commit-no-write:a"));
    assert!(vetoes.contains("unresolved dispatch claim"));
}

fn terms(economics: &str) -> Vec<ContractTerms> {
    let cashflow = || Cashflow { gross_return: amount(0), terminal_fee: amount(0) };
    vec![ContractTerms {
        id: "contract".into(),
        direction: Direction::Buy,
        duration_micros: 15_000_000,
        quoted_cost: amount(10),
        purchase: Ok(amount(10)),
        economics: economics.into(),
        semantics: "semantics".into(),
        settlement: "settlement".into(),
        win: cashflow(),
        loss: cashflow(),
        tie: cashflow(),
    }]
}

#[test]
fn a_claimed_purchase_is_written_as_assessed() {
    let write = |queue: &mut Queue, baseline, local_now| {
        after_claim(
            queue,
            "a",
            &bindings(),
            &baseline,
            &terms("template"),
            5_000_000,
            200,
            local_now,
            9,
            Mode::Live,
        )
    };
    let mut queue = queued(&["a"]);
    let actions = write(&mut queue, terms("economics"), 0);
    assert!(matches!(
        &actions[..],
        [Action::Record(RecordKind::Written { claim, .. }), Action::Write] if claim == "d:a"
    ));
    for (baseline, local_now) in [(terms("other"), 0), (terms("economics"), 9)] {
        let actions = write(&mut queued(&["a"]), baseline, local_now);
        assert!(matches!(actions[0], Action::Update { state: ClaimState::NotSent, .. }));
        assert_eq!(told(&actions[1]), ("not sent", "a", "write-boundary-expired:a"));
        assert!(matches!(actions[2], Action::Update { state: ClaimState::Reconciled, .. }));
        assert!(matches!(&actions[3], Action::Veto(_)));
        assert_eq!(actions.len(), 4);
    }
}

#[test]
fn an_answered_write_is_followed_or_closed() {
    let under_way = Dispatch {
        signal: signal("a"),
        prepared: PreparedPurchase {
            dispatch_claim: "d:a".into(),
            command: "a".into(),
            proposal_identity: "proposal".into(),
            maximum_price: amount(10),
        },
        claim_at: Some(300),
    };
    let answered = |outcome| {
        let measured = Measurements {
            market_event_to_decision_micros: None,
            claim_to_socket_write_micros: None,
            decision_to_acceptance_micros: None,
        };
        write_answered("a", &written(&outcome, &under_way, measured, 400, 500, false))
    };
    let bought = answered(PurchaseOutcome::Accepted { liability: liability("k") });
    assert!(matches!(
        &bought[..],
        [
            Action::Outcome,
            Action::Update { state: ClaimState::Accepted, contract_ref: Some(_), .. },
            Action::Subscribe(contract),
            Action::Complete(command)
        ] if contract == "k" && command == "a"
    ));
    let rejected = answered(PurchaseOutcome::Rejected { reason: "no".into() });
    assert!(matches!(
        &rejected[..],
        [
            Action::Outcome,
            Action::Update { state: ClaimState::Rejected, .. },
            Action::Update { state: ClaimState::Reconciled, .. },
            Action::Complete(_)
        ]
    ));
    let doubtful = answered(PurchaseOutcome::PossiblySent { reason: "lost".into() });
    assert!(matches!(
        &doubtful[..],
        [
            Action::Outcome,
            Action::Update { state: ClaimState::PossiblySent, .. },
            Action::Veto(reason),
            Action::Complete(_)
        ] if reason == "unresolved dispatch claim"
    ));
}

#[test]
fn recovery_tells_the_engine_where_it_knows_from() {
    let orphaned = |fate| orphan_steps(&mut Queue::new(), fate, "a", 0, Mode::Live);
    assert!(orphaned(OrphanFate::Accepted).is_empty());
    assert!(orphaned(OrphanFate::Doubted).is_empty());
    assert_eq!(
        told(&orphaned(OrphanFate::Doubt)[0]),
        ("possibly sent", "a", "recovery-missing-claim:a")
    );
    assert_eq!(
        told(&orphaned(OrphanFate::NotSent)[0]),
        ("not sent", "a", "recovery-before-claim:a")
    );
    let held = claim("a", ClaimState::Claimed);
    let steps = |fate| claim_steps(&held, fate, 0, Mode::Live);
    assert!(steps(None).is_empty() && steps(Some(ClaimFate::Accepted)).is_empty());
    assert!(matches!(
        steps(Some(ClaimFate::Reconciled))[..],
        [Action::Update { state: ClaimState::Reconciled, .. }]
    ));
    assert_eq!(
        told(&steps(Some(ClaimFate::NotSent))[0]),
        ("reconciliation", "a", "recovery-proven-not-sent:a")
    );
    let doubted = steps(Some(ClaimFate::PossiblySent { tell: true }));
    assert_eq!(told(&doubted[0]), ("possibly sent", "a", "recovery-uncertain:claim"));
    assert_eq!(doubted.len(), 2);
    assert_eq!(steps(Some(ClaimFate::PossiblySent { tell: false })).len(), 1);
    assert_eq!(
        told(&refresh_steps(Refresh::NotSent, "a", 0, Mode::Live)[0]),
        ("reconciliation", "a", "operator-not-sent:a")
    );
    assert!(refresh_steps(Refresh::References, "a", 0, Mode::Live).is_empty());
}

#[test]
fn reconciliation_ties_a_purchase_or_leaves_doubt() {
    let held = claim("a", ClaimState::Claimed);
    let mut table = claims(vec![claim("a", ClaimState::Claimed)]);
    assert!(match_steps(&mut table, &held, Match::Skip, 0, Mode::Live).is_empty());
    let bought = Match::Purchased(amount(10), liability("k"));
    let actions = match_steps(&mut table, &held, bought, 0, Mode::Live);
    assert_eq!(told(&actions[0]), ("reconciliation", "a", "recovery-purchase:claim"));
    assert!(matches!(
        &actions[1..],
        [
            Action::Tie { contract, command },
            Action::Update { state: ClaimState::Accepted, .. },
            Action::Subscribe(_)
        ] if contract == "k" && command == "a"
    ));
    assert_eq!(table.get("a").unwrap().state, ClaimState::Claimed);
    assert!(match_steps(&mut table, &held, Match::Ambiguous, 0, Mode::Live).is_empty());
    assert_eq!(table.get("a").unwrap().state, ClaimState::PossiblySent);
    assert!(matches!(
        zero_credit("a", -5, 9, 7, Mode::Replay),
        Told::Reconciliation { source, resolution: Resolution::Settled { .. }, .. }
            if source.id == "zero-credit:a:-5" && source.available_at_micros == 9
                && source.provider_time_micros == 7 && source.simulated
    ));
}

#[test]
fn a_contract_is_tied_to_one_claim_only() {
    let mut table = claims(vec![
        claim("a", ClaimState::PossiblySent),
        claim("b", ClaimState::PossiblySent),
        claim("c", ClaimState::Reconciled),
    ]);
    let mut contracts = Table::new();
    let actions = match_claims(
        &mut table,
        &mut contracts,
        "deployment",
        &bindings(),
        &risks(),
        &vec![open_contract("k")],
        &vec![row("k", CashAction::Buy, true)],
        7,
        Mode::Live,
    );
    let counts: Vec<usize> = actions.iter().map(Vec::len).collect();
    assert_eq!(counts, [4, 0, 0]);
    assert_eq!(told(&actions[0][0]), ("reconciliation", "a", "recovery-purchase:claim"));
    assert_eq!(contracts.get("k").unwrap(), "a");
    assert_eq!(table.get("a").unwrap().state, ClaimState::Accepted);
    assert_eq!(table.get("a").unwrap().contract_ref.as_deref(), Some("k"));
    assert_eq!(table.get("a").unwrap().transaction_ref.as_deref(), Some("k-buy"));
    assert_eq!(table.get("b").unwrap().state, ClaimState::PossiblySent);
    assert_eq!(table.get("c").unwrap().state, ClaimState::Reconciled);
}

#[test]
fn every_unpaid_loss_past_its_horizon_is_settled_at_zero() {
    let delayed = |command: &str, delay: i64| {
        let mut event = signal(command);
        if let EventKind::Signal(signal) = &mut event.kind {
            signal.proposal.as_mut().unwrap().max_settlement_delay_micros = delay;
        }
        record(1, RecordKind::Ledger { event })
    };
    let mut records =
        vec![delayed("a", 1_000_000), delayed("b", 1_000_000), delayed("d", 9_000_000)];
    assert_eq!(settlement_delay(&records, "b"), Some(1_000_000));
    assert_eq!(settlement_delay(&records, "c"), None);
    let mut contracts = Table::new();
    for (command, contract) in [("a", "k"), ("b", "l"), ("c", "m"), ("d", "n"), ("e", "o")] {
        contracts.insert(contract.to_string(), command.to_string());
        for kind in [
            EventKind::Confirmed {
                command: command.into(),
                entry_price_units: None,
                entry_time_micros: None,
                start_micros: None,
                expiry_micros: Some(5_000_000),
            },
            EventKind::Unresolved {
                command: command.into(),
                terminal: Some(Terminal {
                    status: TerminalStatus::Lost,
                    exit_price_units: None,
                    exit_time_micros: None,
                    transaction_ref: None,
                }),
                source: None,
            },
        ] {
            records.push(record(1, RecordKind::Ledger { event: event(kind) }));
        }
    }
    records.push(delayed("e", 1_000_000));
    records.push(record(
        1,
        RecordKind::Ledger {
            event: event(EventKind::Reconciled {
                command: "e".into(),
                source: source(),
                resolution: Resolution::Settled {
                    outcome: Outcome::Loss,
                    gross_return: amount(0),
                    terminal_fee: amount(0),
                },
                profit: None,
            }),
        },
    ));
    let unpaid = unpaid_losses(&records, &contracts);
    assert_eq!(unpaid.len(), 4);
    assert_eq!(unpaid.get("a").unwrap(), &("k".to_string(), 5_000_000));
    let now = observed_now(5_000_000, Some(6_000_000));
    assert_eq!((now, observed_now(7, Some(6)), observed_now(7, None)), (6_000_000, 7, 7));
    let settled = zero_credits(
        &records,
        &contracts,
        Covered { observed_now: now, from: 5, through: 6 },
        &vec![row("l", CashAction::Sell, false)],
        9,
        7,
        Mode::Replay,
    );
    assert_eq!(settled.len(), 1);
    assert!(matches!(
        &settled[0],
        Told::Reconciliation { command, source, resolution: Resolution::Settled { .. } }
            if command == "a" && source.id == "zero-credit:a:5000000"
                && source.available_at_micros == 9 && source.provider_time_micros == 7
    ));
}
