//! The live runtime: entries, claims, dispatch, reconciliation, and deployment.

use binary_alpha::digest::digest;
use binary_alpha::live::archive::{claim_archived, last_part, may_upload, through};
use binary_alpha::live::authorization::{
    grants, key as authorization_key, publish as publish_authorization, Authorization, Bindings,
};
use binary_alpha::live::claims::{changes_receipt, committed, has_unresolved, update_claim};
use binary_alpha::live::control::{Claim, ClaimOutcome, ClaimState};
use binary_alpha::live::deployment::{
    live_mode, replay_mode, report, DeploymentManifest, Mode, RunMode,
};
use binary_alpha::live::dispatch::{
    claimed, expired, is_as_assessed, route, writes, Claimed, Queue, PreparedPurchase, Route,
};
use binary_alpha::live::due::take_due;
use binary_alpha::live::entries::{entry_gates, Entries, Gates, Vetoes};
use binary_alpha::live::finance::{
    Cashflow, ContractTerms, Decimal, Direction, Disposition, EventKind, FinancialEvent, Outcome,
    Proposal, Signal,
};
use binary_alpha::live::ingress::{
    claims_unavailable, needs_recovery, periodic, Due, Grant, Ingress, Owner, Recovery, Step,
};
use binary_alpha::live::journal::{segment_name, Record, RecordKind};
use binary_alpha::live::lease::Holding;
use binary_alpha::live::opening::{history, keeps_restored, opening_record, History, Prefix};
use binary_alpha::live::owner::{balance, exhausted, failed, Failure};
use binary_alpha::live::receipt::Segment;
use binary_alpha::live::reconcile::{
    symbol, uncorrelated_liability, whole_second, OpenContract,
};
use binary_alpha::live::rows::{
    row_ready, whole_seconds, ColumnSpec, FeatureValue, StreamColumns, StreamKey, Warmth,
};
use binary_alpha::live::workers::{final_key, verify_upload, AccountWorker, Intent, MarketWorker, Next};
use binary_alpha::store::{put_new, Stored};
use binary_alpha::table::Table;

#[test]
fn present_false_ema_flag_and_not_ready_ema_state_keep_warmup_unready() {
    let flag = ColumnSpec {
        name: "ema_ready".into(),
        source: "ema_ready".into(),
        readiness: vec![],
        unready: vec![],
    };
    let state = ColumnSpec {
        name: "ema_state".into(),
        source: "ema_state".into(),
        readiness: vec!["ema_ready".into()],
        unready: vec!["not_ready".into()],
    };
    let stream = StreamColumns {
        stream: StreamKey { duration_seconds: 20, offset_seconds: 0 },
        columns: vec![flag, state],
    };
    for values in [
        vec![Some(FeatureValue::Bool(false)), Some(FeatureValue::Text("up".into()))],
        vec![Some(FeatureValue::Bool(true)), Some(FeatureValue::Text("not_ready".into()))],
    ] {
        assert!(values.iter().all(Option::is_some));
        assert!(!row_ready(&stream, &values));
    }
    assert!(row_ready(
        &stream,
        &vec![Some(FeatureValue::Bool(true)), Some(FeatureValue::Text("up".into()))]
    ));
}

fn authorization() -> Authorization {
    Authorization {
        schema_version: 1,
        deployment: "deployment".into(),
        configuration: "config".into(),
        bundle_sha256: "bundle".into(),
        broker: "broker".into(),
        account: "account".into(),
        operator: "operator".into(),
        reason: "approved fixture".into(),
        hash: String::new(),
    }
}

#[test]
fn create_reuse_conflict_and_validate() {
    let value = authorization().create("hash".into()).unwrap();
    assert_eq!(value.hash, "hash");
    assert_eq!(publish_authorization(None, &value, "u"), Ok(Stored::Created));
    let held = Ok(authorization().create("hash".into()).unwrap());
    assert_eq!(publish_authorization(Some(&held), &value, "u"), Ok(Stored::Reused));
    let mut changed = authorization();
    changed.reason = "a different reason".into();
    let changed = changed.create("other hash".into()).unwrap();
    assert_eq!(
        publish_authorization(Some(&held), &changed, "u").unwrap_err(),
        "u already holds different content"
    );
    assert!(publish_authorization(Some(&Err("undecoded".into())), &value, "u").is_err());
    assert!(value.check_read("deployment", "hash").is_ok());
    let bound = Bindings {
        deployment: "deployment",
        configuration: "config",
        bundle_sha256: "bundle",
        broker: "broker",
        account: "account",
    };
    assert!(value.validate(bound, "hash").is_ok());
    for (index, name) in
        ["deployment", "configuration", "bundle_sha256", "broker", "account"].iter().enumerate()
    {
        let mut bindings = ["deployment", "config", "bundle", "broker", "account"];
        bindings[index] = "different";
        assert_eq!(
            value.validate(
                Bindings {
                    deployment: bindings[0],
                    configuration: bindings[1],
                    bundle_sha256: bindings[2],
                    broker: bindings[3],
                    account: bindings[4],
                },
                "hash"
            ),
            Err(format!("authorization {name} mismatch"))
        );
    }
    assert_eq!(
        value.validate(bound, "hash of changed content"),
        Err("authorization hash mismatch".into())
    );
    assert!(grants(Ok(Some(value)), bound, "hash"));
    assert!(!grants(Ok(None), bound, "hash"));
    assert!(!grants(Err("unreadable".into()), bound, "hash"));
    let mut silent = authorization();
    silent.reason = String::new();
    assert_eq!(
        silent.create("hash".into()).unwrap_err(),
        "authorization operator and reason must be non-empty"
    );
    assert_eq!(authorization_key("d"), "live/authorizations/d.json");
}

fn gates() -> Gates {
    Gates {
        warm: true,
        balance_reconciled: true,
        local_now: 5,
        deadline: 10,
        spool_bytes: 1,
        max_spool_bytes: 2,
        unresolved_claim: false,
    }
}

#[test]
fn entries_open_only_through_every_gate() {
    let mut vetoes = Vetoes::none();
    entry_gates(&mut vetoes, gates());
    assert!(vetoes.enabled());
    for closed in [
        Gates { warm: false, ..gates() },
        Gates { balance_reconciled: false, ..gates() },
        Gates { local_now: 10, ..gates() },
        Gates { spool_bytes: 2, ..gates() },
        Gates { unresolved_claim: true, ..gates() },
    ] {
        entry_gates(&mut vetoes, closed);
        assert!(!vetoes.enabled());
        assert!(matches!(vetoes.entries(), Entries::Disabled(_)));
        entry_gates(&mut vetoes, gates());
        assert!(vetoes.enabled());
    }
    vetoes.set("another reason", true);
    entry_gates(&mut vetoes, gates());
    assert!(matches!(vetoes.entries(), Entries::Disabled(reason) if reason == "another reason"));
}

#[test]
fn a_break_makes_every_instrument_cold() {
    let mut vetoes = Vetoes::none();
    let mut warmth = Warmth::cold(2);
    warmth.observed(&mut vetoes, 0, true);
    warmth.observed(&mut vetoes, 1, true);
    assert!(warmth.complete());
    warmth.broken(&mut vetoes);
    assert!(!warmth.complete() && !vetoes.enabled());
    warmth.observed(&mut vetoes, 0, true);
    assert!(!warmth.complete());
    warmth.observed(&mut vetoes, 1, true);
    assert!(warmth.complete());
}

fn amount(units: i64) -> Decimal {
    Decimal { units, scale: 0 }
}

fn terms() -> ContractTerms {
    let flow = |units| Cashflow { gross_return: amount(units), terminal_fee: amount(0) };
    ContractTerms {
        id: "call".into(),
        direction: Direction::Buy,
        duration_micros: 15_000_000,
        economics: "economics".into(),
        semantics: "semantics".into(),
        settlement: "settlement".into(),
        quoted_cost: amount(10),
        purchase: Ok(amount(10)),
        win: flow(18),
        loss: flow(0),
        tie: flow(10),
    }
}

fn proposal() -> Proposal {
    Proposal {
        identity: "proposal".into(),
        account: "account".into(),
        instrument: "deriv:R_50".into(),
        receipt_micros: 100,
        direction: Direction::Buy,
        duration_micros: 15_000_000,
        max_settlement_delay_micros: 0,
        quoted_cost: amount(10),
        economics: "economics".into(),
        semantics: "semantics".into(),
        settlement: "settlement".into(),
        terms_identity: "terms".into(),
        request_identity: "request".into(),
        canonical_request_identity: "request".into(),
    }
}

fn signal(command: &str) -> FinancialEvent {
    FinancialEvent {
        sequence: 0,
        time_micros: 1_500_000,
        kind: EventKind::Signal(Signal {
            instrument: "deriv:R_50".into(),
            binding: "call".into(),
            disposition: Disposition::Admitted,
            quote_price_units: Some(1),
            quote_time_micros: Some(100),
            command: Some(command.into()),
            proposal: Some(proposal()),
            reservation: Some(amount(10)),
        }),
    }
}

fn claim(state: ClaimState) -> Claim {
    Claim {
        command: "c".into(),
        claim: "claim".into(),
        deployment: "deployment".into(),
        token: 1,
        max_proposal_age_micros: 1_000,
        signal: signal("c"),
        state,
        contract_ref: None,
        transaction_ref: None,
    }
}

fn prepared(command: &str) -> PreparedPurchase {
    PreparedPurchase {
        dispatch_claim: "claim".into(),
        command: command.into(),
        proposal_identity: "proposal".into(),
        maximum_price: amount(10),
    }
}

#[test]
fn purchases_are_prepared_one_at_a_time() {
    let mut queue = Queue::new();
    assert!(matches!(queue.push(signal("a"), prepared("a")), Some(first) if first.command == "a"));
    assert!(queue.push(signal("b"), prepared("b")).is_none());
    assert_eq!(queue.replied("b").unwrap().prepared.command, "b");
    assert_eq!(queue.replied("c").unwrap_err(), "live: write reply without command");
    assert!(matches!(queue.complete("a"), Some(next) if next.command == "b"));
    assert!(queue.complete("b").is_none());
    assert!(is_as_assessed(&proposal(), &terms(), &terms()));
    let mut dearer = proposal();
    dearer.economics = "other economics".into();
    assert!(!is_as_assessed(&dearer, &terms(), &terms()));
    assert!(!expired(100, 100, 50, 5, 10));
    assert!(expired(151, 100, 50, 5, 10));
    assert!(expired(100, 100, 50, 10, 10));
    assert_eq!(whole_seconds(terms().duration_micros), Some(15));
    assert_eq!(whole_seconds(-1), Some(0));
    assert_eq!(whole_seconds(-1_000_000), None);
}

#[test]
fn only_an_inserted_claim_is_written() {
    let mut claims = Table::new();
    let mut vetoes = Vetoes::none();
    let inserted = claimed(
        &mut claims,
        &mut vetoes,
        claim(ClaimState::Claimed),
        Ok(ClaimOutcome::Inserted),
    );
    assert!(matches!(inserted, Claimed::Inserted));
    assert!(claims.contains("c"));
    assert!(has_unresolved(&claims));
    assert!(writes(&inserted, &proposal(), &terms(), &terms(), false));
    assert!(!writes(&inserted, &proposal(), &terms(), &terms(), true));
    assert!(!writes(&Claimed::LeaseLost, &proposal(), &terms(), &terms(), false));
    assert!(!writes(&Claimed::Replayed, &proposal(), &terms(), &terms(), false));
    let lost = claimed(
        &mut claims,
        &mut vetoes,
        claim(ClaimState::Claimed),
        Ok(ClaimOutcome::LeaseLost),
    );
    assert!(matches!(lost, Claimed::LeaseLost));
    assert!(!vetoes.enabled());
    assert!(update_claim(&mut claims, "deployment", "c", ClaimState::Reconciled, Some("k"), None));
    assert!(!has_unresolved(&claims));
}

fn record(sequence: u64, kind: RecordKind) -> Record {
    Record {
        sequence,
        previous_sha256: "0".repeat(64),
        time_micros: 1,
        deployment: "deployment".into(),
        kind,
    }
}

#[test]
fn claims_are_deleted_only_once_archived() {
    let records = vec![
        record(1, RecordKind::Claimed { command: "c".into(), claim: "k".into(), token: 1 }),
        record(2, RecordKind::Discontinuity { reason: "r".into() }),
        record(
            3,
            RecordKind::Ledger {
                event: FinancialEvent {
                    sequence: 0,
                    time_micros: 1,
                    kind: EventKind::Settled {
                        command: "c".into(),
                        outcome: Outcome::Loss,
                        gross_return: amount(0),
                        terminal_fee: amount(0),
                        discrepancy: false,
                        deficit: None,
                        transaction_ref: None,
                    },
                },
            },
        ),
    ];
    let mut segments: Table<Segment> = Table::new();
    let mut add = |segments: &mut Table<Segment>, first, last| {
        let name = segment_name(first, last);
        segments.insert(
            name.clone(),
            Segment { key: format!("live/d/journal/{name}"), sha256: "s".into(), bytes: 1 },
        );
    };
    add(&mut segments, 1, 2);
    assert_eq!(through(&segments, 2), Some(2));
    assert!(!claim_archived(&records, &segments, 2, "c"));
    add(&mut segments, 3, 4);
    assert_eq!(through(&segments, 2), Some(4));
    assert!(claim_archived(&records, &segments, 2, "c"));
    assert!(committed(&records, "c"));
    assert!(!committed(&records, "d"));
    assert_eq!(last_part("a/b/c"), "c");
    assert!(may_upload(0, 0, false));
}

#[test]
fn histories_continue_only_their_own_definition() {
    let started = |definition: &str| {
        record(
            1,
            RecordKind::Started {
                config_hash: "config".into(),
                definition: definition.into(),
                code_revision: "revision".into(),
            },
        )
    };
    let (found, ledger) = history(&vec![], "config", "definition").unwrap();
    assert_eq!((found, ledger.len()), (History::New, 0));
    assert!(matches!(
        opening_record(History::New, "config", "definition", "revision"),
        RecordKind::Started { .. }
    ));
    let (found, _) = history(&vec![started("definition")], "config", "definition").unwrap();
    assert_ne!(found, History::New);
    assert!(history(&vec![started("other")], "config", "definition").is_err());
    assert!(keeps_restored(History::Ledger, Mode::Live, true).unwrap());
    let mut prefix = Prefix::none();
    assert!(prefix.reproduced());
    assert_eq!(
        prefix.record(&RecordKind::Discontinuity { reason: "r".into() }, "t", 1),
        Ok(false)
    );
}

#[test]
fn modes_follow_the_configuration() {
    assert_eq!(replay_mode(RunMode::Replay), Ok(Mode::Replay));
    assert!(replay_mode(RunMode::Live).is_err());
    assert_eq!(live_mode(RunMode::Live), Ok(Mode::Live));
    assert_eq!(live_mode(RunMode::Paper), Ok(Mode::Paper));
    assert!(live_mode(RunMode::Research).is_err());
    assert!(report(Mode::Paper, "d", "r", true).contains("d"));
    let manifest = DeploymentManifest {
        kind: "live_deployment".into(),
        schema_version: 1,
        execution_contract: "contract".into(),
        research: "research".into(),
        bundle_sha256: "bundle".into(),
        frozen: "frozen".into(),
        selection: "selection".into(),
        policy: "policy".into(),
        certification: "certification".into(),
        definition: "definition".into(),
        config_hash: "config".into(),
        code_revision: "revision".into(),
        broker: "broker".into(),
        account: "account".into(),
        hash: "h".into(),
    };
    assert_eq!(manifest.key(), "live/deployments/h.json");
    assert!(manifest.check("contract", "h").is_ok());
    assert!(manifest.check("other", "h").is_err());
    assert!(manifest.check("contract", "x").is_err());
    assert!(manifest.store_root("file:///s/live/deployments/h.json").is_ok());
    assert!(manifest.store_root("file:///s/live/deployments/x.json").is_err());
}

#[test]
fn paper_runs_never_reach_the_broker() {
    let measured = binary_alpha::live::deployment::Measurements::default();
    let (paper, _) = route(Mode::Paper, true, measured, Some(1), 2);
    assert_eq!(paper, Route::Paper);
    let (disabled, _) = route(Mode::Live, false, measured, Some(1), 2);
    assert_eq!(disabled, Route::Disabled);
    let (queue, now) = route(Mode::Live, true, measured, Some(1), 3);
    assert_eq!(queue, Route::Queue);
    assert_eq!(now.market_event_to_decision_micros, Some(2));
}

#[test]
fn expiries_are_taken_once_per_instrument() {
    let mut due: Table<(usize, i64)> = Table::new();
    due.insert("a".into(), (0, 10));
    due.insert("b".into(), (0, 20));
    due.insert("c".into(), (1, 10));
    assert_eq!(take_due(&mut due, 0, 15), ["a"]);
    assert_eq!(take_due(&mut due, 0, 15), Vec::<String>::new());
    assert_eq!(due.len(), 2);
}

#[test]
fn reconciliation_keeps_doubt() {
    assert_eq!(whole_second(1_500_000), 1);
    assert_eq!(whole_second(-1), -1);
    assert_eq!(symbol("deriv:R_50"), "R_50");
    let open = vec![OpenContract {
        contract_ref: "k".into(),
        transaction_ref: "t".into(),
        instrument: "R_50".into(),
        direction: Direction::Buy,
        buy_price: amount(10),
        purchase_time_micros: 1,
        start_micros: 1,
        payout: amount(18),
    }];
    let mut contracts: Table<String> = Table::new();
    assert!(uncorrelated_liability(&open, &contracts));
    contracts.insert("k".into(), "c".into());
    assert!(!uncorrelated_liability(&open, &contracts));
    let mut vetoes = Vetoes::none();
    assert!(balance(&mut vetoes, false, amount(5), Decimal { units: 50, scale: 1 }));
    assert!(!balance(&mut vetoes, false, amount(6), amount(5)));
    let (failure, _) = failed(&mut vetoes, &Intent::Write { command: "c".into() }, None, "gone");
    assert_eq!(failure, Failure::PossiblySent);
    assert!(!changes_receipt(&FinancialEvent {
        sequence: 1,
        time_micros: 1,
        kind: EventKind::PossiblySent { command: "c".into() },
    }));
    let mut at = None;
    assert!(!exhausted(true, &mut at, 7));
    assert!(exhausted(true, &mut at, 7));
}

#[test]
fn workers_hand_over_what_happened() {
    let mut market = MarketWorker::new();
    assert!(matches!(market.subscribed(Ok(()), false), Next::Continue));
    assert!(matches!(market.polled(Err("gone".into()), false), Next::Reconnect(r) if r == "gone"));
    assert!(matches!(market.polled(Err("gone".into()), true), Next::Stop));
    let mut account = AccountWorker::new();
    assert!(!account.polls());
    assert!(account.requested(&Intent::Balance).is_ok());
    assert!(account.polls());
    assert!(account.poll_failed(false));
    assert!(!account.polls());
    assert_eq!(
        account
            .requested(&Intent::Subscribe { instrument: "i".into(), scale: 1 })
            .unwrap_err(),
        "account worker received market intent"
    );
    let sum = digest(b"bytes");
    assert!(verify_upload("k".into(), sum.clone(), 5, Some(5), b"bytes").is_ok());
    assert_eq!(
        verify_upload("k".into(), sum.clone(), 5, None, b"bytes").unwrap_err(),
        "live: uploaded journal missing"
    );
    assert_eq!(
        verify_upload("k".into(), sum.clone(), 5, Some(5), b"other").unwrap_err(),
        "live: journal upload identity mismatch"
    );
    assert_eq!(final_key("d", b"bytes"), format!("live/d/final/{sum}.json"));
}

fn owner() -> Owner {
    Owner {
        vetoes: Vetoes::none(),
        warmth: Warmth { warm: vec![true, true] },
        uploads: Table::new(),
        upload_errors: Table::new(),
        segments: Table::new(),
        authorization_pending: true,
        failure: None,
    }
}

fn grant<'a>(authorization: &'a Authorization) -> Grant<'a> {
    Grant { expected: authorization.bindings(), content_hash: authorization.hash.as_str() }
}

#[test]
fn the_owner_takes_reports_in() {
    let bound = authorization();
    let mut state = owner();
    let step = state.ingress(Ingress::MarketFailed("gone".into()), Mode::Replay, grant(&bound));
    assert!(matches!(step, Step::RecordDiscontinuity(reason) if reason == "gone"));
    assert!(state.vetoes.contains("market continuity"));
    assert!(state.vetoes.contains("causal warmup is incomplete"));
    assert_eq!(state.warmth.warm, [false, false]);
    assert_eq!(state.failure.as_deref(), Some("gone"));
    let step = state.ingress(Ingress::AccountFailed("late".into()), Mode::Replay, grant(&bound));
    assert!(matches!(step, Step::RecordDiscontinuity(_)));
    assert!(state.vetoes.contains("account connection unavailable"));
    assert_eq!(state.failure.as_deref(), Some("gone"));
    state.uploads.insert("s".into(), ());
    let failed = Ingress::UploadFailed { name: "s".into(), reason: "full".into() };
    assert!(matches!(state.ingress(failed, Mode::Live, grant(&bound)), Step::Nothing));
    assert_eq!(state.upload_errors.get("s").map(String::as_str), Some("full"));
    assert!(!state.uploads.contains("s"));
    let uploaded = Ingress::Uploaded {
        name: "s".into(),
        segment: Segment { key: "k".into(), sha256: "x".into(), bytes: 1 },
    };
    let step = state.ingress(uploaded, Mode::Live, grant(&bound));
    assert!(matches!(step, Step::MarkUploaded(name) if name == "s"));
    assert!(state.upload_errors.is_empty() && state.segments.contains("k"));
    let step = state.ingress(Ingress::WorkerFailed("x".into()), Mode::Live, grant(&bound));
    assert!(matches!(step, Step::Fail(reason) if reason == "x"));
}

#[test]
fn only_the_exact_authorization_opens_entries() {
    let bound = authorization();
    let mut state = owner();
    let step = state.ingress(Ingress::Authorization(Ok(None)), Mode::Live, grant(&bound));
    assert!(matches!(step, Step::RowsReady));
    assert!(!state.authorization_pending);
    assert!(state.vetoes.contains("live authorization is absent"));
    let found = Ingress::Authorization(Ok(Some(authorization())));
    state.ingress(found, Mode::Live, grant(&bound));
    assert!(!state.vetoes.contains("live authorization is absent"));
    let mut other = authorization();
    other.account = "other".into();
    state.ingress(Ingress::Authorization(Ok(Some(other))), Mode::Live, grant(&bound));
    assert!(state.vetoes.contains("live authorization is absent"));
}

#[test]
fn one_recovery_runs_at_a_time() {
    let mut claims = Table::new();
    claims.insert("c".to_string(), claim(ClaimState::PossiblySent));
    let losses: Table<(String, i64)> = Table::new();
    let mut recovery = Recovery { pending: false, open: None };
    let mut vetoes = Vetoes::none();
    let range = recovery.request(&claims, "none", &losses, 7_500_000).unwrap();
    assert_eq!(range, (7, 7));
    assert!(recovery.request(&claims, "none", &losses, 7_500_000).is_none());
    recovery.contracts_read(&mut vetoes, vec![], &Table::new());
    assert!(recovery.statement_read().is_some());
    assert!(!recovery.pending && recovery.statement_read().is_none());
    assert!(needs_recovery(&claims, 0));
    assert!(needs_recovery(&Table::new(), 1));
    assert!(!needs_recovery(&Table::new(), 0));
    assert_eq!(claims_unavailable(&mut vetoes, "x"), "claim recovery unavailable: x");
    assert!(vetoes.contains("claim recovery unavailable"));
}

#[test]
fn renewals_and_uploads_follow_the_clock() {
    let mut holding = Holding::none(0);
    assert_eq!(
        periodic(&mut holding, 9, 10, false, false, 1),
        Due { checks: false, renews: false, uploads: false }
    );
    holding.token = 3;
    assert_eq!(
        periodic(&mut holding, 10, 10, false, false, 1),
        Due { checks: true, renews: true, uploads: true }
    );
    assert_eq!(
        periodic(&mut holding, 15, 10, false, false, 0),
        Due { checks: false, renews: false, uploads: true }
    );
}

#[test]
fn what_is_stored_first_stays() {
    assert_eq!(put_new(None, b"first", "u"), Ok(Stored::Created));
    assert_eq!(put_new(Some(b"first"), b"first", "u"), Ok(Stored::Reused));
    assert_eq!(put_new(Some(b"first"), b"other", "u").unwrap_err(), "u already holds different content");
    assert_eq!(put_new(Some(b"first"), b"firs", "u").unwrap_err(), "u already holds different content");
}
