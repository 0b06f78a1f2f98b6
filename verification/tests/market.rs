//! What the owner makes of the market: breaks, ticks, and rows.

use binary_alpha::live::deployment::Mode;
use binary_alpha::live::entries::Vetoes;
use binary_alpha::live::finance::{Decimal, Direction};
use binary_alpha::live::journal::RecordKind;
use binary_alpha::live::market::{
    market_break, market_rows, market_tick, proposal_request, BoundInstrument, Deciding, Feed,
    MarketAction, ProposalTerms,
};
use binary_alpha::live::receipt::{Binding, RiskPolicy};
use binary_alpha::live::rows::{
    ColumnSpec, FeatureValue, ProducedRow, StreamColumns, StreamKey, StreamPlan, Strategy, Warmth,
};
use binary_alpha::live::workers::MarketTick;
use binary_alpha::table::Table;

fn feed() -> Feed {
    Feed {
        warmth: Warmth { warm: vec![true, false] },
        connection_generation: 1,
        receipt_sequence: 1,
        last_provider_time: None,
        due: Table::new(),
        pending: vec![],
        asked: Table::new(),
    }
}

fn instruments() -> Vec<BoundInstrument> {
    vec![
        BoundInstrument { instrument: "deriv:R_50".into(), scale: 4 },
        BoundInstrument { instrument: "deriv:R_75".into(), scale: 2 },
    ]
}

fn tick(instrument: &str) -> MarketTick {
    MarketTick {
        instrument: instrument.into(),
        generation: 3,
        sequence: 7,
        provider_time_micros: 100,
        receipt_micros: 110,
        price_units: 42,
    }
}

#[test]
fn a_break_is_recorded_and_every_instrument_subscribed_again() {
    let mut feed = feed();
    let mut vetoes = Vetoes::none();
    let actions = market_break(&mut feed, &mut vetoes, 9, "gap".into(), &instruments(), false);
    assert_eq!(feed.warmth.warm, [false, false]);
    assert_eq!(actions.len(), 4);
    assert!(matches!(actions[0], MarketAction::Reconnect(9)));
    assert!(matches!(
        &actions[1],
        MarketAction::Record(RecordKind::Discontinuity { reason }) if reason == "gap"
    ));
    assert!(matches!(
        &actions[2],
        MarketAction::Subscribe { instrument, scale: 4 } if instrument == "deriv:R_50"
    ));
    assert!(matches!(
        &actions[3],
        MarketAction::Subscribe { instrument, scale: 2 } if instrument == "deriv:R_75"
    ));
    let draining = market_break(&mut feed, &mut vetoes, 9, "gap".into(), &instruments(), true);
    assert_eq!(draining.len(), 2);
}

#[test]
fn a_tick_that_breaks_the_stream_is_not_taken() {
    let mut feed = feed();
    let mut vetoes = Vetoes::none();
    let mut failure = None;
    let refused = Err("out of order".to_string());
    let found = market_tick(
        &mut feed,
        &mut vetoes,
        &mut failure,
        Mode::Replay,
        &tick("deriv:R_75"),
        refused,
        &instruments(),
    );
    assert_eq!(found, Ok(None));
    assert_eq!(failure.as_deref(), Some("out of order"));
    assert_eq!(feed.receipt_sequence, 1);
    let mut take = |name: &str| {
        market_tick(
            &mut feed,
            &mut vetoes,
            &mut failure,
            Mode::Replay,
            &tick(name),
            Ok(()),
            &instruments(),
        )
    };
    assert_eq!(take("deriv:R_75"), Ok(Some(1)));
    assert_eq!(take("deriv:R_10").unwrap_err(), "live: unbound market instrument");
    assert_eq!((feed.connection_generation, feed.receipt_sequence), (3, 7));
    assert_eq!(feed.last_provider_time, Some(100));
}

fn bindings() -> Vec<Binding> {
    vec![Binding {
        id: "call".into(),
        instrument: "deriv:R_50".into(),
        strategy: "strategy".into(),
        contract: "contract".into(),
        risk_policy: "risk".into(),
    }]
}

fn terms(duration_micros: i64) -> Vec<ProposalTerms> {
    vec![ProposalTerms {
        id: "contract".into(),
        direction: Direction::Buy,
        duration_micros,
        stake: Decimal { units: 10, scale: 0 },
        currency: "USD".into(),
        semantics: "semantics".into(),
        settlement: "settlement".into(),
    }]
}

#[test]
fn a_proposal_is_requested_with_its_terms() {
    let bound = &instruments()[0];
    let request = proposal_request(&bindings()[0], bound, &terms(15_000_000)).unwrap();
    assert_eq!((request.binding.as_str(), request.instrument.as_str()), ("call", "deriv:R_50"));
    assert_eq!((request.scale, request.duration_seconds), (4, 15));
    assert_eq!(request.stake.units, 10);
    assert_eq!((request.currency.as_str(), request.semantics.as_str()), ("USD", "semantics"));
    assert!(matches!(
        proposal_request(&bindings()[0], bound, &terms(-1_000_000)),
        Err(reason) if reason == "live: duration does not fit seconds"
    ));
}

fn key() -> StreamKey {
    StreamKey { duration_seconds: 20, offset_seconds: 0 }
}

fn produced() -> Vec<ProducedRow> {
    vec![ProducedRow {
        plan: 0,
        close_time_micros: 10,
        known_at_micros: 11,
        values: vec![Some(FeatureValue::Bool(true))],
    }]
}

#[test]
fn rows_are_decided_on_once_their_proposals_are_there() {
    let plan = vec![StreamPlan { stream: key(), outputs: vec!["out".into()] }];
    let columns = vec![StreamColumns {
        stream: key(),
        columns: vec![ColumnSpec {
            name: "column".into(),
            source: "out".into(),
            readiness: vec![],
            unready: vec![],
        }],
    }];
    let strategies = vec![Strategy { id: "strategy".into(), base_stream: key() }];
    let bindings = bindings();
    let risks = vec![RiskPolicy {
        id: "risk".into(),
        max_quote_age_micros: 5_000_000,
        max_feature_age_micros: 5_000_000,
        max_proposal_age_micros: Some(5_000_000),
    }];
    let terms = terms(15_000_000);
    let instruments = instruments();
    let names = vec!["deriv:R_50".to_string(), "deriv:R_75".to_string()];
    let by = Deciding {
        plan: &plan,
        columns: &columns,
        strategies: &strategies,
        bindings: &bindings,
        risks: &risks,
        terms: &terms,
        instruments: &instruments,
        names: &names,
        draining: false,
        now: 120,
    };
    let mut feed = feed();
    feed.due.insert("ended".to_string(), (0, 100));
    feed.due.insert("running".to_string(), (0, 101));
    feed.due.insert("elsewhere".to_string(), (1, 50));
    let mut vetoes = Vetoes::none();
    let mut failure = None;
    let mut rows = |feed: &mut Feed, produced| {
        let tick = tick("deriv:R_50");
        market_rows(feed, &mut vetoes, &mut failure, Mode::Replay, &tick, 0, produced, &by).unwrap()
    };
    let actions = rows(&mut feed, Ok(produced()));
    assert_eq!(actions.len(), 5);
    assert!(matches!(
        &actions[0],
        MarketAction::Record(RecordKind::DueTick { command, provider_time_micros: 100, price_units: 42 })
            if command == "ended"
    ));
    assert!(matches!(
        actions[1],
        MarketAction::Tick { instrument: 0, provider_time_micros: 100, price_units: 42 }
    ));
    assert!(matches!(&actions[2], MarketAction::Ask(request) if request.binding == "call"));
    assert!(matches!(actions[3], MarketAction::RowsReady));
    assert!(matches!(actions[4], MarketAction::Compatibility));
    assert!(feed.due.contains("running") && feed.due.contains("elsewhere"));
    assert!(!feed.due.contains("ended"));
    assert!(feed.asked.contains("call"));
    assert_eq!(feed.pending.len(), 1);
    let again = rows(&mut feed, Ok(produced()));
    assert_eq!(again.len(), 2);
    assert!(matches!(again[1], MarketAction::RowsReady));
    assert_eq!(feed.pending.len(), 2);
    assert!(rows(&mut feed, Err("torn".into())).is_empty());
    assert_eq!(failure.as_deref(), Some("torn"));
}
