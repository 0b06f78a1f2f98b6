//! Inspecting a broker: checks, waiting for observations, and what is printed.

use binary_alpha::inspect::{
    acknowledgement, check_balance, check_cancellation, check_declared, check_line, check_live,
    check_tables, check_transactions, closing_line, proposal_binding, proposals, received_since, report_path,
    AccountAnswer, AccountStep, Cancellation, Collection, InspectionDetail, InspectionReport,
    LiveEvent,
};
use binary_alpha::live::finance::Direction;
use binary_alpha::table::Table;

fn report() -> InspectionReport {
    InspectionReport {
        broker: "deriv".into(),
        kind: "deriv".into(),
        endpoint_host: "host".into(),
        started: "2026-01-02T00:00:00.000000Z".into(),
        checks: vec![],
    }
}

fn counts(list: &[(&str, u64)]) -> Table<u64> {
    let mut table = Table::new();
    for (name, count) in list {
        table.insert(name.to_string(), *count);
    }
    table
}

fn tick(instrument: &str, receipt_micros: i64) -> LiveEvent {
    LiveEvent::Observation { instrument: instrument.into(), receipt_micros, discontinuity: None }
}

#[test]
fn checks_say_what_was_found() {
    let mut report = report();
    report.check("discovery", None, Ok(InspectionDetail::Discovery { instruments: vec![] }));
    report.check(
        "history",
        Some("deriv:R_50".into()),
        Ok(InspectionDetail::History { rows: 0, first: None, last: None }),
    );
    report.check("contracts", Some("deriv:R_50".into()), Err("refused".into()));
    assert_eq!(
        report.checks.iter().map(|check| check_line("deriv", check)).collect::<Vec<_>>(),
        [
            "inspect deriv discovery all verified",
            "inspect deriv history deriv:R_50 observed: empty history page",
            "inspect deriv contracts deriv:R_50 unavailable: refused",
        ]
    );
    assert!(matches!(report.checks[2].detail, InspectionDetail::Unavailable));
    assert_eq!(
        report_path(&report),
        "inspections/2026-01-02T00:00:00.000000Z-deriv.json"
    );
    assert_eq!(closing_line("file:///x"), "inspection file:///x");
    assert!(check_tables(true, true).is_ok());
    assert!(check_declared(true).is_ok());
    assert_eq!(check_declared(false).unwrap_err(), "inspect: instrument is not declared");
    assert_eq!(
        check_tables(false, true).unwrap_err(),
        "inspect: the configuration declares no history table"
    );
    assert_eq!(
        check_tables(true, false).unwrap_err(),
        "inspect: the configuration declares no inspect table"
    );
}

#[test]
fn waiting_ends_with_the_target_or_the_deadline() {
    let instruments = vec!["a".to_string(), "b".to_string()];
    let mut wait = Collection::new(&instruments, 100, 50, Some(1), None);
    assert_eq!(wait.remaining(110), Some(40));
    assert_eq!(wait.remaining(150), None);
    wait.take(&tick("a", 111)).unwrap();
    assert_eq!(wait.remaining(112), Some(38));
    wait.take(&tick("b", 113)).unwrap();
    assert_eq!(wait.remaining(114), None);
    assert_eq!(
        wait.take(&tick("c", 114)).unwrap_err(),
        "inspect: unexpected live instrument"
    );
    assert_eq!(
        wait.take(&LiveEvent::Break { reason: "gone".into() }).unwrap_err(),
        "continuity break: gone"
    );
    let mut late = Collection::new(&instruments, 100, 50, None, Some(120));
    late.take(&tick("a", 119)).unwrap();
    late.take(&tick("a", 120)).unwrap();
    assert_eq!(late.counts.get("a"), Some(&1));
    assert_eq!(Collection::new(&vec![], 100, 50, None, None).remaining(100), None);
}

#[test]
fn live_and_cancellation_checks_are_observations() {
    let mut report = report();
    check_live(&mut report, Ok(counts(&[("a", 2), ("b", 1)])), 2, 2);
    check_live(&mut report, Ok(counts(&[("a", 2)])), 2, 2);
    check_live(&mut report, Ok(counts(&[("a", 2)])), 1, 2);
    check_live(&mut report, Err("gone".into()), 1, 2);
    check_cancellation(&mut report, "a", Cancellation::Acknowledged, Ok(counts(&[("a", 0)])));
    check_cancellation(
        &mut report,
        "a",
        Cancellation::SentWithoutAcknowledgement,
        Err("gone".into()),
    );
    assert_eq!(
        report.checks.iter().map(|check| check.result.as_str()).collect::<Vec<_>>(),
        [
            "observed: live deadline reached before row target",
            "observed: live deadline reached before row target",
            "verified",
            "unavailable: gone",
            "observed: acknowledged",
            "unavailable: gone",
        ]
    );
    let mut observed = counts(&[("x:a", 9)]);
    received_since(
        &mut observed,
        &vec![("x:a".into(), "a".into()), ("x:b".into(), "b".into())],
        &counts(&[("a", 3)]),
        &counts(&[("a", 5), ("b", 1)]),
    );
    assert_eq!((observed.get("x:a"), observed.get("x:b")), (Some(&2), Some(&1)));
}

#[test]
fn accounts_are_inspected_step_by_step() {
    let mut report = report();
    let balance = || {
        Ok(InspectionDetail::Balance {
            amount: "10".into(),
            currency: "USD".into(),
            account_class: "demo".into(),
        })
    };
    assert_eq!(check_balance(&mut report, balance()), AccountStep::Subscribe);
    assert_eq!(check_balance(&mut report, Err("denied".into())), AccountStep::Stop);
    let answer = acknowledgement(Ok(AccountAnswer::Acknowledged));
    assert_eq!(check_transactions(&mut report, answer, true), AccountStep::Propose);
    let answer = acknowledgement(Ok(AccountAnswer::Acknowledged));
    assert_eq!(check_transactions(&mut report, answer, false), AccountStep::Stop);
    let answer = acknowledgement(Ok(AccountAnswer::Nothing));
    assert_eq!(check_transactions(&mut report, answer, true), AccountStep::Stop);
    assert_eq!(
        report.checks[4].result,
        "unavailable: deriv transaction: subscription acknowledgement missing"
    );
    assert_eq!(
        proposals(2),
        vec![
            (0, Direction::Buy),
            (0, Direction::Sell),
            (1, Direction::Buy),
            (1, Direction::Sell)
        ]
    );
    assert_eq!(proposal_binding("deriv:R_50", "buy"), "inspection:deriv:R_50:buy");
}
