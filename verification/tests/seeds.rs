//! Seeds of a lineage, and the coverage that an acquisition publishes.

use binary_alpha::dataset::{
    Capability, GenerationManifest, Layout, ObjectIdentity, PriceRepresentation, SourceKind, TimeUnit,
};
use binary_alpha::fetch::coverage::{
    HistoryCoverage, ObjectIdentitySummary, PageCoverage, Range, SeedLineage, Shortfall,
    BUNDLE_PATH, EMPTY_SHORTFALL,
};
use binary_alpha::fetch::plan::{
    check_seed_data, check_seed_source, continuation_coverage, continues_with_coverage, DataTexts,
    Wanted,
};
use binary_alpha::fetch::publish::{
    carried_pages, empty_coverage, seed_record, settled_coverage, CoverageSubject,
};
use binary_alpha::fetch::settle::Settled;
use binary_alpha::market::{DatasetRole, NativeGranularity, Tick};

fn manifest() -> GenerationManifest {
    GenerationManifest {
        generation: "g".into(),
        broker: "b".into(),
        provider_symbol: "s".into(),
        instrument: "i".into(),
        role: DatasetRole::Development,
        source_kind: SourceKind::BrokerHistory,
        native_granularity: NativeGranularity::Tick,
        time_unit: TimeUnit::Microsecond,
        price_representation: PriceRepresentation::IntegerUnits { scale: 5 },
        layout: Some(Layout::DailyV2),
        row_count: 3,
        first_event_time: 0,
        last_event_time: 1,
        capabilities: vec![Capability::Ticks],
        config_hash: "c".into(),
        code_revision: "r".into(),
        inputs: vec![],
        interval: None,
        objects: vec![],
    }
}

fn wanted() -> Wanted {
    Wanted {
        instrument: "i".into(),
        broker: "b".into(),
        provider_symbol: "s".into(),
        role: DatasetRole::Development,
        native_granularity: NativeGranularity::Tick,
        price_representation: PriceRepresentation::IntegerUnits { scale: 5 },
        source_identity: "source".into(),
        seed_generation: Some("g".into()),
    }
}

fn page(path: &str) -> PageCoverage {
    PageCoverage {
        occurrence: None,
        path: path.into(),
        sha256: "x".into(),
        bytes: 1,
        offset: Some(0),
        anchor: None,
        rows: 1,
        first: None,
        last: None,
        receipt_time: None,
    }
}

fn coverage(bundle: bool) -> HistoryCoverage {
    HistoryCoverage {
        schema_version: 1,
        source_identity: "source".into(),
        broker: "b".into(),
        provider_symbol: "s".into(),
        role: DatasetRole::Development,
        requested: Range { start: 0, end: 10 },
        verified: None,
        actual: None,
        rows: 3,
        pages: vec![page(BUNDLE_PATH), page("raw/old/pages.bin")],
        bundle: bundle.then(|| ObjectIdentitySummary { sha256: "x".into(), bytes: 1 }),
        shortfall: None,
        tail_shortfall: None,
        native_granularity: NativeGranularity::Tick,
        seed: None,
    }
}

fn texts(role: &str) -> DataTexts {
    DataTexts { role: role.into(), granularity: "tick".into() }
}

#[test]
fn a_seed_must_be_the_configured_data() {
    let seed = SeedLineage { generation: "g".into(), source_identity: "source".into() };
    assert_eq!(check_seed_source("i", &seed, "source"), Ok(()));
    assert_eq!(
        check_seed_source("i", &seed, "other").unwrap_err(),
        "fetch i: seed g was collected under source identity source, not the configured broker's other"
    );
    assert_eq!(
        check_seed_data(&manifest(), &texts("development"), &wanted(), &texts("development")),
        Ok(())
    );
    let mut holdout = wanted();
    holdout.role = DatasetRole::Holdout;
    assert_eq!(
        check_seed_data(&manifest(), &texts("development"), &holdout, &texts("holdout"))
            .unwrap_err(),
        "fetch i: seed g is i development tick data, not i holdout tick data at the configured price scale"
    );
}

#[test]
fn a_daily_seed_continues_with_its_coverage() {
    assert!(continues_with_coverage(&manifest()));
    let mut imported = manifest();
    imported.source_kind = SourceKind::TickCsv;
    assert!(!continues_with_coverage(&imported));
    let continued =
        continuation_coverage(coverage(false), &manifest(), &wanted(), "source".into()).unwrap();
    let seed = continued.seed.unwrap();
    assert_eq!((seed.generation.as_str(), seed.source_identity.as_str()), ("g", "source"));
    let mut short = coverage(false);
    short.rows = 2;
    assert_eq!(
        continuation_coverage(short, &manifest(), &wanted(), "source".into()).unwrap_err(),
        "fetch: continuation root coverage identity mismatch"
    );
}

#[test]
fn carried_pages_keep_their_bundles_apart() {
    let paths = |pages: Vec<PageCoverage>| -> Vec<String> {
        pages.into_iter().map(|page| page.path).collect()
    };
    assert_eq!(
        paths(carried_pages(&coverage(true), "g")),
        ["raw/g/pages.bin", "raw/old/pages.bin"]
    );
    assert_eq!(
        paths(carried_pages(&coverage(false), "g")),
        [BUNDLE_PATH, "raw/old/pages.bin"]
    );
    let identity = ObjectIdentity { bytes: 4, sha256: "y".into(), crc32c: 7 };
    let record = seed_record("a.csv", "k".into(), &identity);
    assert_eq!(record.path, "seed/a.csv");
    assert_eq!((record.bytes, record.sha256.as_str()), (4, "y"));
}

fn subject() -> CoverageSubject {
    CoverageSubject {
        source_identity: "source".into(),
        broker: "b".into(),
        provider_symbol: "s".into(),
        role: DatasetRole::Development,
        native_granularity: NativeGranularity::Tick,
        requested: Range { start: 0, end: 10 },
        seed: None,
    }
}

#[test]
fn coverage_records_what_was_settled() {
    let shortfall =
        || Shortfall { reason: EMPTY_SHORTFALL.into(), unresolved: Range { start: 0, end: 10 } };
    let empty = empty_coverage(subject(), shortfall());
    assert_eq!((empty.rows, empty.verified), (0, None));
    assert_eq!(empty.shortfall.unwrap().reason, EMPTY_SHORTFALL);
    let settled = Settled {
        rows: vec![Tick { event_time_micros: 4, price_units: 1 }],
        verified: Some(Range { start: 2, end: 10 }),
        actual: None,
        shortfall: None,
        tail_shortfall: Some(shortfall()),
        extends_prior: false,
        pending: false,
        pages: vec![page("new")],
        symbol_id: None,
    };
    let (recorded, rows) = settled_coverage(subject(), settled, vec![page("old")], None);
    assert_eq!((recorded.rows, rows.len()), (1, 1));
    assert_eq!(recorded.verified, Some(Range { start: 2, end: 10 }));
    let paths: Vec<&str> = recorded.pages.iter().map(|page| page.path.as_str()).collect();
    assert_eq!(paths, ["old", "new"]);
    assert!(recorded.tail_shortfall.is_some());
}
