//! Bounded acquisition: pages, overlaps, coverage, bundles, and baselines.

use binary_alpha::dataset::{
    Capability, GenerationManifest, IntervalContract, ObjectRecord, ObjectRole,
    PriceRepresentation, RowSummary, SourceKind, Subject, TimeUnit,
};
use binary_alpha::digest::digest;
use binary_alpha::fetch::acquire::{opening, Acquisition, Action, Baseline, Opening, Page, Step};
use binary_alpha::fetch::bounds::{
    candidates, check_declared, check_granularity, check_history, check_key, Bounds, Native, Population,
};
use binary_alpha::fetch::coverage::{
    carried_bundle_path, page_path, page_receipt, HistoryCoverage, OccurrenceIdentity,
    PageCoverage, PassLimit, Progress, ProgressEvent, Range, Requested, Shortfall,
    BUDGET_SHORTFALL, BUNDLE_PATH, EMPTY_SHORTFALL, STALLED_SHORTFALL,
};
use binary_alpha::fetch::page::{check_verified_overlap, prepend_page};
use binary_alpha::fetch::plan::{
    choose_baseline, plan_range, prior, range_message, BaselineChoice, RangeRefusal, RangeTexts,
    Retained, Wanted,
};
use binary_alpha::fetch::progress::{decoded_page, response_page};
use binary_alpha::fetch::publish::{
    acquired_manifest, bundle_pages, carried_objects, descendant_manifest, describe_native, inputs_of, next_pass, pass_range,
    published_line, unchanged_line, undecoded, Repeat,
};
use binary_alpha::fetch::rows::{
    bar_symbol, bars_of, daily_bar, retained_bar, retained_tick, ticks_of, HistoryRows, MarketRow,
};
use binary_alpha::fetch::settle::{join_verified, settle, Settlement};
use binary_alpha::market::{frontier, Bar, DatasetRole, NativeGranularity, Tick};

fn tick(time: i64, price: i64) -> Tick {
    Tick { event_time_micros: time, price_units: price }
}

fn times(rows: &[Tick]) -> Vec<(i64, i64)> {
    rows.iter().map(|row| (row.event_time_micros, row.price_units)).collect()
}

fn coverage(raw: &[u8]) -> PageCoverage {
    let sha256 = digest(raw);
    PageCoverage {
        occurrence: None,
        path: format!("raw/{sha256}.json"),
        sha256,
        bytes: raw.len() as u64,
        offset: None,
        anchor: None,
        rows: 1,
        first: None,
        last: None,
        receipt_time: None,
    }
}

fn page(rows: Vec<Tick>) -> Page<Tick> {
    Page { rows, symbol_id: None, coverage: coverage(b"page") }
}

fn range(start: i64, end: i64) -> Range {
    Range { start, end }
}

#[test]
fn pages_join_at_their_largest_overlap() {
    assert_eq!(prepend_page(vec![1, 2, 2], vec![2, 2, 3]), vec![1, 2, 2, 3]);
    assert_eq!(prepend_page(vec![1, 2], vec![3, 4]), vec![1, 2, 3, 4]);
    assert_eq!(prepend_page(vec![5, 5], vec![5, 5]), vec![5, 5]);
    assert_eq!(prepend_page(vec![], vec![3]), vec![3]);
    assert_eq!(prepend_page(vec![3], vec![]), vec![3]);
}

#[test]
fn rereads_must_agree_from_the_floor() {
    let retained = vec![tick(1, 10), tick(2, 20), tick(3, 30)];
    let reread = vec![tick(1, 99), tick(2, 20), tick(3, 30), tick(4, 40)];
    assert!(check_verified_overlap("i", &retained, &reread, 2).is_ok());
    assert_eq!(
        check_verified_overlap("i", &retained, &reread, 1).unwrap_err(),
        "fetch i: conflicting or inconsistent reread of verified observations"
    );
    assert!(check_verified_overlap("i", &vec![], &reread, 0).is_ok());
}

#[test]
fn bundle_tiles_three_distinct_pages_and_detects_corruption() {
    let raws = vec![b"one".to_vec(), b"second".to_vec(), b"third page".to_vec()];
    let pages = raws.iter().map(|raw| coverage(raw)).collect::<Vec<_>>();
    let bundle = bundle_pages(pages, &raws).unwrap().unwrap();
    let (pages, bytes) = (bundle.pages, bundle.bytes);
    assert_eq!(bytes, raws.concat());
    assert_eq!(bundle.object.path, BUNDLE_PATH);
    assert_eq!(bundle.object.role, ObjectRole::Source);
    assert_eq!(bundle.object.bytes, 19);
    assert_eq!(bundle.object.sha256, digest(b"onesecondthird page"));
    assert_eq!(bundle.object.key, format!("objects/{}", digest(b"onesecondthird page")));
    assert!(pages.iter().all(|page| page.path == BUNDLE_PATH));
    assert_eq!(
        pages.iter().map(|page| page.offset).collect::<Vec<_>>(),
        [Some(0), Some(3), Some(9)]
    );
    for (page, raw) in pages.iter().zip(&raws) {
        let start = page.offset.unwrap() as usize;
        assert_eq!(&bytes[start..start + page.bytes as usize], raw.as_slice());
        assert_eq!(page.sha256, digest(raw));
    }
    let mut corrupt = raws.clone();
    corrupt[1][1] ^= 1;
    let fresh = raws.iter().map(|raw| coverage(raw)).collect::<Vec<_>>();
    assert_eq!(
        bundle_pages(fresh, &corrupt).unwrap_err(),
        format!(
            "retained page {} does not carry its recorded bytes and digest",
            digest(b"second")
        )
    );
}

#[test]
fn empty_acquisition_retains_no_bundle() {
    assert!(bundle_pages(vec![], &vec![]).unwrap().is_none());
}

#[test]
fn an_acquisition_pages_back_to_its_start() {
    let mut state: Acquisition<Tick> =
        Acquisition::new("i".into(), range(10, 40), 10, 10, vec![], None);
    assert!(matches!(
        state.next(false, Some(9), None, 0),
        Action::Request { anchor: 40, ordinal: 0 }
    ));
    let newest = vec![tick(25, 1), tick(30, 2)];
    let state = state.check_page(&page(newest.clone())).unwrap();
    let (mut state, step) = state.take_page(page(newest)).unwrap();
    assert!(matches!(step, Step::Continue));
    assert!(matches!(
        state.next(false, Some(9), None, 0),
        Action::Request { anchor: 25, ordinal: 1 }
    ));
    let older = vec![tick(5, 0), tick(12, 3), tick(25, 1)];
    let state = state.check_page(&page(older.clone())).unwrap();
    let (state, step) = state.take_page(page(older)).unwrap();
    assert!(matches!(step, Step::Finished(None)));
    assert_eq!(times(&state.rows), [(12, 3), (25, 1), (30, 2)]);
    let Settlement::Acquired(settled) = settle(state, None, None).unwrap() else {
        panic!("rows were acquired");
    };
    assert_eq!(settled.verified.map(|range| range.start), Some(10));
    assert_eq!(settled.actual.map(|actual| (actual.first, actual.last)), Some((12, 30)));
    assert_eq!(settled.pages.len(), 2);
    assert!(!settled.pending);
}

#[test]
fn an_acquisition_stops_on_budget_emptiness_or_no_progress() {
    let fresh = || -> Acquisition<Tick> {
        Acquisition::new("i".into(), range(10, 40), 10, 10, vec![], None)
    };
    let mut state = fresh();
    let Action::Stop(shortfall) = state.next(false, Some(0), None, 0) else {
        panic!("no page is allowed");
    };
    assert_eq!(shortfall.reason, BUDGET_SHORTFALL);
    assert!(matches!(
        settle(state, Some(shortfall), None).unwrap(),
        Settlement::Nothing(_)
    ));
    assert!(matches!(fresh().next(false, None, Some(5), 5), Action::Stop(_)));
    assert!(matches!(fresh().next(true, Some(0), None, 0), Action::Replay));
    let (_, step) = fresh().take_page(page(vec![])).unwrap();
    assert!(matches!(step, Step::Finished(Some(s)) if s.reason == EMPTY_SHORTFALL));
    let rows = vec![tick(25, 1), tick(30, 2)];
    let state = fresh().check_page(&page(rows.clone())).unwrap();
    let (state, _) = state.take_page(page(rows.clone())).unwrap();
    let state = state.check_page(&page(rows.clone())).unwrap();
    let (_, step) = state.take_page(page(rows)).unwrap();
    assert!(matches!(step, Step::Finished(Some(s)) if s.reason == STALLED_SHORTFALL));
}

#[test]
fn verified_ranges_join_only_where_they_touch() {
    assert_eq!(join_verified(Some(range(0, 5)), Some(range(5, 9))), Some(range(0, 9)));
    assert_eq!(join_verified(Some(range(0, 5)), Some(range(6, 9))), Some(range(0, 5)));
    assert_eq!(join_verified(None, Some(range(6, 9))), Some(range(6, 9)));
    assert_eq!(join_verified(Some(range(0, 5)), None), Some(range(0, 5)));
}

fn baseline(seeded: bool) -> Baseline {
    Baseline {
        generation: "g".into(),
        first_time: 10,
        last_time: 20,
        covered: true,
        verified: Some(range(10, 20)),
        daily: false,
        seed: if seeded {
            Some(binary_alpha::fetch::coverage::SeedLineage {
                generation: "seed".into(),
                source_identity: "source".into(),
            })
        } else {
            None
        },
    }
}

#[test]
fn ranges_extend_the_retained_lineage() {
    let prior = baseline(true);
    assert_eq!(
        plan_range(
            None,
            Requested::Advance { cutoff: 50 },
            10,
            NativeGranularity::Tick,
            None,
            Some(&prior)
        ),
        Ok(range(20, 50))
    );
    assert!(matches!(
        plan_range(
            None,
            Requested::Explicit { start: 15, end: 50 },
            15,
            NativeGranularity::Tick,
            None,
            Some(&prior)
        ),
        Err(RangeRefusal::Narrows { .. })
    ));
    assert!(matches!(
        plan_range(
            None,
            Requested::Explicit { start: 50, end: 50 },
            10,
            NativeGranularity::Tick,
            None,
            None
        ),
        Err(RangeRefusal::Empty)
    ));
    assert_eq!(
        opening(NativeGranularity::Tick, range(10, 50), None, Some(&prior)),
        Opening::Fetch { start: 20, floor: 10 }
    );
    assert_eq!(
        opening(NativeGranularity::Tick, range(10, 20), None, Some(&prior)),
        Opening::Exhausted
    );
    assert_eq!(frontier(NativeGranularity::Tick, 20), 20);
    assert_eq!(frontier(NativeGranularity::Bar { period_seconds: 5 }, 20), 5_000_020);
}

fn wanted() -> Wanted {
    Wanted {
        instrument: "i".into(),
        broker: "b".into(),
        provider_symbol: "s".into(),
        role: DatasetRole::Development,
        native_granularity: NativeGranularity::Tick,
        price_representation: PriceRepresentation::IntegerUnits { scale: 5 },
        source_identity: "source".into(),
        seed_generation: None,
    }
}

fn retained(instrument: &str, verified: Option<Range>, shortfall: Option<&str>) -> Retained {
    Retained {
        manifest: GenerationManifest {
            generation: "g".into(),
            broker: "b".into(),
            provider_symbol: "s".into(),
            instrument: instrument.into(),
            role: DatasetRole::Development,
            source_kind: SourceKind::BrokerHistory,
            native_granularity: NativeGranularity::Tick,
            time_unit: TimeUnit::Microsecond,
            price_representation: PriceRepresentation::IntegerUnits { scale: 5 },
            layout: None,
            row_count: 3,
            first_event_time: 0,
            last_event_time: 1,
            capabilities: vec![Capability::Ticks],
            config_hash: "c".into(),
            code_revision: "r".into(),
            inputs: vec![],
            interval: None,
            objects: vec![],
        },
        coverage: HistoryCoverage {
            schema_version: 1,
            source_identity: "source".into(),
            broker: "b".into(),
            provider_symbol: "s".into(),
            role: DatasetRole::Development,
            requested: range(0, 10),
            verified,
            actual: None,
            rows: 3,
            pages: vec![],
            bundle: None,
            shortfall: shortfall
                .map(|reason| Shortfall { reason: reason.into(), unresolved: range(0, 1) }),
            tail_shortfall: None,
            native_granularity: NativeGranularity::Tick,
            seed: None,
        },
        page_rows: 0,
    }
}

#[test]
fn the_widest_closed_candidate_wins() {
    let wanted = wanted();
    assert_eq!(prior(&vec![], &wanted), Ok(None));
    let other = retained("other", Some(range(0, 99)), None);
    assert_eq!(prior(&vec![other], &wanted), Ok(None));
    let candidates = vec![
        retained("i", Some(range(5, 10)), None),
        retained("i", Some(range(0, 10)), Some(BUDGET_SHORTFALL)),
        retained("i", Some(range(0, 10)), None),
        retained("i", Some(range(0, 9)), None),
    ];
    assert_eq!(prior(&candidates, &wanted), Ok(Some(2)));
    let mut scaled = retained("i", None, None);
    scaled.manifest.price_representation = PriceRepresentation::BinaryFloat;
    assert_eq!(
        prior(&vec![scaled], &wanted).unwrap_err(),
        "fetch: prior history price scale differs from configuration"
    );
    let mut short = retained("i", None, None);
    short.coverage.rows = 1;
    assert_eq!(
        prior(&vec![short], &wanted).unwrap_err(),
        "fetch: prior coverage identity mismatch"
    );
    assert_eq!(choose_baseline("i", true, &None, &None), Ok(BaselineChoice::Prior));
    assert_eq!(
        choose_baseline("i", false, &Some("s".into()), &None),
        Ok(BaselineChoice::Seed)
    );
    assert_eq!(choose_baseline("i", false, &None, &None), Ok(BaselineChoice::Nothing));
    assert_eq!(
        choose_baseline("i", false, &None, &Some("p".into())).unwrap_err(),
        "fetch i: the pending intent's baseline p is no longer readable"
    );
}

#[test]
fn a_declaration_limits_the_candidates() {
    let populations = || {
        Some(vec![
            Population {
                role: DatasetRole::Development,
                instrument: "i".into(),
                generations: vec!["a".into(), "b".into()],
            },
            Population {
                role: DatasetRole::Evaluation,
                instrument: "i".into(),
                generations: vec!["c".into()],
            },
        ])
    };
    let mirrored = vec!["m".to_string()];
    let role = DatasetRole::Development;
    assert_eq!(candidates(&None, &populations(), &mirrored, role, "i"), ["a", "b"]);
    assert_eq!(candidates(&None, &None, &mirrored, role, "i"), ["m"]);
    assert_eq!(candidates(&Some("p".into()), &populations(), &mirrored, role, "i"), ["p"]);
}

#[test]
fn acquired_rows_are_described_by_their_granularity() {
    let interval = || IntervalContract {
        closed: "left".into(),
        frequency: "5s".into(),
        interval: "5s".into(),
        label: "left".into(),
        offset_seconds: 0,
        origin: "epoch".into(),
        timestamp_semantics: "start".into(),
        provenance: "parquet_metadata".into(),
    };
    let ticks = Native::new(NativeGranularity::Tick, 6, None);
    let described = describe_native(&ticks, interval(), "ticks", "bars");
    assert_eq!(described.described.source_kind, SourceKind::BrokerHistory);
    assert_eq!((described.described.scale, described.path.as_str()), (Some(6), "ticks"));
    assert_eq!(described.described.price_representation, PriceRepresentation::IntegerUnits { scale: 6 });
    assert_eq!(described.described.time_unit, TimeUnit::Microsecond);
    assert_eq!(described.described.capability, Capability::Ticks);
    assert!(described.described.interval.is_none());
    let bars = Native::new(NativeGranularity::Bar { period_seconds: 5 }, 6, None);
    let described = describe_native(&bars, interval(), "ticks", "bars");
    assert_eq!((described.described.scale, described.path.as_str()), (None, "bars"));
    assert_eq!(described.described.price_representation, PriceRepresentation::BinaryFloat);
    assert_eq!(described.described.time_unit, TimeUnit::Second);
    assert_eq!(described.described.capability, Capability::Bars);
    assert_eq!(described.described.interval.unwrap().provenance, "parquet_metadata");
    let object = |role, path: &str| ObjectRecord {
        role,
        path: path.into(),
        key: "k".into(),
        bytes: 1,
        sha256: "x".into(),
        crc32c: None,
        generation: None,
    };
    let inputs = inputs_of(&vec![
        object(ObjectRole::Provenance, "p"),
        object(ObjectRole::Source, "s"),
        object(ObjectRole::Normalized, "n"),
        object(ObjectRole::Source, "t"),
    ]);
    let paths: Vec<_> = inputs.iter().map(|input| input.path.as_str()).collect();
    assert_eq!(paths, ["s", "t"]);
    assert_eq!((inputs[0].bytes, inputs[0].sha256.as_str()), (1, "x"));
    assert_eq!(undecoded("b:s", "abc", "torn"), "fetch b:s: retained page abc: torn");
}

#[test]
fn progress_is_told_where_it_is_kept() {
    let progress = Progress { baseline: None, start: 1, cutoff: 2, pages: vec![] };
    let page = response_page(
        &Some(OccurrenceIdentity { acquisition_id: "a".into(), intent: None, ordinal: 0 }),
        3,
        b"[]",
        &Some("t".into()),
        9,
    );
    assert_eq!(page.occurrence.as_ref().map(|o| o.ordinal), Some(3));
    assert_eq!((page.sha256.clone(), page.bytes), (digest(b"[]"), 2));
    assert_eq!(page.path, format!("raw/{}.json", digest(b"[]")));
    assert_eq!((page.rows, page.first, page.receipt_time), (0, None, Some(9)));
    let silent = Bounds::none();
    assert!(silent.started(&progress).is_none());
    assert!(silent.received(true, false, &page).is_none());
    assert!(silent.accepted(false, &page).is_none());
    assert!(silent.rejected(true).is_none());
    let kept = Bounds { persists: true, ..Bounds::none() };
    assert!(matches!(kept.started(&progress), Some(ProgressEvent::Started(p)) if p.cutoff == 2));
    assert!(matches!(
        kept.received(true, false, &page),
        Some(ProgressEvent::Received(p)) if p.bytes == 2
    ));
    assert!(kept.received(false, false, &page).is_none());
    assert!(matches!(kept.accepted(false, &page), Some(ProgressEvent::Page(p)) if p.bytes == 2));
    assert!(matches!(kept.rejected(true), Some(ProgressEvent::Invalidate)));
    assert!(kept.rejected(false).is_none());
    let resumed = Bounds {
        persists: true,
        resume: Some(Progress { baseline: None, start: 1, cutoff: 2, pages: vec![] }),
        ..Bounds::none()
    };
    assert!(resumed.started(&progress).is_none());
    assert!(resumed.received(true, true, &page).is_none());
    assert!(resumed.accepted(true, &page).is_none());
    let decoded = decoded_page(page, &vec![tick(5, 1), tick(8, 1)]);
    assert_eq!((decoded.rows, decoded.first, decoded.last), (2, Some(5), Some(8)));
}

#[test]
fn acquisitions_record_their_native_data() {
    let bars = NativeGranularity::Bar { period_seconds: 5 };
    let native = Native::new(bars, 6, Some(-120));
    assert_eq!((native.server_offset_s, native.symbol_id), (-7_200, None));
    assert_eq!(Native::new(bars, 6, None).server_offset_s, 0);
    assert!(check_granularity(bars, "5s bar").is_ok());
    assert!(check_granularity(NativeGranularity::Tick, "tick").is_ok());
    assert_eq!(
        check_granularity(NativeGranularity::Bar { period_seconds: 60 }, "60s bar").unwrap_err(),
        "fetch: 60s bar history is not supported; only ticks and 5-second bars are"
    );
    assert!(check_history(true).is_ok());
    assert!(check_history(false).is_err());
    assert_eq!(
        check_key("k", "x", "u", "g").unwrap_err(),
        "fetch: u holds the manifest of generation g"
    );
    let bar = Bar { start_unix_s: 1, open: 1, high: 1, low: 1, close: 1, volume: 0, period_s: 5 };
    assert_eq!(prepend_page(vec![bar], vec![bar]).len(), 1);
}

#[test]
fn passes_repeat_until_their_limit() {
    assert_eq!(next_pass(PassLimit::Exactly(0), 0, None), Repeat::Stop);
    assert_eq!(next_pass(PassLimit::Unbounded, 0, None), Repeat::Pass);
    assert_eq!(next_pass(PassLimit::Unbounded, 1, None), Repeat::Stop);
    assert_eq!(
        next_pass(PassLimit::Unbounded, 1, Some(60)),
        Repeat::SleepThenPass { micros: 60_000_000 }
    );
    assert_eq!(next_pass(PassLimit::Exactly(1), 1, Some(60)), Repeat::Stop);
    assert_eq!(pass_range(1, 10, 0, 99), range(1, 10));
    assert_eq!(pass_range(1, 10, 1, 99), range(1, 99));
}

#[test]
fn carried_objects_leave_rows_and_coverage_behind() {
    let object = |role, path: &str| ObjectRecord {
        role,
        path: path.into(),
        key: "k".into(),
        bytes: 1,
        sha256: "a".into(),
        crc32c: None,
        generation: None,
    };
    let carried = carried_objects(
        &vec![
            object(ObjectRole::Normalized, "ticks.parquet"),
            object(ObjectRole::Source, BUNDLE_PATH),
            object(ObjectRole::Provenance, "provenance/coverage.json"),
            object(ObjectRole::Source, "raw/x.json"),
        ],
        "g",
    );
    assert_eq!(
        carried.iter().map(|object| object.path.as_str()).collect::<Vec<_>>(),
        ["raw/g/pages.bin", "raw/x.json"]
    );
    assert_eq!(carried_bundle_path("g"), "raw/g/pages.bin");
    assert_eq!(page_path("abc"), "raw/abc.json");
    assert!(page_receipt(&coverage(b"x")).is_none());
    let mut received = coverage(b"x");
    received.receipt_time = Some(5);
    assert_eq!(page_receipt(&received).unwrap().receipt_time, 5);
}

#[test]
fn refused_ranges_say_why() {
    let times = RangeTexts {
        start: "a".into(),
        end: "b".into(),
        retained_start: "c".into(),
        frontier: "d".into(),
    };
    assert_eq!(
        range_message(
            RangeRefusal::Narrows { start: 0, end: 1, retained_start: 2, frontier: 3 },
            "i",
            &times
        ),
        "fetch i: the requested range a to b narrows the retained lineage c to d; retained rows are never clipped"
    );
    assert_eq!(
        range_message(RangeRefusal::Empty, "i", &times),
        "fetch: requested start must precede end"
    );
    assert_eq!(published_line("line"), "line no new range (already published)");
    assert_eq!(unchanged_line("line"), "line (no new data)");
}

#[test]
fn rows_must_be_of_the_requested_kind() {
    assert_eq!(ticks_of(HistoryRows::Ticks(vec![tick(1, 2)])).unwrap().len(), 1);
    assert_eq!(
        ticks_of(HistoryRows::Bars(vec![])).unwrap_err(),
        "fetch: the adapter returned bars for a tick request"
    );
    assert_eq!(
        bars_of(HistoryRows::Ticks(vec![])).unwrap_err(),
        "fetch: the adapter returned ticks for a bar request"
    );
    assert_eq!(retained_tick(MarketRow::Tick(tick(1, 2))).unwrap().price_units, 2);
    assert_eq!(
        retained_bar(MarketRow::Tick(tick(1, 2))).unwrap_err(),
        "baseline row granularity mismatch"
    );
}

#[test]
fn bars_are_recorded_with_the_provider_clock() {
    let bar = Bar {
        start_unix_s: 100,
        open: 1,
        high: 2,
        low: 3,
        close: 4,
        volume: 5,
        period_s: 5,
    };
    let mut native = Native::new(NativeGranularity::Bar { period_seconds: 5 }, 5, Some(120));
    assert_eq!(bar_symbol(&native).unwrap_err(), "fetch: bar rows carry no provider identifier");
    native.symbol_id = Some(7);
    assert_eq!(bar_symbol(&native), Ok(7));
    let recorded = daily_bar(bar, "EURUSD", &native).unwrap();
    assert_eq!(recorded.symbol.as_deref(), Some("EURUSD"));
    assert_eq!(recorded.timestamp_utc, Some(100_000_000));
    assert_eq!(recorded.server_time_s, Some(7_300));
    assert_eq!((recorded.open, recorded.volume), (Some(1), Some(5)));
    let late = Bar { start_unix_s: i64::MAX, ..bar };
    assert_eq!(daily_bar(late, "EURUSD", &native).unwrap_err(), "bar timestamp overflow");
    native.server_offset_s = i64::MAX;
    assert_eq!(daily_bar(bar, "EURUSD", &native).unwrap_err(), "bar server time overflow");
}

#[test]
fn an_acquisition_names_its_data_and_a_descendant_keeps_it() {
    let subject = || Subject {
        broker: "b".into(),
        provider_symbol: "s".into(),
        instrument: "b:s".into(),
        role: DatasetRole::Development,
        config_hash: "config".into(),
        code_revision: "revision".into(),
    };
    let object = |role, path: &str| ObjectRecord {
        role,
        path: path.into(),
        key: format!("objects/{path}"),
        bytes: 3,
        sha256: "a".repeat(64),
        crc32c: None,
        generation: None,
    };
    let native = Native::new(NativeGranularity::Tick, 6, None);
    let interval = IntervalContract {
        closed: "left".into(),
        frequency: "5s".into(),
        interval: "5s".into(),
        label: "left".into(),
        offset_seconds: 0,
        origin: "epoch".into(),
        timestamp_semantics: "start".into(),
        provenance: "parquet_metadata".into(),
    };
    let described = describe_native(&native, interval, "ticks", "bars").described;
    let acquired = acquired_manifest(
        subject(),
        "g".into(),
        described,
        RowSummary { rows: 4, first_event_time: 1, last_event_time: 2 },
        vec![object(ObjectRole::Source, "page"), object(ObjectRole::Normalized, "ticks")],
    );
    assert_eq!((acquired.generation.as_str(), acquired.instrument.as_str()), ("g", "b:s"));
    assert_eq!(acquired.source_kind, SourceKind::BrokerHistory);
    assert_eq!((acquired.row_count, acquired.objects.len()), (4, 2));
    assert_eq!(acquired.inputs.len(), inputs_of(&acquired.objects).len());
    let baseline = retained("b:s", None, None).manifest;
    let later = descendant_manifest(
        baseline,
        RowSummary { rows: 7, first_event_time: 1, last_event_time: 9 },
        "later config".into(),
        "later revision".into(),
    );
    assert_eq!((later.row_count, later.first_event_time, later.last_event_time), (7, 1, 9));
    assert_eq!((later.config_hash.as_str(), later.code_revision.as_str()), ("later config", "later revision"));
    assert_eq!(later.instrument, "b:s");
}

#[test]
fn an_instrument_is_fetched_at_its_own_granularity() {
    let bars = NativeGranularity::Bar { period_seconds: 5 };
    assert!(check_declared("b:s", Some(bars), bars, "5s").is_ok());
    for found in [None, Some(NativeGranularity::Tick)] {
        assert_eq!(
            check_declared("b:s", found, bars, "5s").unwrap_err(),
            "fetch: instrument b:s is not declared at 5s granularity"
        );
    }
}
