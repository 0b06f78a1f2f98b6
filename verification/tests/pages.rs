//! Occurrences of pages, the catalogs that archive them, and what a reclamation spares.

use binary_alpha::dataset::{ObjectRecord, ObjectRole};
use binary_alpha::digest::digest;
use binary_alpha::fetch::coverage::{
    coverage_object, CoverageReader, OccurrenceIdentity, PageCoverage, PageReceipt, Range,
    SeedLineage, Shortfall, COVERAGE_PATH,
};
use binary_alpha::fetch::rows::DailyBar;
use binary_alpha::lineage::catalog::{
    check_manifest, check_root, check_stream, find_lineage, newest_catalog, Archived, Bound,
    Denied, Pinned,
};
use binary_alpha::lineage::days::{
    history_coverage, old_object, AcquisitionCoverage, DayFamily, DayInventoryEntry, DayState,
    Identity,
};
use binary_alpha::lineage::descend::{lineage_object, LINEAGE_PATH};
use binary_alpha::lineage::json::{object_key, parse, Json};
use binary_alpha::lineage::migration::{
    binding_name, MigrationEquality, MigrationMapping, MigrationRecord,
};
use binary_alpha::lineage::occurrences::{
    checkpoint_payload, covers_snapshot, import_page, in_order_of_requests, in_zone, join_pages,
    pair_checkpoints, read_page, receipt_text, row_time, without_offset, zone, Occurrence,
    ReceiptState, Zone,
};
use binary_alpha::lineage::reclaim::{protect_requests, replaces, schedule, PageFact};
use binary_alpha::lineage::rows::{
    bar_time, by_day, carried, diagnostics, keep_prior_rows, unchanged, DAY_MICROS,
};
use binary_alpha::lineage::snapshots::{interruption, superseded_snapshots, PageDay, Snapshot};
use binary_alpha::lineage::writing::{check_bars, check_ticks, place_days, Placement};
use binary_alpha::lineage::select::{
    insert_migration, migration_proof, newest_from, read_lineage, selected_daily, Candidate,
};
use binary_alpha::market::{DatasetRole, NativeGranularity, Tick};
use binary_alpha::table::Table;

fn occurrence(id: &str, ordinal: u64, contents: &str) -> Occurrence {
    Occurrence {
        acquisition_id: id.into(),
        ordinal,
        payload_sha256: contents.into(),
        contents: contents.into(),
    }
}

fn order(pages: &[Occurrence]) -> Vec<(&str, u64)> {
    pages.iter().map(|page| (page.acquisition_id.as_str(), page.ordinal)).collect()
}

#[test]
fn pages_are_joined_and_ordered_by_request() {
    let joined = join_pages(
        vec![occurrence("b", 2, "x")],
        vec![occurrence("b", 2, "x"), occurrence("a", 9, "y"), occurrence("b", 1, "z")],
    )
    .unwrap();
    assert_eq!(order(&joined), [("b", 2), ("a", 9), ("b", 1)]);
    assert_eq!(order(&in_order_of_requests(joined)), [("a", 9), ("b", 1), ("b", 2)]);
    let twins =
        vec![occurrence("b", 1, "first"), occurrence("a", 1, "x"), occurrence("b", 1, "second")];
    let contents: Vec<String> =
        in_order_of_requests(twins).into_iter().map(|page| page.contents).collect();
    assert_eq!(contents, ["x", "first", "second"]);
    assert_eq!(
        join_pages(vec![occurrence("b", 2, "x")], vec![occurrence("b", 2, "other")]).unwrap_err(),
        "page occurrence identity collision"
    );
    assert!(covers_snapshot("i", Some("i"), 5, 4, 0, 1, 9, 9));
    assert!(!covers_snapshot("i", Some("j"), 5, 4, 0, 1, 9, 9));
    assert!(!covers_snapshot("i", Some("i"), 5, 6, 0, 1, 9, 9));
}

#[test]
fn checkpoints_belong_to_equal_lines_in_order() {
    let texts = |list: &[&str]| list.iter().map(|text| text.to_string()).collect::<Vec<_>>();
    assert_eq!(
        pair_checkpoints(&texts(&["a", "b", "a"]), &texts(&["a", "a"])).unwrap(),
        [Some(0), None, Some(1)]
    );
    assert_eq!(
        pair_checkpoints(&texts(&["a"]), &texts(&["a", "a"])).unwrap_err(),
        "checkpoint occurrence has no matching raw line; retain unresolved source"
    );
    assert_eq!(checkpoint_payload(br#"{"payload_sha256":"x"}"#), Ok("x".to_string()));
    assert_eq!(
        checkpoint_payload(b"{}").unwrap_err(),
        "checkpoint lacks payload_sha256; retain unresolved source"
    );
}

#[test]
fn imported_pages_carry_their_request() {
    let payload = br#"{"request_token":7,"data":[[3],[1]]}"#;
    let check = br#"{"recovered_from_raw":true,"received_at":"t"}"#;
    let reading = read_page(payload, Some(check)).unwrap();
    assert_eq!(receipt_text(&reading.checkpoint), Some("t"));
    let page = import_page(reading, "raw", 4, Some(2), &vec![3, 1], Some(9), None);
    assert_eq!(page.payload_sha256, digest(payload));
    assert_eq!(page.request_token.as_deref(), Some("7"));
    assert_eq!((page.first_event_time, page.last_event_time, page.rows), (Some(1), Some(3), 2));
    assert_eq!(page.receipt_state, ReceiptState::NotRecordedBySource);
    assert!(read_page(b"{", None).is_err());
    assert!(matches!(
        row_time(&parse(br#"{"time":5}"#).unwrap()),
        Ok(Json::Number(time)) if time == "5"
    ));
    assert!(matches!(row_time(&parse(b"[6]").unwrap()), Ok(Json::Number(time)) if time == "6"));
    assert_eq!(row_time(&parse(b"[]").unwrap()).unwrap_err(), "import page row has no time");
}

#[test]
fn provider_times_lose_their_offset() {
    assert_eq!(without_offset(10_000_000, 3), Ok(7_000_000));
    assert_eq!(without_offset(0, i64::MAX).unwrap_err(), "offset overflow");
    assert_eq!(without_offset(i64::MIN, 1).unwrap_err(), "timestamp overflow");
    assert_eq!(in_zone(10, 4), Ok(6));
    assert_eq!(in_zone(i64::MIN, 1).unwrap_err(), "receipt time overflow");
    assert!(matches!(zone("2024-01-02T03:04:05Z"), Ok(Zone::Universal)));
    assert!(matches!(
        zone("2024-01-02T03:04:05-01:30"),
        Ok(Zone::Offset(19, -5_400_000_000))
    ));
    assert_eq!(bar_time(Some(2)), Ok(2_000_000));
    assert_eq!(bar_time(None).unwrap_err(), "bar time overflow");
}

fn day(date: &str, family: DayFamily, rows: u64) -> DayInventoryEntry {
    DayInventoryEntry {
        date: date.into(),
        family,
        object: Some(format!("objects/{date}")),
        rows,
        first_time: Some(1),
        last_time: Some(2),
        state: DayState::Unknown,
        reason: None,
        unresolved: vec![],
    }
}

#[test]
fn days_without_new_rows_are_carried() {
    let days = vec![
        day("a", DayFamily::Observations, 1),
        day("b", DayFamily::Observations, 1),
        day("c", DayFamily::Pages, 1),
    ];
    let mut touched = Table::new();
    touched.insert("b".to_string(), ());
    assert_eq!(carried(&days, DayFamily::Observations, &touched), [0]);
    assert!(unchanged(&days[0], 1, 1, 2));
    assert!(!unchanged(&days[0], 1, 1, 3));
    assert_eq!(
        keep_prior_rows(&vec![Some(1), Some(2), Some(3)], &vec![Some(2)]).unwrap(),
        [None, Some(0), None]
    );
    assert_eq!(
        keep_prior_rows(&vec![Some(1)], &vec![Some(2)]).unwrap_err(),
        "daily update lost prior provider rows"
    );
    let object = ObjectRecord {
        role: ObjectRole::Normalized,
        path: "observations/a.parquet".into(),
        key: "objects/a".into(),
        bytes: 1,
        sha256: "x".into(),
        crc32c: None,
        generation: None,
    };
    assert_eq!(old_object(&vec![object], &days[0]), Ok(0));
    assert_eq!(old_object(&vec![], &days[0]).unwrap_err(), "daily inventory object absent");
}

fn page(id: &str, ordinal: u64, receipt_time: Option<i64>) -> PageCoverage {
    PageCoverage {
        occurrence: Some(OccurrenceIdentity {
            acquisition_id: id.into(),
            intent: None,
            ordinal,
        }),
        path: "p".into(),
        sha256: "s".into(),
        bytes: 1,
        offset: None,
        anchor: None,
        rows: 1,
        first: None,
        last: None,
        receipt_time,
    }
}

#[test]
fn responses_that_were_not_indexed_are_kept() {
    let kept = diagnostics(
        vec![page("a", 3, Some(1)), page("a", 1, Some(1)), page("a", 2, Some(1))],
        &vec![page("a", 2, Some(1))],
    )
    .unwrap();
    assert_eq!(kept.len(), 2);
    assert_eq!(
        diagnostics(vec![page("a", 3, None)], &vec![]).unwrap_err(),
        "received response lacks receipt time"
    );
    let mut anonymous = page("a", 3, Some(1));
    anonymous.occurrence = None;
    assert_eq!(
        diagnostics(vec![anonymous], &vec![]).unwrap_err(),
        "received response lacks occurrence identity"
    );
}

fn request(id: &str, ordinal: u64) -> PageReceipt {
    PageReceipt {
        occurrence: Some(OccurrenceIdentity {
            acquisition_id: id.into(),
            intent: Some("i".into()),
            ordinal,
        }),
        sha256: "s".into(),
        bytes: 5,
        anchor: Some("t".into()),
        rows: 2,
        receipt_time: 8,
    }
}

#[test]
fn a_replacement_carries_every_request() {
    let fact = PageFact {
        acquisition_id: "a".into(),
        ordinal: 1,
        intent: Some("i".into()),
        payload_sha256: "s".into(),
        payload_bytes: 5,
        rows: 2,
        request_token: Some("t".into()),
        receipt_time: Some(8),
        recorded: true,
    };
    let pages = vec![fact];
    assert!(replaces(&pages, &vec![request("a", 1)]));
    assert!(!replaces(&pages, &vec![request("a", 1), request("a", 2)]));
    let plan = schedule("i", "r", "g", Some(br#"{"intent":"i"}"#), &vec![request("a", 1)]);
    assert_eq!(plan.owns_header(br#"{"intent":"i"}"#), Ok(true));
    assert_eq!(plan.owns_header(br#"{"intent": "i"}"#), Ok(false));
    let other = schedule("j", "r", "g", Some(br#"{"intent":"i"}"#), &vec![]);
    assert_eq!(other.owns_header(br#"{"intent":"i"}"#), Ok(false));
    assert!(plan.owns_header(b"header").is_err());
    let mut protected = Table::new();
    let digest = digest(b"page");
    let request = |id: &str| {
        let text = format!(
            r#"{{"requests":[{{"occurrence":{{"acquisition_id":"{id}"}},"sha256":"{digest}"}}]}}"#
        );
        parse(text.as_bytes()).unwrap()
    };
    protect_requests(&request("a"), &plan.acquisitions, &mut protected);
    assert!(protected.is_empty());
    protect_requests(&request("b"), &plan.acquisitions, &mut protected);
    assert!(protected.contains(&object_key(&digest)));
}

fn identity() -> Identity<'static> {
    Identity {
        broker: "b",
        provider_symbol: "s",
        role: DatasetRole::Development,
        native_granularity: NativeGranularity::Tick,
        row_count: 3,
        first_event_time: 1,
        last_event_time: 9,
    }
}

fn claim(requested: Vec<Range>, verified: Vec<Range>) -> AcquisitionCoverage {
    AcquisitionCoverage {
        acquisition_id: "a".into(),
        source_identity: "source".into(),
        requested,
        verified,
        shortfalls: vec![Shortfall {
            reason: "budget".into(),
            unresolved: Range { start: 0, end: 1 },
        }],
        unresolved: vec![],
    }
}

#[test]
fn a_continuation_reads_its_own_claim() {
    let range = Range { start: 0, end: 9 };
    let seed = Some(SeedLineage { generation: "g".into(), source_identity: "source".into() });
    let claims = vec![claim(vec![range], vec![range])];
    let coverage = history_coverage(&claims, Some("a"), identity(), seed).unwrap();
    assert_eq!((coverage.requested, coverage.verified), (range, Some(range)));
    assert_eq!(coverage.rows, 3);
    assert_eq!(coverage.shortfall.unwrap().reason, "budget");
    assert_eq!(coverage.seed.unwrap().generation, "g");
    let refused = |claims: &Vec<AcquisitionCoverage>, id| {
        history_coverage(claims, id, identity(), None).unwrap_err()
    };
    assert_eq!(refused(&claims, None), "continuation acquisition absent");
    assert_eq!(refused(&claims, Some("b")), "continuation acquisition has no coverage");
    assert_eq!(
        refused(&vec![claim(vec![], vec![])], Some("a")),
        "continuation needs one requested range"
    );
    assert_eq!(
        refused(&vec![claim(vec![range], vec![range, range])], Some("a")),
        "continuation needs one verified range"
    );
}

fn mapping() -> MigrationMapping {
    let mut v1_generations = Table::new();
    v1_generations.insert("v1".to_string(), ());
    MigrationMapping { v1_generations, v1_stream: None, v1_streams: Table::new() }
}

fn record() -> MigrationRecord {
    MigrationRecord {
        schema_version: 1,
        job: "fixture".into(),
        phase: "verified".into(),
        mapping: mapping(),
        v2_root: "root".into(),
        v2_stream: "stream".into(),
        equality: MigrationEquality {
            observations: true,
            pages: true,
            source_files: true,
            candles: None,
        },
        evidence: Json::Null,
        predecessor_jobs: vec![],
        storage_aliases: vec![],
    }
}

fn candidate(generation: &str, last_event_time: i64, lineage: &str) -> Candidate {
    Candidate {
        generation: generation.into(),
        last_event_time,
        lineage: parse(lineage.as_bytes()).unwrap(),
        mapping: Ok(mapping()),
    }
}

#[test]
fn the_newest_generation_is_the_one_terminal() {
    let list = vec![
        candidate("old", 1, "{}"),
        candidate("parent", 5, "{}"),
        candidate("child", 5, r#"{"ancestors":["parent"]}"#),
    ];
    assert_eq!(newest_from(&list), Ok("child".to_string()));
    assert_eq!(newest_from(&vec![]).unwrap_err(), "pipeline: no daily-v2 dataset");
    let twins = vec![candidate("a", 5, "{}"), candidate("b", 5, "{}")];
    assert!(newest_from(&twins).is_err());
    let chosen = vec![
        candidate("root", 1, r#"{"v1_generations":["v1"]}"#),
        candidate("child", 2, r#"{"root_generation":"root"}"#),
        candidate("stranger", 3, r#"{"root_generation":"other"}"#),
    ];
    let record = record();
    let selected = selected_daily(&chosen, Some(&record)).unwrap();
    assert_eq!(selected, [0, 1]);
    assert_eq!(migration_proof(&chosen, &selected, &record), Ok(0));
    assert_eq!(
        migration_proof(&chosen, &vec![2], &record).unwrap_err(),
        "verified migration continuation root and descendants are absent"
    );
}

#[test]
fn migration_records_may_not_change() {
    let mut records = Table::new();
    let mut texts = Table::new();
    let bytes = br#"{"v2_root":"root"}"#;
    let mut insert = |bytes: &[u8], decoded, text: &str| {
        insert_migration(&mut records, &mut texts, "n", bytes, decoded, text.into())
    };
    assert_eq!(insert(br#"{"v2_stream":"s"}"#, Err("no record".into()), ""), Ok(()));
    assert_eq!(insert(bytes, Err("no record".into()), "").unwrap_err(), "no record");
    assert!(insert(b"{", Ok(record()), "bytes").is_err());
    assert_eq!(insert(bytes, Ok(record()), "bytes"), Ok(()));
    assert_eq!(insert(bytes, Ok(record()), "bytes"), Ok(()));
    assert_eq!(
        insert(bytes, Ok(record()), "other").unwrap_err(),
        "conflicting migration record bytes: n"
    );
    assert_eq!((records.len(), texts.len()), (1, 1));
    assert!(matches!(read_lineage(None), Ok(Json::Object(members)) if members.is_empty()));
    assert!(matches!(read_lineage(Some(b"[]")), Ok(Json::Array(items)) if items.is_empty()));
    assert!(read_lineage(Some(b"[")).is_err());
    assert_eq!(binding_name(&parse(br#"{"record":"r"}"#).unwrap()), Ok("r"));
    assert_eq!(
        binding_name(&parse(b"{}").unwrap()).unwrap_err(),
        "migration record name absent"
    );
}

fn bound(generation: &str, layout: bool) -> Bound<'_> {
    Bound {
        generation,
        instrument: "i",
        role: DatasetRole::Development,
        layout: if layout { Some(binary_alpha::dataset::Layout::DailyV2) } else { None },
    }
}

#[test]
fn catalogs_must_bind_their_root_and_stream() {
    let record = record();
    assert_eq!(check_manifest(bound("g", true), bound("g", true)), Ok(()));
    assert_eq!(
        check_manifest(bound("g", true), bound("h", true)).unwrap_err(),
        "archive: catalog disagrees with lineage manifest"
    );
    assert_eq!(check_stream(bound("stream", true), "root", bound("g", true), &record), Ok(()));
    assert_eq!(
        check_stream(bound("stream", false), "root", bound("g", true), &record).unwrap_err(),
        "migration stream does not bind its daily continuation root"
    );
    assert_eq!(check_root(bound("root", true), bound("g", true), &record), Ok(()));
    assert!(check_root(bound("other", true), bound("g", true), &record).is_err());
    let pinned =
        vec![Pinned { key: "k".into(), bytes: 1, sha256: "x".into() }];
    assert_eq!(find_lineage(&pinned, "k", 1, "x"), Ok(0));
    assert_eq!(
        find_lineage(&pinned, "k", 2, "x").unwrap_err(),
        "archive: lineage lies outside pinned catalog closure"
    );
}

#[test]
fn a_denied_catalog_is_not_passed_over() {
    let archived = |generation: &str, last, lineage: &str| Archived {
        daily: true,
        entry: candidate(generation, last, lineage),
    };
    let catalogs = vec![
        archived("parent", 5, "{}"),
        archived("child", 5, r#"{"ancestors":["parent","retired"]}"#),
    ];
    let denied = |generation: &str| {
        vec![Denied { generation: generation.into(), reason: "not permitted".into() }]
    };
    assert_eq!(newest_catalog(&catalogs, &vec![0, 1], &vec![], true), Ok(1));
    assert_eq!(newest_catalog(&catalogs, &vec![0, 1], &denied("retired"), true), Ok(1));
    assert_eq!(
        newest_catalog(&catalogs, &vec![0, 1], &denied("unknown"), true).unwrap_err(),
        "not permitted"
    );
    assert_eq!(
        newest_catalog(&catalogs, &vec![], &vec![], true).unwrap_err(),
        "drive: no archived catalog for the verified migration continuation"
    );
}

#[test]
fn days_with_the_same_rows_are_kept() {
    let times = vec![1, 2, DAY_MICROS, 2 * DAY_MICROS];
    let groups = by_day(&times);
    let dates = vec!["a".to_string(), "b".to_string(), "c".to_string()];
    let days = vec![
        day("a", DayFamily::Pages, 2),
        day("a", DayFamily::Observations, 2),
        day("b", DayFamily::Observations, 1),
    ];
    let placements = place_days(&days, &groups, &dates, &times);
    assert_eq!(placements.len(), 3);
    assert!(matches!(placements[0], Placement::Kept(1)));
    assert!(matches!(placements[1], Placement::Written(Some(2))));
    assert!(matches!(placements[2], Placement::Written(None)));
}

fn bar(open: u64) -> DailyBar {
    DailyBar {
        symbol: Some("s".into()),
        symbol_id: Some(1),
        timestamp_utc: Some(5_000_000),
        unix_utc_s: Some(5),
        server_time_s: Some(5),
        open: Some(open),
        high: Some(3),
        low: Some(1),
        close: Some(2),
        volume: None,
        period_s: Some(5),
    }
}

#[test]
fn written_days_must_read_back() {
    let tick = |price_units| Tick { event_time_micros: 1, price_units };
    assert_eq!(check_ticks(&vec![tick(1)], &vec![tick(1)]), Ok(()));
    assert_eq!(
        check_ticks(&vec![tick(1)], &vec![tick(2)]).unwrap_err(),
        "daily tick row equality proof failed"
    );
    assert!(check_ticks(&vec![tick(1)], &vec![]).is_err());
    assert_eq!(check_bars(&vec![bar(1)], &vec![bar(1)]), Ok(()));
    assert_eq!(
        check_bars(&vec![bar(1)], &vec![bar(2)]).unwrap_err(),
        "daily provider row equality proof failed"
    );
}

fn snapshot(intent: &str, rows: u64, object: &str, pages: Vec<Occurrence>) -> Snapshot {
    Snapshot {
        intent: Some(intent.into()),
        rows,
        first: 0,
        last: 9,
        days: vec![PageDay { date: "d".into(), object: Some(object.into()), pages }],
    }
}

#[test]
fn a_snapshot_supersedes_only_what_it_retains() {
    let page = || occurrence("a", 1, "x");
    let new = snapshot("i", 5, "new", vec![page(), occurrence("a", 2, "y")]);
    let mut undated = snapshot("i", 4, "gone", vec![page()]);
    undated.days[0].date = "other".into();
    let list = vec![
        snapshot("i", 4, "old", vec![page()]),
        snapshot("other", 4, "old", vec![page()]),
        snapshot("i", 6, "old", vec![page()]),
        snapshot("i", 4, "old", vec![occurrence("a", 3, "z")]),
        snapshot("i", 4, "old", vec![occurrence("a", 1, "changed")]),
        snapshot("i", 4, "new", vec![]),
        undated,
    ];
    assert_eq!(superseded_snapshots(&new, &list), [0, 5]);
    let mut anonymous = snapshot("i", 5, "new", vec![page()]);
    anonymous.intent = None;
    assert!(superseded_snapshots(&anonymous, &list).is_empty());
}

#[test]
fn an_interrupted_append_is_set_aside() {
    assert!(interruption(b"").is_none());
    assert!(interruption(b"{}\n").is_none());
    let found = interruption(b"{}\n{\"a").unwrap();
    assert_eq!(found.complete, 3);
    assert_eq!(found.name, format!("unresolved-received-{}.json", digest(b"{\"a")));
}

#[test]
fn generations_keep_coverage_and_lineage_at_their_paths() {
    let object = |path: &str| ObjectRecord {
        role: ObjectRole::Provenance,
        path: path.into(),
        key: "k".into(),
        bytes: 1,
        sha256: "x".into(),
        crc32c: None,
        generation: None,
    };
    let objects = vec![object("other"), object(COVERAGE_PATH), object(LINEAGE_PATH)];
    assert_eq!(coverage_object(&objects, CoverageReader::Daily), Ok(1));
    assert_eq!(lineage_object(&objects), Some(2));
    assert_eq!(lineage_object(&vec![]), None);
    let absent = |reader| coverage_object(&vec![], reader).unwrap_err();
    assert_eq!(absent(CoverageReader::Prior), "fetch: prior coverage object missing");
    assert_eq!(absent(CoverageReader::Root), "fetch: daily continuation root coverage missing");
    assert_eq!(absent(CoverageReader::Daily), "daily coverage absent");
    assert_eq!(absent(CoverageReader::History), "history coverage absent");
}
