//! What a descendant takes over, and the root of a lineage.

use binary_alpha::dataset::{ObjectRecord, ObjectRole};
use binary_alpha::digest::digest;
use binary_alpha::fetch::coverage::{OccurrenceIdentity, PageCoverage, Range, SeedLineage};
use binary_alpha::lineage::catalog::{pinned_root, standing, Standing};
use binary_alpha::lineage::days::{AcquisitionCoverage, DayFamily, DayInventoryEntry, DayState};
use binary_alpha::lineage::descend::{
    acquired_page, acquisitions, continue_lineage, gather_claims, PageDisposition,
};
use binary_alpha::lineage::document::{import_lineage, provenance_entry, Original, Written};
use binary_alpha::lineage::evidence::{
    descendant_days, import_coverage, import_id, migration_coverage, migration_id, settle_days,
};
use binary_alpha::lineage::json::{copied, find_member, find_text, parse, same, Json};
use binary_alpha::lineage::lines::lines;
use binary_alpha::lineage::migration::{MigrationEquality, MigrationMapping, MigrationRecord};
use binary_alpha::lineage::occurrences::ReceiptState;
use binary_alpha::lineage::root::{
    check_import, check_reconstruction, ends_day, import_date, in_day_order, is_metadata,
    page_object, page_offset, provenance, read_collection, read_metadata, reassemble, settle_day,
    EncodedPage, Provenance,
};
use binary_alpha::lineage::rows::DayMetadata;
use binary_alpha::lineage::select::Candidate;
use binary_alpha::lineage::sources::read_provenance;
use binary_alpha::table::Table;

fn claim(id: &str, start: i64, end: i64) -> AcquisitionCoverage {
    AcquisitionCoverage {
        acquisition_id: id.into(),
        source_identity: "source".into(),
        requested: vec![Range { start, end }],
        verified: vec![Range { start, end }],
        shortfalls: vec![],
        unresolved: vec![],
    }
}

fn identity(id: &str, ordinal: u64) -> OccurrenceIdentity {
    OccurrenceIdentity { acquisition_id: id.into(), intent: Some("intent".into()), ordinal }
}

fn page(occurrence: Option<OccurrenceIdentity>, receipt_time: Option<i64>) -> PageCoverage {
    PageCoverage {
        occurrence,
        path: "pages/0.json".into(),
        sha256: "ab".repeat(32),
        bytes: 3,
        offset: None,
        anchor: Some("17.5".into()),
        rows: 2,
        first: Some(5),
        last: Some(9),
        receipt_time,
    }
}

fn day(date: &str, family: DayFamily, rows: u64) -> DayInventoryEntry {
    DayInventoryEntry {
        date: date.into(),
        family,
        object: Some(format!("objects/{date}")),
        rows,
        first_time: Some(1),
        last_time: Some(2),
        state: DayState::Unknown,
        reason: Some("source evidence without whole-day completeness".into()),
        unresolved: vec![],
    }
}

fn metadata(complete: bool, clipped: bool, closed: bool) -> DayMetadata {
    DayMetadata {
        complete,
        clipped_by_retention: clipped,
        clipped_by_now: false,
        market_closed: closed,
    }
}

fn ids(claims: &[AcquisitionCoverage]) -> Vec<&str> {
    claims.iter().map(|claim| claim.acquisition_id.as_str()).collect()
}

#[test]
fn a_descendant_gathers_claims_in_order() {
    let gathered = gather_claims(
        vec![claim("a", 0, 10)],
        vec![claim("b", 10, 20), claim("a", 0, 10)],
        claim("c", 20, 30),
        &vec!["c".into(), "d".into(), "d".into(), "a".into()],
    )
    .unwrap();
    assert_eq!(ids(&gathered), ["a", "b", "c", "d"]);
    assert_eq!(gathered[2].requested, vec![Range { start: 20, end: 30 }]);
    assert!(gathered[3].requested.is_empty() && gathered[3].verified.is_empty());
    assert_eq!(gathered[3].source_identity, "source");
}

#[test]
fn conflicting_and_repeated_claims_are_refused() {
    assert_eq!(
        gather_claims(
            vec![claim("a", 0, 10)],
            vec![claim("a", 0, 11)],
            claim("c", 20, 30),
            &vec![],
        )
        .unwrap_err(),
        "conflicting acquisition evidence in resumed snapshots"
    );
    assert_eq!(
        gather_claims(vec![claim("a", 0, 10)], vec![], claim("a", 20, 30), &vec![]).unwrap_err(),
        "daily acquisition identity was already published"
    );
}

#[test]
fn pages_need_an_identity_and_keep_their_receipt() {
    assert_eq!(
        acquisitions(&vec![page(Some(identity("a", 1)), None), page(None, None)]).unwrap_err(),
        "missing occurrence identity"
    );
    assert_eq!(acquisitions(&vec![page(Some(identity("a", 1)), None)]).unwrap(), ["a"]);
    assert_eq!(
        acquired_page(&page(None, None), false, None).unwrap_err(),
        "daily acquisition has no durable occurrence identity"
    );
    let kept = acquired_page(&page(Some(identity("a", 4)), Some(77)), false, Some(6)).unwrap();
    assert_eq!((kept.acquisition_id.as_str(), kept.ordinal), ("a", 4));
    assert_eq!(kept.intent.as_deref(), Some("intent"));
    assert_eq!(kept.request_token.as_deref(), Some("17.5"));
    assert_eq!((kept.request_anchor_utc, kept.receipt_time_utc), (Some(6), Some(77)));
    assert_eq!(kept.receipt_state, ReceiptState::Recorded);
    assert_eq!((kept.first_event_time, kept.last_event_time, kept.rows), (Some(5), Some(9), 2));
    assert_eq!(kept.disposition, PageDisposition::Indexed);
    let kept = acquired_page(&page(Some(identity("a", 4)), None), true, None).unwrap();
    assert_eq!(kept.receipt_state, ReceiptState::AbsentInLegacyRecord);
    assert_eq!(kept.disposition, PageDisposition::Diagnostic);
}

fn texts(value: &Json) -> Vec<&str> {
    match value {
        Json::Array(values) => values
            .iter()
            .map(|one| match one {
                Json::Text(text) => text.as_str(),
                _ => panic!("not a text"),
            })
            .collect(),
        _ => panic!("not an array"),
    }
}

#[test]
fn a_lineage_is_continued_and_flattened() {
    let seed = Some(SeedLineage { generation: "seed".into(), source_identity: "source".into() });
    let first =
        continue_lineage(None, "root", &vec!["old".into()], &identity("a", 0), &seed);
    assert_eq!(texts(find_member(&first, "ancestors").unwrap()), ["old", "root"]);
    assert_eq!(find_text(&first, "parent_generation"), Some("root"));
    assert_eq!(find_text(&first, "root_generation"), Some("root"));
    assert!(matches!(find_member(&first, "schema_version"), Some(Json::Number(v)) if v == "1"));
    let second = continue_lineage(Some(first), "next", &vec![], &identity("b", 0), &None);
    assert_eq!(texts(find_member(&second, "ancestors").unwrap()), ["next", "old", "root"]);
    assert_eq!(find_text(&second, "parent_generation"), Some("next"));
    assert_eq!(find_text(&second, "root_generation"), Some("root"));
    let continuation = find_member(&second, "continuation").unwrap();
    assert_eq!(find_text(continuation, "acquisition_id"), Some("b"));
    assert_eq!(find_text(continuation, "intent"), Some("intent"));
    assert!(matches!(find_member(continuation, "seed"), Some(Json::Null)));
}

#[test]
fn provenance_is_told_apart_by_path() {
    assert_eq!(provenance("collection/a.json", true, 0), Provenance::InstrumentEntry);
    assert_eq!(provenance("collection/a.json", false, 0), Provenance::Verbatim);
    assert_eq!(provenance("raw_pages.ndjson", false, 0), Provenance::Framed);
    assert_eq!(provenance("checkpoint.ndjson", false, 0), Provenance::Framed);
    assert_eq!(provenance("x/_SUCCESS", false, 9), Provenance::Marker);
    assert_eq!(provenance("x/.conversion.lock", false, 9), Provenance::Marker);
    assert_eq!(provenance("x/gaps.parquet", false, 0), Provenance::Marker);
    assert_eq!(provenance("x/gaps.parquet", false, 1), Provenance::Verbatim);
    assert!(is_metadata(ObjectRole::Provenance, "a/2024-01-02.meta.json"));
    assert!(!is_metadata(ObjectRole::Source, "a/2024-01-02.meta.json"));
}

#[test]
fn a_collection_binds_one_instrument() {
    let content =
        br#"{"server_timestamp_offset_seconds":7200,"assets":{"EURUSD":{"id":7},"GBPUSD":{}}}"#;
    let read = read_collection(content, "EURUSD", Some(1)).unwrap();
    assert_eq!(read.offset_seconds, Some(7200));
    let entry = read.entry.unwrap();
    assert!(matches!(find_member(&entry, "id"), Some(Json::Number(id)) if id == "7"));
    let read = read_collection(br#"{"assets":{}}"#, "EURUSD", Some(1)).unwrap();
    assert_eq!(read.offset_seconds, Some(1));
    assert!(read.entry.is_none());
    assert!(read_collection(b"{", "EURUSD", None).is_err());
}

#[test]
fn day_metadata_needs_a_date() {
    let content = br#"{"date":"2024-01-02","complete":true,"market_closed":1}"#;
    let (date, found) = read_metadata(content).unwrap();
    assert_eq!(date, "2024-01-02");
    assert!(found.complete && !found.market_closed && !found.clipped_by_now);
    assert_eq!(
        read_metadata(b"{}").unwrap_err(),
        "daily metadata date absent"
    );
    assert!(read_metadata(b"{").is_err());
    assert_eq!(import_date("EURUSD_2024-01-02_ticks.parquet"), Ok("2024-01-02"));
    assert_eq!(
        import_date("EURUSD_ticks.parquet"),
        Err("daily import path has no date".to_string())
    );
    assert!(ends_day(Some(86_399_999_999), 86_400_000_000));
    assert!(!ends_day(Some(0), 86_399_999_999));
    assert!(!ends_day(None, 0));
}

#[test]
fn imported_days_take_their_claims() {
    let bounds = Range { start: 0, end: 10 };
    let mut days = vec![day("a", DayFamily::Pages, 1), day("a", DayFamily::Observations, 2)];
    assert_eq!(settle_day(&mut days, "a", metadata(true, false, false), bounds, true), Ok(false));
    assert_eq!(days[1].state, DayState::Complete);
    assert_eq!(days[0].state, DayState::Unknown);
    assert_eq!(settle_day(&mut days, "a", metadata(true, true, false), bounds, true), Ok(false));
    assert_eq!(days[1].state, DayState::Partial);
    assert_eq!(days[1].unresolved, vec![bounds]);
    assert_eq!(settle_day(&mut days, "b", metadata(true, false, true), bounds, false), Ok(false));
    assert_eq!(days[2].state, DayState::EmptyKnown);
    assert!(days[2].object.is_none());
    assert_eq!(settle_day(&mut days, "c", metadata(false, false, true), bounds, true), Ok(true));
    assert_eq!(
        settle_day(&mut days, "c", metadata(false, false, true), bounds, false),
        Err("tick metadata on bars".to_string())
    );
    assert_eq!(days.len(), 3);
}

#[test]
fn days_are_ordered_by_family_and_date() {
    let sorted = in_day_order(vec![
        day("2024-01-03", DayFamily::Pages, 1),
        day("2024-01-02", DayFamily::Pages, 2),
        day("2024-01-03", DayFamily::Observations, 3),
        day("2024-01-02", DayFamily::Pages, 4),
        day("2024-01-01", DayFamily::Observations, 5),
    ]);
    let order: Vec<u64> = sorted.iter().map(|day| day.rows).collect();
    assert_eq!(order, [5, 3, 2, 4, 1]);
}

#[test]
fn pages_rebuild_what_they_were_taken_from() {
    let data = b"one\r\ntwo\nthree".to_vec();
    let framed = lines(&data);
    let pages: Vec<EncodedPage> = [(0, "one"), (1, "two"), (2, "three")]
        .into_iter()
        .map(|(ordinal, text)| EncodedPage {
            acquisition_id: "raw".into(),
            ordinal,
            payload: text.as_bytes().to_vec(),
            checkpoint: None,
        })
        .collect();
    let owners = vec![Some(0), Some(1), Some(2)];
    let file = reassemble(&framed, &owners, &pages, "raw", false).unwrap();
    assert_eq!(file, data);
    let sum = digest(&data);
    assert_eq!(check_reconstruction(&file, &sum, data.len() as u64, true), Ok(()));
    assert_eq!(
        check_reconstruction(&file, &sum, 1, true),
        Err("encoded daily NDJSON reconstruction failed".to_string())
    );
    assert_eq!(
        check_reconstruction(b"x", &sum, data.len() as u64, false),
        Err("NDJSON framing reconstruction failed".to_string())
    );
    assert_eq!(
        reassemble(&framed, &owners, &pages, "raw", true),
        Err("encoded checkpoint absent".to_string())
    );
    assert_eq!(
        reassemble(&framed, &owners, &pages, "other", false),
        Err("encoded occurrence absent".to_string())
    );
    assert_eq!(
        reassemble(&framed, &vec![Some(0), None, Some(2)], &pages, "raw", false),
        Err("source occurrence missing from daily inventory".to_string())
    );
}

#[test]
fn imported_pages_need_their_source_and_offset() {
    assert_eq!(page_offset(true, true, Some(3)), Ok(Some(3)));
    assert_eq!(page_offset(false, false, Some(3)), Ok(None));
    assert_eq!(
        page_offset(false, true, Some(3)),
        Err("checkpoint without raw source; retain unresolved source".to_string())
    );
    assert_eq!(
        page_offset(true, false, None),
        Err("import pages have no recorded provider offset".to_string())
    );
    assert_eq!(check_import(3, 1, 2, 3, 1, 2), Ok(()));
    assert_eq!(
        check_import(3, 1, 2, 3, 1, 3),
        Err("daily import does not equal validated input coverage/rows".to_string())
    );
}

fn mapping(generation: &str) -> MigrationMapping {
    let mut v1_generations = Table::new();
    v1_generations.insert(generation.to_string(), ());
    MigrationMapping { v1_generations, v1_stream: None, v1_streams: Table::new() }
}

fn candidate(generation: &str, lineage: &[u8]) -> Candidate {
    Candidate {
        generation: generation.into(),
        last_event_time: 1,
        lineage: parse(lineage).unwrap(),
        mapping: Ok(mapping("v1")),
    }
}

fn record() -> MigrationRecord {
    MigrationRecord {
        schema_version: 1,
        job: "fixture".into(),
        phase: "verified".into(),
        mapping: mapping("v1"),
        v2_root: "root".into(),
        v2_stream: "stream".into(),
        equality: MigrationEquality {
            observations: true,
            pages: true,
            source_files: true,
            candles: None,
        },
        evidence: Json::Null,
        predecessor_jobs: vec![],
        storage_aliases: vec![],
    }
}

#[test]
fn catalogs_stand_by_the_migration_in_force() {
    assert_eq!(standing(&candidate("g", b"{}"), None), Ok(Standing::Candidate));
    assert_eq!(
        standing(&candidate("g", br#"{"v1_generations":["v1"]}"#), None),
        Err("verified migration evidence is not archived for g".to_string())
    );
    let record = record();
    assert_eq!(
        standing(&candidate("g", br#"{"root_generation":"root"}"#), Some(&record)),
        Ok(Standing::Verify { needs_root: true })
    );
    assert_eq!(
        standing(&candidate("g", br#"{"root_generation":"other"}"#), Some(&record)),
        Ok(Standing::Skip)
    );
    let pinned = vec!["a".to_string(), "root".to_string()];
    assert_eq!(pinned_root(&pinned, &record), Ok(1));
    assert_eq!(
        pinned_root(&vec![], &record),
        Err("catalog omits the verified migration root".to_string())
    );
}

fn complete(mut entry: DayInventoryEntry) -> DayInventoryEntry {
    entry.state = DayState::Complete;
    entry.reason = None;
    entry
}

#[test]
fn an_import_claims_its_complete_days() {
    let days = vec![
        complete(day("a", DayFamily::Observations, 2)),
        day("b", DayFamily::Observations, 2),
        day("a", DayFamily::Pages, 1),
    ];
    let bounds =
        vec![Range { start: 0, end: 10 }, Range { start: 10, end: 20 }, Range { start: 0, end: 10 }];
    assert_eq!(import_id(Some("log"), "g"), "log");
    let evidence = import_coverage(import_id(None, "g"), "bar_parquet", &days, &bounds);
    let claim = &evidence.acquisitions[0];
    assert_eq!(claim.acquisition_id, "g");
    assert_eq!(claim.source_identity, "import:bar_parquet");
    assert_eq!(claim.requested, vec![Range { start: 0, end: 20 }]);
    assert_eq!(claim.verified, vec![Range { start: 0, end: 10 }]);
    assert_eq!(claim.unresolved, vec![Range { start: 10, end: 20 }]);
    assert_eq!(evidence.days[1].unresolved, vec![Range { start: 10, end: 20 }]);
    let evidence =
        migration_coverage(migration_id("g"), "source".into(), &days, &bounds, &vec![]);
    assert_eq!(evidence.acquisitions.len(), 1);
    assert_eq!(evidence.acquisitions[0].acquisition_id, "migration-source:g");
    assert_eq!(evidence.acquisitions[0].verified, vec![Range { start: 0, end: 10 }]);
}

#[test]
fn descendants_add_what_their_acquisition_verified() {
    let days = vec![day("a", DayFamily::Observations, 2), day("b", DayFamily::Observations, 0)];
    let bounds = vec![Range { start: 0, end: 10 }, Range { start: 10, end: 20 }];
    let before = import_coverage("import".into(), "k", &days, &bounds);
    let claims = vec![claim("c", 5, 20)];
    assert_eq!(
        descendant_days(&before.days, &days, &bounds, &claims, "d").unwrap_err(),
        "missing acquisition claim"
    );
    let evidence = descendant_days(&before.days, &days, &bounds, &claims, "c").unwrap();
    assert_eq!(evidence[0].verified, vec![Range { start: 5, end: 10 }]);
    assert_eq!(evidence[0].unresolved, vec![Range { start: 0, end: 5 }]);
    assert_eq!(evidence[0].acquisition_ids, ["import", "c"]);
    assert!(evidence[1].unresolved.is_empty());
    let object = |key: &str| ObjectRecord {
        role: ObjectRole::Normalized,
        path: key.into(),
        key: key.into(),
        bytes: 1,
        sha256: "x".into(),
        crc32c: None,
        generation: None,
    };
    let mut days = days;
    let kept = settle_days(
        &mut days,
        &evidence,
        &vec![DayState::Partial, DayState::EmptyKnown],
        &vec![object("objects/a"), object("objects/b"), object("objects/c")],
    );
    let keys: Vec<&str> = kept.iter().map(|object| object.key.as_str()).collect();
    assert_eq!(keys, ["objects/a", "objects/c"]);
    assert_eq!(days[0].state, DayState::Partial);
    assert_eq!(days[1].state, DayState::EmptyKnown);
    assert!(days[0].object.is_some() && days[1].object.is_none());
}

#[test]
fn the_pages_of_a_day_are_one_object() {
    let object = |path: &str| ObjectRecord {
        role: ObjectRole::Source,
        path: path.into(),
        key: "k".into(),
        bytes: 1,
        sha256: "x".into(),
        crc32c: None,
        generation: None,
    };
    let objects = vec![object("observations/2024-01-02.parquet"), object("pages/2024-01-02.parquet")];
    assert_eq!(page_object(&objects, "2024-01-02"), Ok(1));
    assert_eq!(page_object(&objects, "2024-01-03").unwrap_err(), "daily page object absent");
}

fn written(role: ObjectRole, path: &str) -> Written {
    Written { role, path: path.into(), value: Json::Text(path.into()) }
}

fn original(role: ObjectRole, path: &str, content: &[u8], entry: Option<Json>) -> Original {
    Original { object: written(role, path), content: content.to_vec(), gaps: 0, entry }
}

#[test]
fn an_import_lineage_lists_every_object_and_keeps_what_nothing_else_does() {
    let originals = vec![
        original(ObjectRole::Source, "ticks.csv", b"", None),
        original(ObjectRole::Provenance, "collection/assets.json", b"{}", Some(Json::Bool(true))),
        original(ObjectRole::Provenance, "raw_pages.ndjson", b"{}\n", None),
        original(ObjectRole::Provenance, "_SUCCESS", b"ignored", None),
        original(ObjectRole::Provenance, "note.txt", &[0, 255], None),
    ];
    let mut source_rows = Table::new();
    source_rows.insert("ticks.csv".to_string(), 12);
    let objects = vec![
        written(ObjectRole::Normalized, "observations/2024-01-02.parquet"),
        written(ObjectRole::Provenance, "pages/2024-01-02.parquet"),
    ];
    let document =
        import_lineage(&originals, &source_rows, Json::Text("framing".into()), &objects, 12);
    let expected = parse(
        br#"{
            "schema_version": 1,
            "kind": "import",
            "replaced_generations": [],
            "original_objects": [
                {"object": "ticks.csv", "rows": 12},
                {"object": "collection/assets.json", "rows": null},
                {"object": "raw_pages.ndjson", "rows": null},
                {"object": "_SUCCESS", "rows": null},
                {"object": "note.txt", "rows": null}
            ],
            "provenance": [
                {"object": "collection/assets.json", "instrument_entry": true},
                {"object": "_SUCCESS", "bytes_verbatim": null},
                {"object": "note.txt", "bytes_verbatim": [0, 255]}
            ],
            "framing": "framing",
            "observation_objects": ["observations/2024-01-02.parquet"],
            "proofs": {
                "observation_rows": 12,
                "source_validation": "ordered rows and provider columns",
                "ndjson_reconstruction": "sha256 and byte count verified"
            }
        }"#,
    )
    .unwrap();
    assert!(same(&document, &expected));
    assert!(same(&copied(&document), &document));
    assert!(provenance_entry(&originals[0]).is_none());
    assert!(provenance_entry(&originals[2]).is_none());
}

#[test]
fn the_provenance_is_read_in_order() {
    let mut originals = vec![
        original(ObjectRole::Source, "ticks.csv", b"not json", None),
        original(
            ObjectRole::Provenance,
            "a.meta.json",
            br#"{"date": "2024-01-02", "complete": true}"#,
            None,
        ),
        original(
            ObjectRole::Provenance,
            "collection/assets.json",
            br#"{"server_timestamp_offset_seconds": 7200, "assets": {"s": {"id": 3}}}"#,
            None,
        ),
        original(ObjectRole::Provenance, "collection/other.json", br#"{"assets": {}}"#, None),
        original(
            ObjectRole::Provenance,
            "b.meta.json",
            br#"{"date": "2024-01-02", "market_closed": true}"#,
            None,
        ),
    ];
    let provided = read_provenance(&mut originals, "s").unwrap();
    assert_eq!(provided.offset_seconds, Some(7200));
    assert_eq!(provided.days.len(), 1);
    let day = provided.days.get("2024-01-02").unwrap();
    assert!(!day.complete && day.market_closed);
    assert!(originals[2].entry.as_ref().is_some_and(|entry| {
        same(entry, &parse(br#"{"id": 3}"#).unwrap())
    }));
    assert!(originals[3].entry.is_none());
    let mut nameless = vec![original(ObjectRole::Provenance, "a.meta.json", b"{}", None)];
    assert_eq!(read_provenance(&mut nameless, "s").unwrap_err(), "daily metadata date absent");
    let mut broken = vec![original(ObjectRole::Provenance, "collection/a.json", b"{", None)];
    assert!(read_provenance(&mut broken, "s").is_err());
}
