//! What a reclamation may delete, and how an archived catalog is chosen.

use binary_alpha::dataset::Layout;
use binary_alpha::digest::digest;
use binary_alpha::fetch::coverage::{
    HistoryCoverage, OccurrenceIdentity, PageReceipt, Range, SeedLineage,
};
use binary_alpha::lineage::assemble::{
    choose_catalog, record_step, Catalog, Choice, Facts, PinnedRoot, PinnedStream, RecordStep,
};
use binary_alpha::lineage::catalog::{Archived, Pinned};
use binary_alpha::lineage::json::{object_key, parse, Json};
use binary_alpha::lineage::migration::{MigrationEquality, MigrationMapping, MigrationRecord};
use binary_alpha::lineage::reclaim::{
    holds_unresolved, is_plan, plan_name, scan_job, scan_line, schedule, survey, PageFact,
    PendingJob, PlanStep, Reclamation, Replacement, Scan,
};
use binary_alpha::lineage::select::Candidate;
use binary_alpha::market::{DatasetRole, NativeGranularity};
use binary_alpha::table::Table;

fn request() -> PageReceipt {
    PageReceipt {
        occurrence: Some(OccurrenceIdentity {
            acquisition_id: "a".into(),
            intent: Some("i".into()),
            ordinal: 1,
        }),
        anchor: None,
        sha256: digest(b"page"),
        bytes: 4,
        rows: 1,
        receipt_time: 1,
    }
}

fn plan(header: Option<&[u8]>) -> Reclamation {
    schedule("i", "receipt.json", "g", header, &vec![request()])
}

fn object(contents: &[u8]) -> String {
    format!(r#"{{"sha256":"{}"}}"#, digest(contents))
}

fn key(contents: &[u8]) -> String {
    object_key(&digest(contents))
}

fn job(names: &[&str], header: Option<&str>, lines: &[&str]) -> PendingJob {
    PendingJob {
        names: names.iter().map(|name| name.to_string()).collect(),
        header: header.map(|text| text.as_bytes().to_vec()),
        lines: lines.iter().map(|line| line.as_bytes().to_vec()).collect(),
    }
}

#[test]
fn a_plan_is_carried_out_for_the_receipt_that_closes_it() {
    let plan = plan(None);
    let closing = br#"{"pending":false,"intent":"i","dataset_generation":"g"}"#;
    assert!(plan.read_receipt(closing).is_ok());
    let refused = "reclamation receipt does not close this acquisition";
    for receipt in [
        &br#"{"pending":true,"intent":"i","dataset_generation":"g"}"#[..],
        br#"{"intent":"i","dataset_generation":"g"}"#,
        br#"{"pending":false,"intent":"j","dataset_generation":"g"}"#,
        br#"{"pending":false,"intent":"i","dataset_generation":"h"}"#,
    ] {
        assert_eq!(plan.read_receipt(receipt).unwrap_err(), refused);
    }
    assert!(plan.read_receipt(b"{").is_err());
    assert!(is_plan(&plan_name("receipt.json")));
    assert!(!is_plan("receipt.json"));
}

#[test]
fn a_plan_is_taken_up_once_it_is_proven() {
    let header = br#"{"intent":"i"}"#;
    let closing = br#"{"pending":false,"intent":"i","dataset_generation":"g"}"#;
    let mut plan = plan(Some(header));
    plan.protected.insert("stale".to_string(), ());
    assert_eq!(plan.begin(closing, false, None), Ok(PlanStep::Skip));
    assert!(plan.protected.contains("stale"));
    assert!(plan.begin(b"{}", true, None).is_err());
    assert!(plan.begin(closing, true, Some(b"{")).is_err());
    assert_eq!(
        plan.begin(closing, true, Some(br#"{"intent":"j"}"#)),
        Ok(PlanStep::Survey { remove_progress: false })
    );
    assert!(plan.protected.is_empty());
    assert_eq!(
        plan.begin(closing, true, Some(header)),
        Ok(PlanStep::Survey { remove_progress: true })
    );
    assert!(plan.settle(&Table::new(), &key(b"page")));
    assert_eq!(plan.begin(b"{", true, None), Ok(PlanStep::Skip));
}

fn coverage(seed: Option<&str>) -> HistoryCoverage {
    HistoryCoverage {
        schema_version: 1,
        source_identity: "source".into(),
        broker: "b".into(),
        provider_symbol: "s".into(),
        role: DatasetRole::Development,
        requested: Range { start: 0, end: 1 },
        verified: None,
        actual: None,
        rows: 0,
        pages: vec![],
        bundle: None,
        shortfall: None,
        tail_shortfall: None,
        native_granularity: NativeGranularity::Tick,
        seed: seed.map(|generation| SeedLineage {
            generation: generation.into(),
            source_identity: "source".into(),
        }),
    }
}

fn replacement() -> Replacement {
    Replacement {
        layout: Some(Layout::DailyV2),
        broker: "b".into(),
        provider_symbol: "s".into(),
        role: DatasetRole::Development,
        lineage: parse(br#"{"root_generation":"seed"}"#).unwrap(),
        pages: vec![PageFact {
            acquisition_id: "a".into(),
            ordinal: 1,
            intent: Some("i".into()),
            payload_sha256: digest(b"page"),
            payload_bytes: 4,
            rows: 1,
            request_token: None,
            receipt_time: Some(1),
            recorded: true,
        }],
        verified: true,
    }
}

#[test]
fn a_retired_generation_is_replaced_as_proof() {
    let plan = plan(None);
    let requests = vec![request()];
    let seeded = coverage(Some("seed"));
    let proven = |coverage: &HistoryCoverage, found: Replacement| {
        plan.is_proven(false, coverage, &requests, &vec![Err("gone".into()), Ok(found)])
    };
    assert!(plan.is_proven(true, &coverage(None), &requests, &vec![]));
    assert!(!plan.is_proven(false, &seeded, &requests, &vec![Err("gone".into())]));
    assert!(proven(&seeded, replacement()));
    assert!(!proven(&coverage(None), replacement()));
    assert!(!proven(&coverage(Some("other")), replacement()));
    assert!(!proven(&seeded, Replacement { layout: None, ..replacement() }));
    assert!(!proven(&seeded, Replacement { broker: "c".into(), ..replacement() }));
    assert!(!proven(&seeded, Replacement { provider_symbol: "t".into(), ..replacement() }));
    assert!(!proven(&seeded, Replacement { pages: vec![], ..replacement() }));
    assert!(!proven(&seeded, Replacement { verified: false, ..replacement() }));
    let anonymous = vec![PageReceipt { occurrence: None, ..request() }];
    assert!(!plan.is_proven(false, &seeded, &anonymous, &vec![Ok(replacement())]));
}

#[test]
fn a_torn_line_is_no_permission_to_delete() {
    let mut protected = Table::new();
    assert_eq!(scan_line(object(b"x").as_bytes(), &mut protected), Scan::Continue);
    assert!(protected.contains(&key(b"x")));
    assert_eq!(scan_line(&object(b"y").as_bytes()[..20], &mut protected), Scan::Stop);
    assert!(!protected.contains(&key(b"y")));
}

#[test]
fn an_unresolved_response_stops_a_reclamation() {
    assert!(holds_unresolved(&vec!["pending.json".into(), "unresolved-received-1".into()]));
    assert!(!holds_unresolved(&vec!["pending.json".into(), "received-unresolved-".into()]));
    let mut protected = Table::new();
    let scan = |job: &PendingJob, protected: &mut Table<()>| scan_job(job, protected);
    let unresolved = job(&["unresolved-received-1"], Some("{"), &[]);
    assert_eq!(scan(&unresolved, &mut protected), Ok(Scan::Stop));
    assert_eq!(scan(&job(&[], None, &["{"]), &mut protected), Ok(Scan::Continue));
    assert!(scan(&job(&[], Some("{"), &[]), &mut protected).is_err());
    assert_eq!(scan(&job(&[], Some("{}"), &["{}", "{"]), &mut protected), Ok(Scan::Stop));
    let pending = job(&["pending.json"], Some(&object(b"header")), &[&object(b"line")]);
    assert_eq!(scan(&pending, &mut protected), Ok(Scan::Continue));
    assert!(protected.contains(&key(b"header")) && protected.contains(&key(b"line")));
}

#[test]
fn a_survey_protects_whatever_is_referred_to() {
    let plan = plan(None);
    let manifests = vec![format!(r#"{{"objects":[{}]}}"#, object(b"kept")).into_bytes()];
    let jobs = vec![job(&[], Some(&object(b"pending")), &[])];
    let request = |id: &str, contents: &[u8]| {
        format!(
            r#"{{"requests":[{{"occurrence":{{"acquisition_id":"{id}"}},"sha256":"{}"}}]}}"#,
            digest(contents)
        )
        .into_bytes()
    };
    let records = vec![request("a", b"own"), request("b", b"foreign")];
    let protected = survey(&manifests, &jobs, &records, &plan.acquisitions).unwrap().unwrap();
    assert_eq!(protected.len(), 3);
    for contents in [&b"kept"[..], b"pending", b"foreign"] {
        assert!(protected.contains(&key(contents)));
    }
    assert!(!protected.contains(&key(b"own")));
    let stopping = vec![job(&[], Some("{}"), &["{"])];
    assert!(survey(&manifests, &stopping, &records, &plan.acquisitions).unwrap().is_none());
    assert!(survey(&vec![b"{".to_vec()], &jobs, &records, &plan.acquisitions).is_err());
    let mut plan = plan;
    assert!(!plan.finished());
    assert!(plan.settle(&protected, &key(b"page")));
    assert!(plan.finished());
}

fn facts(generation: &str) -> Facts {
    Facts {
        generation: generation.into(),
        instrument: "b:s".into(),
        role: DatasetRole::Development,
        layout: Some(Layout::DailyV2),
    }
}

fn catalog(generation: &str) -> Catalog {
    Catalog {
        job: "job".into(),
        claims: facts(generation),
        denied: None,
        records: vec![],
        stream: "stream-of-catalog".into(),
        manifests: vec![generation.into()],
        manifest: Some(facts(generation)),
        root: None,
        bound_stream: None,
    }
}

fn mapping() -> MigrationMapping {
    let mut v1_generations = Table::new();
    v1_generations.insert("v1".to_string(), ());
    MigrationMapping { v1_generations, v1_stream: None, v1_streams: Table::new() }
}

fn archived(generation: &str, last_event_time: i64, lineage: &str) -> Archived {
    Archived {
        daily: true,
        entry: Candidate {
            generation: generation.into(),
            last_event_time,
            lineage: parse(lineage.as_bytes()).unwrap(),
            mapping: Ok(mapping()),
        },
    }
}

fn records() -> Table<MigrationRecord> {
    let mut records = Table::new();
    records.insert(
        "migration.json".to_string(),
        MigrationRecord {
            schema_version: 1,
            job: "job".into(),
            phase: "verified".into(),
            mapping: mapping(),
            v2_root: "root".into(),
            v2_stream: "stream".into(),
            equality: MigrationEquality {
                observations: true,
                pages: true,
                source_files: true,
                candles: None,
            },
            evidence: Json::Null,
            predecessor_jobs: vec![],
            storage_aliases: vec![],
        },
    );
    records
}

#[test]
fn catalogs_are_opened_before_one_is_chosen() {
    let none = Table::new();
    let mut list = vec![archived("old", 1, "{}"), archived("new", 2, "{}")];
    let mut catalogs = vec![catalog("old"), catalog("new")];
    assert!(matches!(choose_catalog(&catalogs, &list, &none), Ok(Choice::Chosen(1))));
    catalogs[1].manifest = None;
    assert!(matches!(choose_catalog(&catalogs, &list, &none), Ok(Choice::Open(1))));
    catalogs[1].manifest = Some(facts("other"));
    assert_eq!(
        choose_catalog(&catalogs, &list, &none).unwrap_err(),
        "archive: catalog disagrees with lineage manifest"
    );
    catalogs[1].denied = Some("not permitted".into());
    assert_eq!(choose_catalog(&catalogs, &list, &none).unwrap_err(), "not permitted");
    list[0] = archived("old", 1, r#"{"ancestors":["new"]}"#);
    assert!(matches!(choose_catalog(&catalogs, &list, &none), Ok(Choice::Chosen(0))));
}

#[test]
fn a_migrated_catalog_is_borne_out_by_its_root_and_stream() {
    let records = records();
    let list = vec![archived("child", 2, r#"{"root_generation":"root"}"#)];
    let mut one = catalog("child");
    one.manifests = vec!["child".into(), "root".into(), "stream".into()];
    one.records = vec![Pinned {
        key: "records/migration.json".into(),
        bytes: 1,
        sha256: "x".into(),
    }];
    let mut catalogs = vec![one];
    assert!(matches!(
        choose_catalog(&catalogs, &list, &records),
        Ok(Choice::Root { catalog: 0, at: 1 })
    ));
    let root = |lineage: Result<Candidate, String>| PinnedRoot {
        permitted: Ok(()),
        manifest: facts("root"),
        lineage,
    };
    catalogs[0].root = Some(root(Err("unread".into())));
    assert_eq!(choose_catalog(&catalogs, &list, &records).unwrap_err(), "unread");
    let lineage = archived("root", 1, r#"{"v1_generations":["v1"]}"#).entry;
    catalogs[0].root = Some(root(Ok(lineage)));
    assert!(matches!(
        choose_catalog(&catalogs, &list, &records),
        Ok(Choice::Stream { catalog: 0, at: 3 })
    ));
    let stream = |source: &str| PinnedStream {
        permitted: Ok(()),
        manifest: facts("stream"),
        source_generation: source.into(),
    };
    catalogs[0].bound_stream = Some(stream("other"));
    assert_eq!(
        choose_catalog(&catalogs, &list, &records).unwrap_err(),
        "migration stream does not bind its daily continuation root"
    );
    catalogs[0].bound_stream = Some(stream("root"));
    assert!(matches!(choose_catalog(&catalogs, &list, &records), Ok(Choice::Chosen(0))));
    catalogs[0].manifests = vec!["child".into(), "root".into()];
    assert_eq!(
        choose_catalog(&catalogs, &list, &records).unwrap_err(),
        "catalog omits the verified migration stream"
    );
    catalogs[0].manifests = vec!["child".into()];
    assert_eq!(
        choose_catalog(&catalogs, &list, &records).unwrap_err(),
        "catalog omits the verified migration root"
    );
}

#[test]
fn a_pinned_record_is_read_once() {
    let pinned = |key: &str, contents: &[u8]| Pinned {
        key: key.into(),
        bytes: contents.len() as u64,
        sha256: digest(contents),
    };
    let mut read: Table<Vec<u8>> = Table::new();
    let entry = pinned("records/a.json", b"{}");
    assert_eq!(record_step(&read, &entry), Ok(RecordStep::Read));
    read.insert("a.json".to_string(), b"{}".to_vec());
    assert_eq!(record_step(&read, &entry), Ok(RecordStep::Known));
    assert_eq!(
        record_step(&read, &pinned("records/a.json", b"[]")).unwrap_err(),
        "archive: lineage bytes disagree with the pinned manifest"
    );
    assert_eq!(record_step(&read, &pinned("records/a.bin", b"")), Ok(RecordStep::Skip));
    assert!(record_step(&read, &pinned("other/a.json", b"")).is_err());
}
