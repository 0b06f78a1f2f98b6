//! Importing datasets: inventories, daily archives, bars, and publication.

use binary_alpha::config::{
    check_adapter, check_backend, check_features, check_live, check_mapped, check_replayed,
    declared_broker, skeleton, validation_report, Backend, BrokerKind, Config, DeclaredBroker,
};
use binary_alpha::dataset::{
    same_result, Capability, GenerationManifest, IntervalContract, ObjectIdentity, ObjectRecord,
    ObjectRole, PriceRepresentation, RowSummary, SourceKind, Subject, TimeUnit,
};
use binary_alpha::digest::digest;
use binary_alpha::import::bars::{check_retained, validate_bars, BarSummary, DataSummary};
use binary_alpha::import::collection::{
    check_contract, check_listed, expectation, interval_contract, inventory, symbol_id,
    ListedFile, PlannedFile,
};
use binary_alpha::import::daily::{
    check_day, check_day_rows, daily_file, note_file, DailyMetadata, DailyPlan, Day, DayFiles,
};
use binary_alpha::import::paths::{
    check_root, check_sources, contained_dir, contained_file, dataset_prefix, object_path,
    regular_file, visit, FileKind, ResolvedPath, Visit,
};
use binary_alpha::import::publish::{
    check_committed, check_header, check_parsed, describe, file_inputs, file_records,
    import_manifest, interval_provenance, ready_bytes, report, row_error, Data,
};
use binary_alpha::lineage::json::{parse, Json};
use binary_alpha::market::{DatasetRole, NativeGranularity};
use binary_alpha::table::Table;

/// A tick manifest with one source object carrying the given destination metadata.
fn manifest(crc32c: Option<u32>, generation: Option<i64>) -> GenerationManifest {
    let sha256 = "a".repeat(64);
    GenerationManifest {
        generation: "g".repeat(64),
        broker: "b".to_string(),
        provider_symbol: "s".to_string(),
        instrument: "b:s".to_string(),
        role: DatasetRole::Development,
        source_kind: SourceKind::TickCsv,
        native_granularity: NativeGranularity::Tick,
        time_unit: TimeUnit::Microsecond,
        price_representation: PriceRepresentation::IntegerUnits { scale: 6 },
        layout: None,
        row_count: 2,
        first_event_time: 0,
        last_event_time: 1_000_000,
        capabilities: vec![Capability::Ticks],
        config_hash: "c".to_string(),
        code_revision: "r".to_string(),
        inputs: vec![],
        interval: None,
        objects: vec![ObjectRecord {
            role: ObjectRole::Source,
            path: "ticks.csv".to_string(),
            key: format!("objects/{sha256}"),
            bytes: 1,
            sha256,
            crc32c,
            generation,
        }],
    }
}

#[test]
fn committed_manifests_must_match_the_fresh_result_and_reported_metadata() {
    let identities = vec![ObjectIdentity { bytes: 1, sha256: "a".repeat(64), crc32c: 7 }];
    let filesystem = manifest(None, None);
    let google = manifest(Some(7), Some(3));
    assert!(same_result(&manifest(None, None), &filesystem, &identities));
    assert!(
        same_result(&manifest(Some(7), Some(3)), &filesystem, &identities),
        "Google provenance in a filesystem mirror is compared against the bytes only"
    );
    assert!(
        !same_result(&manifest(Some(8), None), &filesystem, &identities),
        "a recorded checksum must match the bytes"
    );
    assert!(same_result(&manifest(Some(7), Some(3)), &google, &identities));
    assert!(
        !same_result(&manifest(None, Some(3)), &google, &identities),
        "a checksum the destination reports must be recorded"
    );
    assert!(
        !same_result(&manifest(Some(7), Some(4)), &google, &identities),
        "a reported generation must match the record"
    );
    let mut rows = manifest(None, None);
    rows.row_count += 1;
    assert!(!same_result(&rows, &filesystem, &identities));
    let mut role = manifest(None, None);
    role.role = DatasetRole::Evaluation;
    assert!(!same_result(&role, &filesystem, &identities));
    assert!(check_committed(&filesystem, &manifest(None, None), &identities, "u").is_ok());
    assert_eq!(
        check_committed(&rows, &filesystem, &identities, "u").unwrap_err(),
        "u records a different generation, object set, row count, or coverage than this import produced"
    );
}

#[test]
fn a_committed_import_is_mirrored_and_another_result_is_refused() {
    let identities = vec![ObjectIdentity { bytes: 1, sha256: "a".repeat(64), crc32c: 7 }];
    let fresh = manifest(None, None);
    let ready = |committed| ready_bytes(committed, &fresh, b"fresh".to_vec(), &identities, "u");
    assert_eq!(ready(None), Ok(b"fresh".to_vec()));
    assert_eq!(ready(Some((manifest(Some(7), None), b"kept".to_vec()))), Ok(b"kept".to_vec()));
    let refused = Err(
        "u records a different generation, object set, row count, or coverage than this import produced"
            .to_string(),
    );
    let mut other = manifest(None, None);
    other.row_count += 1;
    assert_eq!(ready(Some((other, b"kept".to_vec()))), refused);
    for change in 0..6 {
        let mut other = manifest(None, None);
        match change {
            0 => other.generation = "h".repeat(64),
            1 => other.first_event_time += 1,
            2 => other.last_event_time += 1,
            3 => other.role = DatasetRole::Evaluation,
            4 => other.interval = Some(interval()),
            _ => other.objects.clear(),
        }
        assert_eq!(ready(Some((other, b"kept".to_vec()))), refused, "change {change}");
    }
}

#[test]
fn an_import_names_what_it_was_made_of() {
    let files = vec![
        PlannedFile {
            role: ObjectRole::Source,
            path: "ticks.csv".into(),
            absolute: "/data/ticks.csv".into(),
        },
        PlannedFile {
            role: ObjectRole::Provenance,
            path: "collection/assets.json".into(),
            absolute: "/data/assets.json".into(),
        },
    ];
    let identities = vec![
        ObjectIdentity { bytes: 4, sha256: "a".repeat(64), crc32c: 7 },
        ObjectIdentity { bytes: 5, sha256: "b".repeat(64), crc32c: 8 },
    ];
    let objects = file_records(&files, &identities);
    assert_eq!(objects.len(), 2);
    assert_eq!(objects[1].role, ObjectRole::Provenance);
    assert_eq!(objects[1].path, "collection/assets.json");
    assert_eq!(objects[1].key, format!("objects/{}", "b".repeat(64)));
    assert_eq!((objects[1].bytes, objects[1].crc32c, objects[1].generation), (5, None, None));
    let inputs = file_inputs(&files, &identities);
    assert_eq!((inputs[0].path.as_str(), inputs[0].bytes), ("/data/ticks.csv", 4));
    assert_eq!(inputs[1].sha256, "b".repeat(64));
    let manifest = import_manifest(
        Subject {
            broker: "b".into(),
            provider_symbol: "s".into(),
            instrument: "b:s".into(),
            role: DatasetRole::Evaluation,
            config_hash: "config".into(),
            code_revision: "revision".into(),
        },
        "g".into(),
        describe(Data::TickCsv { scale: 5 }),
        RowSummary { rows: 9, first_event_time: 1, last_event_time: 2 },
        &files,
        &identities,
        objects,
    );
    assert_eq!((manifest.generation.as_str(), manifest.instrument.as_str()), ("g", "b:s"));
    assert_eq!(manifest.role, DatasetRole::Evaluation);
    assert_eq!(manifest.source_kind, SourceKind::TickCsv);
    assert_eq!(manifest.price_representation, PriceRepresentation::IntegerUnits { scale: 5 });
    assert_eq!((manifest.row_count, manifest.first_event_time, manifest.last_event_time), (9, 1, 2));
    assert_eq!((manifest.config_hash.as_str(), manifest.code_revision.as_str()), ("config", "revision"));
    assert_eq!((manifest.inputs.len(), manifest.objects.len()), (2, 2));
    assert!(manifest.layout.is_none());
}

fn path(text: &str) -> ResolvedPath {
    ResolvedPath {
        parts: text.split('/').filter(|part| !part.is_empty()).map(String::from).collect(),
        shown: text.into(),
    }
}

#[test]
fn sources_lie_apart_from_destinations() {
    let protected = vec![path("/data/history")];
    assert!(check_root(&path("/src/a"), &vec![path("/src/b")], &protected).is_ok());
    assert_eq!(
        check_root(&path("/src/a"), &vec![path("/src/a")], &protected).unwrap_err(),
        "source /src/a is declared twice"
    );
    assert_eq!(
        check_root(&path("/data/history/x"), &vec![], &protected).unwrap_err(),
        "source /data/history/x lies inside the historical-data folder or the file destination"
    );
    assert!(check_root(&path("/data/historyx"), &vec![], &protected).is_ok());
    let root = path("/src");
    assert!(contained_dir("a", &path("/src/a"), &root, &protected).is_ok());
    assert_eq!(
        contained_dir("a", &path("/else/a"), &root, &protected).unwrap_err(),
        "a resolves to /else/a, outside the root /src"
    );
    assert_eq!(
        contained_dir("a", &path("/data"), &path("/"), &protected).unwrap_err(),
        "a resolves to /data, which overlaps the historical-data folder or the file destination"
    );
    assert!(contained_file("a", &path("/data"), &path("/"), &protected).is_ok());
    assert_eq!(
        contained_file("a", &path("/data/history/f"), &path("/"), &protected).unwrap_err(),
        "a resolves to /data/history/f, inside the historical-data folder or the file destination"
    );
}

#[test]
fn object_paths_hold_no_control_characters() {
    assert_eq!(object_path("a/b\u{e9}.csv"), Ok("a/b\u{e9}.csv".into()));
    for text in ["a\nb", "\u{7f}", "tab\t\"q\" \u{e9}\u{1f600}\u{1}"] {
        assert_eq!(
            object_path(text).unwrap_err(),
            format!("object path `{}` contains a control character", text.escape_default())
        );
    }
}

fn planned(role: ObjectRole, name: &str) -> PlannedFile {
    PlannedFile { role, path: name.into(), absolute: format!("/root/{name}") }
}

#[test]
fn inventories_name_every_file_once() {
    let listed = vec![planned(ObjectRole::Source, "bars/1.parquet")];
    let walked = vec![
        planned(ObjectRole::Source, "bars/1.parquet"),
        planned(ObjectRole::Source, "notes.txt"),
    ];
    let collection = vec![planned(ObjectRole::Provenance, "collection/list.json")];
    let files = inventory("asset", &listed, &walked, &collection).unwrap();
    assert_eq!(
        files.iter().map(|file| (file.role, file.path.as_str())).collect::<Vec<_>>(),
        [
            (ObjectRole::Source, "bars/1.parquet"),
            (ObjectRole::Provenance, "notes.txt"),
            (ObjectRole::Provenance, "collection/list.json"),
        ]
    );
    assert_eq!(
        inventory("asset", &listed, &vec![planned(ObjectRole::Source, "collection/list.json")], &collection)
            .unwrap_err(),
        "asset: object path collection/list.json is inventoried twice"
    );
    assert_eq!(
        check_listed(&listed, "bars/1.parquet", "m").unwrap_err(),
        "m lists bars/1.parquet twice"
    );
    assert!(check_listed(&listed, "bars/2.parquet", "m").is_ok());
    assert_eq!(symbol_id(Some(1), Some(2), "m", "asset"), Ok(1));
    assert_eq!(symbol_id(None, Some(2), "m", "asset"), Ok(2));
    assert_eq!(
        symbol_id(None, None, "m", "asset").unwrap_err(),
        "m: the collection manifest records no symbol identifier for asset"
    );
}

fn contract(offset: &str) -> Json {
    parse(
        format!(
            "{{\"closed\":\"left\",\"frequency\":\"5s\",\"interval\":\"i\",\"label\":\"left\",\"offset_seconds\":{offset},\"origin\":\"epoch\",\"timestamp_semantics\":\"start\"}}"
        )
        .as_bytes(),
    )
    .unwrap()
}

#[test]
fn interval_contracts_are_declared_whole() {
    let found = interval_contract("asset", &contract("-7200"), "p").unwrap();
    assert_eq!((found.offset_seconds, found.closed.as_str()), (-7200, "left"));
    assert_eq!(found.provenance, "p");
    for offset in ["null", "1.5", "9223372036854775808", "\"0\""] {
        assert_eq!(
            interval_contract("asset", &contract(offset), "p").unwrap_err(),
            "asset: interval contract `offset_seconds` is missing"
        );
    }
    assert_eq!(
        interval_contract("asset", &contract("-9223372036854775808"), "p").unwrap().offset_seconds,
        i64::MIN
    );
    assert_eq!(
        interval_contract("asset", &Json::Object(vec![]), "p").unwrap_err(),
        "asset: interval contract `closed` is missing"
    );
    assert_eq!(
        check_contract("asset", &Some("not approved".into())).unwrap_err(),
        "asset: not approved"
    );
    let declared =
        interval_contract("asset", &contract("0"), "manifest_and_parquet_metadata").unwrap();
    let expected = expectation("asset", 3, 7200, declared);
    assert!(expected.metadata_required);
    assert_eq!((expected.period_s, expected.symbol_id), (5, Some(3)));
}

#[test]
fn daily_names_give_dates() {
    assert_eq!(
        daily_file("EURUSD", "EURUSD_2026-01-02_ticks.parquet"),
        Some(("2026-01-02", true))
    );
    assert_eq!(
        daily_file("EURUSD", "EURUSD_2026-01-02_ticks.meta.json"),
        Some(("2026-01-02", false))
    );
    for name in [
        "EURUSD_2026-1-2_ticks.parquet",
        "GBPUSD_2026-01-02_ticks.parquet",
        "EURUSD2026-01-02_ticks.parquet",
        "EURUSD_2026-01-02_ticks.csv",
        "EURUSD_2026-01-0\u{e9}_ticks.parquet",
    ] {
        assert_eq!(daily_file("EURUSD", name), None, "{name}");
    }
    assert_eq!(
        daily_file("EURUSD", "EURUSD_2026-01-\u{e9}_ticks.parquet"),
        Some(("2026-01-\u{e9}", true))
    );
}

#[test]
fn daily_archives_are_planned_day_by_day() {
    let mut days: Table<DayFiles> = Table::new();
    note_file(&mut days, "N", "N_2026-01-02_ticks.parquet", "/d/p").unwrap();
    note_file(&mut days, "N", "N_2026-01-02_ticks.meta.json", "/d/m").unwrap();
    assert_eq!(
        note_file(&mut days, "N", "other", "/d/other").unwrap_err(),
        "/d/other is not `N_YYYY-MM-DD_ticks.parquet` or `N_YYYY-MM-DD_ticks.meta.json`"
    );
    let files = days.get("2026-01-02").unwrap();
    assert!(check_day("/d", "2026-01-02", Some(0), files).is_ok());
    assert_eq!(
        check_day("/d", "2026-99-02", None, files).unwrap_err(),
        "/d: `2026-99-02` is not a calendar date"
    );
    let lone = DayFiles { parquet: files.parquet.clone(), metadata: None };
    assert_eq!(
        check_day("/d", "2026-01-02", Some(0), &lone).unwrap_err(),
        "/d/p has no metadata file"
    );
    let record = |symbol: &str, ticks| DailyMetadata {
        symbol: symbol.into(),
        date: "2026-01-02".into(),
        calendar: "UTC".into(),
        ticks,
    };
    let metadata = files.metadata.as_ref().unwrap();
    let mut plan = DailyPlan::new();
    assert_eq!(
        plan.accept_day("2026-01-02", 5, &None, metadata, b"{}", &record("S", 3)).unwrap_err(),
        "/d/m records 3 ticks but the day has no Parquet file"
    );
    plan.accept_day("2026-01-02", 5, &files.parquet, metadata, b"{}", &record("S", 3)).unwrap();
    assert_eq!(plan.parsed, vec![("N_2026-01-02_ticks.meta.json".to_string(), digest(b"{}"))]);
    assert_eq!(
        plan.accept_day("2026-01-02", 5, &files.parquet, metadata, b"{}", &record("T", 3))
            .unwrap_err(),
        "/d/m records symbol `T`, but the directory's earlier days record `S`"
    );
    assert_eq!(
        plan.accept_day("2026-01-03", 5, &files.parquet, metadata, b"{}", &record("S", 3))
            .unwrap_err(),
        "/d/m records calendar `UTC` and date `2026-01-02`, expected `UTC` and `2026-01-03`"
    );
    let (symbol, planned) = plan.finish("/d").unwrap();
    assert_eq!(symbol, "S");
    assert_eq!(
        planned.iter().map(|file| file.path.as_str()).collect::<Vec<_>>(),
        ["N_2026-01-02_ticks.parquet", "N_2026-01-02_ticks.meta.json"]
    );
    assert_eq!(
        DailyPlan::new().finish("/d").unwrap_err(),
        "/d holds no daily Parquet file"
    );
    let day = Day { path: "p".into(), start_micros: 0, ticks: 3 };
    assert!(check_day_rows(&day, 3).is_ok());
    assert_eq!(
        check_day_rows(&day, 2).unwrap_err(),
        "p: 2 rows, metadata records 3 ticks"
    );
}

fn bars(rows: u64, first: i64, last: i64, embedded_interval: bool) -> BarSummary {
    BarSummary {
        data: DataSummary {
            rows,
            first_event_micros: Some(first),
            last_event_micros: Some(last),
        },
        embedded_interval,
    }
}

fn listed(name: &str, rows: u64) -> ListedFile {
    ListedFile { path: name.into(), bytes: 1, rows, sha256: "a".repeat(64) }
}

#[test]
fn bar_files_follow_each_other() {
    let list = vec![listed("1", 2), listed("2", 3)];
    let (total, embedded) =
        validate_bars("b:s", &list, &vec![bars(2, 0, 5, true), bars(3, 6, 9, false)], 5).unwrap();
    assert_eq!(total.rows, 5);
    assert_eq!((total.first_event_micros, total.last_event_micros), (Some(0), Some(9)));
    assert!(!embedded);
    assert_eq!(
        validate_bars("b:s", &list, &vec![bars(2, 0, 5, true), bars(3, 5, 9, true)], 5)
            .unwrap_err(),
        "2: starts at or before the previous file's last bar"
    );
    assert_eq!(
        validate_bars("b:s", &list, &vec![bars(1, 0, 5, true), bars(3, 6, 9, true)], 5)
            .unwrap_err(),
        "1: 1 rows, listed 2"
    );
    assert_eq!(
        validate_bars("b:s", &list, &vec![bars(2, 0, 5, true), bars(3, 6, 9, true)], 6)
            .unwrap_err(),
        "b:s: 5 rows across listed files, recorded 6"
    );
    let mut records = manifest(None, None).objects;
    assert!(check_retained(&records, &list).is_ok());
    records[0].bytes = 2;
    assert_eq!(
        check_retained(&records, &list).unwrap_err(),
        format!(
            "1: 2 bytes and SHA-256 {} do not match the listed 1 bytes and {}",
            "a".repeat(64),
            "a".repeat(64)
        )
    );
}

#[test]
fn parsed_files_must_not_change() {
    let objects = manifest(None, None).objects;
    assert!(check_parsed(&objects, &vec![("ticks.csv".into(), "a".repeat(64))]).is_ok());
    assert!(check_parsed(&objects, &vec![("absent".into(), "b".repeat(64))]).is_ok());
    assert_eq!(
        check_parsed(&objects, &vec![("ticks.csv".into(), "b".repeat(64))]).unwrap_err(),
        "ticks.csv changed after its expectations were read; nothing was published"
    );
}

fn interval() -> IntervalContract {
    IntervalContract {
        closed: "left".into(),
        frequency: "5s".into(),
        interval: "5s".into(),
        label: "left".into(),
        offset_seconds: 0,
        origin: "epoch".into(),
        timestamp_semantics: "start".into(),
        provenance: "manifest".into(),
    }
}

#[test]
fn data_decides_how_a_dataset_is_described() {
    let csv = describe(Data::TickCsv { scale: 6 });
    assert_eq!(csv.source_kind, SourceKind::TickCsv);
    assert_eq!(csv.scale, Some(6));
    assert_eq!(csv.native_granularity, NativeGranularity::Tick);
    assert_eq!(csv.time_unit, TimeUnit::Microsecond);
    assert_eq!(csv.price_representation, PriceRepresentation::IntegerUnits { scale: 6 });
    assert!(csv.interval.is_none());
    assert_eq!(csv.capability, Capability::Ticks);
    let daily = describe(Data::TickDaily { scale: 3 });
    assert_eq!(daily.source_kind, SourceKind::TickParquetDaily);
    assert_eq!(daily.price_representation, PriceRepresentation::IntegerUnits { scale: 3 });
    let bars = |all_embedded| {
        describe(Data::Bars { period_seconds: 5, interval: interval(), all_embedded })
    };
    let declared = bars(false);
    assert_eq!(declared.source_kind, SourceKind::BarParquet);
    assert_eq!(declared.scale, None);
    assert_eq!(declared.native_granularity, NativeGranularity::Bar { period_seconds: 5 });
    assert_eq!(declared.time_unit, TimeUnit::Second);
    assert_eq!(declared.price_representation, PriceRepresentation::BinaryFloat);
    assert_eq!(declared.capability, Capability::Bars);
    assert_eq!(declared.interval.unwrap().provenance, "manifest");
    assert_eq!(bars(true).interval.unwrap().provenance, "parquet_metadata");
}

#[test]
fn imports_report_what_they_published() {
    assert_eq!(
        report("b:s", "development", "g", 2, 3, 1, None),
        "published b:s development generation g rows 2 objects 3 reused 1 (already published)"
    );
    assert_eq!(
        report("b:s", "development", "g", 2, 3, 1, Some("hash 0.001s")),
        "published b:s development generation g rows 2 objects 3 reused 1 [hash 0.001s]"
    );
    assert_eq!(interval_provenance(true, "manifest"), "parquet_metadata");
    assert_eq!(interval_provenance(false, "manifest"), "manifest");
    assert!(check_header("f", Some("h"), "h").is_ok());
    assert_eq!(check_header("f", None, "h").unwrap_err(), "f is empty");
    assert_eq!(check_header("f", Some("x"), "h").unwrap_err(), "f header `x` is not `h`");
    assert_eq!(row_error("f", 0, "bad"), "f row 1: bad");
}

#[test]
fn a_skeleton_keeps_only_the_base() {
    let config = Config {
        schema: "1".into(),
        run_mode: "research".into(),
        storage: "store".into(),
        import: Some(Json::Null),
        instruments: vec![Json::Null],
        features: Some(Json::Null),
        outcomes: None,
        replay: None,
        accelerator: Some(Backend::Cuda),
        search: None,
        portfolio: None,
        brokers: vec![Json::Null],
        history: Some(Json::Null),
        inspect: None,
    };
    let base = skeleton(&config);
    assert_eq!((base.schema.as_str(), base.storage.as_str()), ("1", "store"));
    assert!(base.import.is_none() && base.history.is_none() && base.accelerator.is_none());
    assert!(base.instruments.is_empty() && base.brokers.is_empty());
    assert!(check_backend(config.accelerator, true).is_ok());
    assert!(check_backend(Some(Backend::Cpu), false).is_ok());
    assert!(check_backend(config.accelerator, false).is_err());
    assert_eq!(validation_report("h", "a = 1\n"), "# content-hash: h\na = 1\n");
}

#[test]
fn walks_keep_regular_files_and_refuse_links() {
    assert_eq!(visit("p", FileKind::Directory), Ok(Visit::Descend));
    assert_eq!(visit("p", FileKind::Regular), Ok(Visit::Keep));
    assert_eq!(visit("p", FileKind::Other), Ok(Visit::Skip));
    let link = "p is a symbolic link; declared inventories contain only regular files";
    assert_eq!(visit("p", FileKind::Link).unwrap_err(), link);
    assert_eq!(regular_file("p", FileKind::Link).unwrap_err(), link);
    assert_eq!(regular_file("p", FileKind::Other).unwrap_err(), "p is not a regular file");
    assert_eq!(regular_file("p", FileKind::Regular), Ok(()));
}

#[test]
fn datasets_lie_beneath_their_asset() {
    let path = |parts: &[&str]| ResolvedPath {
        parts: parts.iter().map(|part| part.to_string()).collect(),
        shown: format!("/{}", parts.join("/")),
    };
    let asset = path(&["data", "EURUSD"]);
    assert_eq!(
        dataset_prefix(&path(&["data", "EURUSD", "bars", "v1"]), &asset).unwrap(),
        ["bars", "v1"]
    );
    assert_eq!(
        dataset_prefix(&path(&["data", "GBPUSD"]), &asset).unwrap_err(),
        "dataset root /data/GBPUSD is outside its asset root /data/EURUSD"
    );
    assert_eq!(
        check_sources(0).unwrap_err(),
        "import.sources must declare at least one entry"
    );
    assert_eq!(check_sources(1), Ok(()));
}

#[test]
fn a_command_needs_its_tables_and_its_broker() {
    let brokers = vec![
        DeclaredBroker { id: "deriv".into(), kind: BrokerKind::Deriv },
        DeclaredBroker { id: "pocket".into(), kind: BrokerKind::PocketOption },
    ];
    assert_eq!(declared_broker("fetch", &brokers, "pocket"), Ok(BrokerKind::PocketOption));
    assert_eq!(
        declared_broker("fetch", &brokers, "other").unwrap_err(),
        "fetch: broker is not declared"
    );
    assert_eq!(
        declared_broker("inspect", &vec![], "deriv").unwrap_err(),
        "inspect: broker is not declared"
    );
    assert!(check_adapter(&brokers, "deriv").is_ok());
    for id in ["pocket", "other"] {
        assert_eq!(
            check_adapter(&brokers, id).unwrap_err(),
            "live: only the current Deriv options adapter is supported"
        );
    }
    assert!(check_replayed(&brokers, "deriv").is_ok());
    assert_eq!(check_replayed(&brokers, "other").unwrap_err(), "live: broker missing");
    assert_eq!(check_replayed(&brokers, "pocket").unwrap_err(), "live: Deriv broker required");
    assert_eq!(check_features(Some(2)), Ok(2));
    for entries in [None, Some(0)] {
        assert_eq!(
            check_features(entries).unwrap_err(),
            "features.instruments: at least one entry is required"
        );
    }
    assert!(check_live(true, false, false).is_ok());
    assert!(check_live(true, true, true).is_ok());
    assert_eq!(check_live(false, true, true).unwrap_err(), "live: the table is required");
    assert_eq!(
        check_live(true, true, false).unwrap_err(),
        "live replay: live.replay is required"
    );
    assert!(check_mapped("b:s", true).is_ok());
    assert_eq!(check_mapped("b:s", false).unwrap_err(), "no configured instrument maps b:s");
}
