//! Feature generations: parallelism, reuse, tables, and verification.

use binary_alpha::dataset::{ObjectIdentity, ObjectRecord, ObjectRole};
use binary_alpha::digest::digest;
use binary_alpha::features::fit::{
    build_start, check_object_set, check_same_profile, fit_column, input_column, profile_object,
    BuildStart, EncodingInput, RowTable,
};
use binary_alpha::features::generation::{
    check_committed, check_decisions, check_observed, check_table, code_rows, commit, decision_bounds,
    expected_tables, feature_manifest, fit_jobs, live_fit_columns, mask_unready,
    normalized_records, note_puts, publication, ready_bytes, report, same_object_set,
    verified_report, BuildFacts, Coverage, Put, StreamFiles, TableFacts,
};
use binary_alpha::features::parallel::{available_memory, FeatureParallelism};
use binary_alpha::features::plan::{
    check_feature, check_frozen_plan, check_input, check_input_kind, check_new_plan,
    check_profile, check_profile_source, check_ready, claim_streams, plan_describes,
    FeatureManifest, InputManifest, PlanFacts, ProfileManifest, StreamSummary,
};
use binary_alpha::features::reuse::{
    check_frozen_ready, check_receipt, fit_receipt_key, reuse_fit, reused_feature, writes_receipt,
    FitReceipt, FitRequest, FrozenRequest,
};
use binary_alpha::features::table::{
    sequence_columns, sequence_values, structure_columns, structure_values, Cell, SequenceEvent,
    StructureEvent, TableColumn, TableSubject, ColumnType, ROWS_MESSAGE,
};
use binary_alpha::live::rows::{FeatureValue, StreamKey};
use binary_alpha::market::{DatasetRole, NativeGranularity};
use binary_alpha::store::{put_new, Stored};
use binary_alpha::table::Table;

const ROW_GROUP: u64 = 8_192;

fn stream() -> StreamKey {
    StreamKey { duration_seconds: 60, offset_seconds: 0 }
}

fn object(path: &str) -> ObjectRecord {
    ObjectRecord {
        role: ObjectRole::Normalized,
        path: path.into(),
        key: format!("objects/{path}"),
        bytes: 1,
        sha256: "a".repeat(64),
        crc32c: None,
        generation: None,
    }
}

fn manifest() -> FeatureManifest {
    FeatureManifest {
        generation: "g".into(),
        key: "manifests/g/ready.json".into(),
        broker: "b".into(),
        provider_symbol: "s".into(),
        instrument: "b:s".into(),
        role: DatasetRole::Development,
        role_name: "development".into(),
        input_generation: "input".into(),
        plan_identity: "plan".into(),
        frozen_from: None,
        profile_generation: "profile".into(),
        config_hash: "hash".into(),
        code_revision: "revision".into(),
        observations: 9,
        streams: vec![StreamSummary {
            stream: stream(),
            rows: 3,
            structure_events: 2,
            sequence_events: 1,
            first_decision: Some(10),
            last_decision: Some(30),
        }],
        objects: vec![object("plan.json"), object("rows")],
    }
}

#[test]
fn fitting_and_encoding_use_their_own_live_memory() {
    let available = 1 << 30;
    let fit = FeatureParallelism::fit_bytes(1_000_000, 3);
    let encode = FeatureParallelism::encoding_bytes(ROW_GROUP, 4);
    assert_eq!(FeatureParallelism::memory_limit(available, 8, fit), 1);
    assert_eq!(FeatureParallelism::memory_limit(available, 8, encode), 8);
    assert_eq!(FeatureParallelism::memory_limit(available, 2, encode), 2);
    assert_eq!(FeatureParallelism::memory_limit(0, 8, encode), 1);
    assert_eq!(FeatureParallelism::encoding_bytes(ROW_GROUP, 8), encode * 2);
    let mut two = FeatureParallelism { limit: 2, active: 1 };
    assert_eq!(two.stream_tasks(), 2);
    assert!(two.try_acquire());
    assert!(!two.try_acquire());
    two.release();
    assert_eq!(two.active, 1);
}

#[test]
fn memory_is_read_from_the_system_report() {
    let report = "MemTotal:  100 kB\nMemAvailable:    2048 kB\nMemFree: 1 kB\n";
    assert_eq!(available_memory(Some(report)), 2_048 * 1_024);
    assert_eq!(available_memory(Some("MemAvailable: x\nMemAvailable: +3 kB")), 3 * 1_024);
    assert_eq!(available_memory(Some("MemTotal: 5 kB")), 1 << 30);
    assert_eq!(available_memory(Some("MemAvailable: 18446744073709551616 kB")), 1 << 30);
    assert_eq!(available_memory(None), 1 << 30);
    assert_eq!(FeatureParallelism::fit_bytes(u64::MAX, 2), u64::MAX);
}

#[test]
fn event_rows_line_up_with_their_columns() {
    let structure = StructureEvent {
        event_id: 1,
        event_type: "swing",
        direction: "up",
        event_close_micros: 10,
        confirm_close_micros: 20,
        known_at_micros: 21,
        event_row: 2,
        confirm_row: 3,
        event_candle_ordinal: 4,
        confirm_candle_ordinal: 5,
        price_units: 100,
        level_units: 101,
        reference: "none",
        reference_close_micros: None,
    };
    let columns = structure_columns();
    let row = structure_values(&structure);
    assert_eq!((columns.len(), row.len()), (14, 14));
    assert_eq!(columns[1].name, "event_type");
    assert!(matches!(&row[1], Some(Cell::Text(text)) if text == "swing"));
    assert!(row[13].is_none());
    let sequence = SequenceEvent {
        event_id: 1,
        row: 2,
        candle_ordinal: 3,
        decision_close_micros: 4,
        known_at_micros: 5,
        swing_event_type: "confirmed",
        swing_type: "high",
        swing_price_units: 6,
        swing_event_close_micros: 7,
        swing_confirm_close_micros: 8,
        previous_price_units: Some(9),
        previous_event_close_micros: None,
        previous_confirm_close_micros: None,
        sequence_after: "up",
        bias_after: "long",
    };
    let columns = sequence_columns();
    let row = sequence_values(&sequence);
    assert_eq!((columns.len(), row.len()), (15, 15));
    assert_eq!(columns[14].name, "bias_after");
    assert!(matches!(row[10], Some(Cell::Int(9))));
}

#[test]
fn a_stream_has_one_owner() {
    let mut owners = Table::new();
    let streams = vec![stream(), StreamKey { duration_seconds: 300, offset_seconds: 60 }];
    assert!(claim_streams(&mut owners, 0, "b:s", "development", &streams).is_ok());
    assert!(claim_streams(&mut owners, 1, "b:s", "evaluation", &streams).is_ok());
    assert_eq!(
        claim_streams(&mut owners, 2, "b:s", "development", &streams[1..].to_vec()).unwrap_err(),
        "features.instruments[2]: b:s development 300s/60s is already owned by features.instruments[0]"
    );
}

fn input() -> InputManifest {
    InputManifest {
        generation: "input".into(),
        key: "k".into(),
        role: DatasetRole::Development,
        role_name: "development".into(),
        instrument: "b:s".into(),
        broker: "b".into(),
        provider_symbol: "s".into(),
        native_granularity: NativeGranularity::Tick,
        granularity_name: "tick".into(),
    }
}

fn profile() -> ProfileManifest {
    ProfileManifest {
        generation: "profile".into(),
        key: "p".into(),
        role: DatasetRole::Development,
        role_name: "development".into(),
        instrument: "b:s".into(),
        broker: "b".into(),
        provider_symbol: "s".into(),
        native_granularity: NativeGranularity::Tick,
        granularity_name: "tick".into(),
        source_generation: "input".into(),
        profile_source: "input".into(),
    }
}

#[test]
fn inputs_are_refused_before_anything_is_read() {
    assert!(check_input_kind("u", &None).is_ok());
    assert_eq!(
        check_input_kind("u", &Some("feature".into())).unwrap_err(),
        "input_manifest: u is a `feature` manifest, not a dataset ready manifest"
    );
    let role = DatasetRole::Development;
    assert!(check_input("u", "k", role, "development", &input(), &None).is_ok());
    assert_eq!(
        check_input("u", "x", role, "development", &input(), &None).unwrap_err(),
        "input_manifest: u holds the manifest of generation input"
    );
    let mut held = input();
    held.role = DatasetRole::Holdout;
    held.role_name = "holdout".into();
    assert_eq!(
        check_input("u", "k", DatasetRole::Holdout, "holdout", &held, &Some("no grant".into()))
            .unwrap_err(),
        "input_manifest: holdout data never enters a feature build; no grant"
    );
    assert_eq!(
        check_input("u", "k", role, "development", &held, &None).unwrap_err(),
        "role: declared `development`, but generation input is `holdout`"
    );
    assert!(check_profile("u", "p", true, &profile(), &None, &input()).is_ok());
    assert_eq!(
        check_profile("u", "p", false, &profile(), &None, &input()).unwrap_err(),
        "profile_manifest: u is not an instrument stream manifest"
    );
    assert_eq!(
        check_profile("u", "p", true, &profile(), &Some("denied".into()), &input()).unwrap_err(),
        "profile_manifest: denied"
    );
    let mut other = profile();
    other.provider_symbol = "t".into();
    assert_eq!(
        check_profile("u", "p", true, &other, &None, &input()).unwrap_err(),
        "profile_manifest: the profile describes b:s at tick granularity, but the input is b:s at tick granularity"
    );
    let mut evaluation = profile();
    evaluation.role = DatasetRole::Evaluation;
    evaluation.role_name = "evaluation".into();
    assert_eq!(
        check_profile("u", "p", true, &evaluation, &None, &input()).unwrap_err(),
        "profile_manifest: the profile reference is development-only, but generation profile is `evaluation`"
    );
    let mut elsewhere = profile();
    elsewhere.source_generation = "other".into();
    assert!(check_profile_source(&elsewhere).is_err());
    assert_eq!(
        check_new_plan(&elsewhere, &input()).unwrap_err(),
        "input_manifest: a new plan fits on the generation its profile was built from (other), not input"
    );
    assert!(check_frozen_plan("a", "a").is_ok());
    assert!(check_frozen_plan("a", "b").is_err());
}

#[test]
fn feature_manifests_are_protected_by_role() {
    let found = manifest();
    let key = "manifests/g/ready.json";
    assert!(check_feature("frozen_plan", "u", key, true, &found, &Ok(None), &None).is_ok());
    assert_eq!(
        check_feature("frozen_plan", "u", key, false, &found, &Ok(None), &None).unwrap_err(),
        "frozen_plan: u is not a feature generation manifest"
    );
    assert_eq!(
        check_feature(
            "frozen_plan",
            "u",
            key,
            true,
            &found,
            &Ok(Some(DatasetRole::Holdout)),
            &Some("no grant".into())
        )
        .unwrap_err(),
        "frozen_plan: u: no grant"
    );
    assert_eq!(
        check_feature("f", "u", key, true, &found, &Err("undeclared".into()), &None).unwrap_err(),
        "undeclared"
    );
    assert!(check_ready("u", key, &found).is_ok());
    assert_eq!(check_ready("u", "x", &found).unwrap_err(), "u records another generation");
}

#[test]
fn a_plan_describes_its_manifest_or_nothing() {
    let facts = |fitted| PlanFacts {
        identity: "plan".into(),
        instrument: "b:s".into(),
        broker: "b".into(),
        provider_symbol: "s".into(),
        stream_generation: "profile".into(),
        fitted,
        streams: vec![stream()],
    };
    assert!(plan_describes(&facts(true), &manifest()).is_ok());
    assert!(plan_describes(&facts(false), &manifest()).is_err());
    let mut streams = facts(true);
    streams.streams.push(stream());
    assert!(plan_describes(&streams, &manifest()).is_err());
}

fn request() -> FitRequest {
    FitRequest {
        code_revision: "revision".into(),
        unfitted_plan_identity: "unfitted".into(),
        input_generation: "input".into(),
        profile_generation: "profile".into(),
        role: DatasetRole::Development,
    }
}

#[test]
fn a_fit_is_reused_only_for_its_request() {
    let bytes = b"request";
    assert_eq!(fit_receipt_key(bytes), format!("features/fits/{}", digest(bytes)));
    let receipt = |generation: String| FitReceipt {
        request_digest: digest(bytes),
        code_revision: "revision".into(),
        generation,
    };
    assert!(check_receipt(&receipt("a".repeat(64)), bytes, "revision", "u").is_ok());
    assert_eq!(
        check_receipt(&receipt("g".repeat(64)), bytes, "revision", "u").unwrap_err(),
        "immutable feature generation conflict: u does not match the fit request"
    );
    assert!(check_receipt(&receipt("a".repeat(63)), bytes, "revision", "u").is_err());
    assert!(check_receipt(&receipt("a".repeat(64)), b"other", "revision", "u").is_err());
    let verified = Ok("verified".to_string());
    assert_eq!(
        reuse_fit(&manifest(), &request(), "u", &verified, &Ok("unfitted".into())),
        Ok("verified".into())
    );
    assert_eq!(
        reuse_fit(&manifest(), &request(), "u", &verified, &Ok("other".into())).unwrap_err(),
        "immutable feature generation conflict: u has a different unfitted plan"
    );
    assert_eq!(
        reuse_fit(&manifest(), &request(), "u", &Err("corrupt".into()), &Ok("unfitted".into()))
            .unwrap_err(),
        "immutable feature generation conflict: corrupt"
    );
    assert!(writes_receipt(&manifest(), &Some(request()), "unfitted"));
    assert!(!writes_receipt(&manifest(), &Some(request()), "other"));
    assert!(!writes_receipt(&manifest(), &None, "unfitted"));
}

#[test]
fn dirty_revision_checks_existing_frozen_request_and_objects() {
    let mut ready = manifest();
    ready.frozen_from = Some("original-frozen-plan".into());
    let request = |frozen_from: &str| FrozenRequest {
        role: ready.role,
        input_generation: ready.input_generation.clone(),
        profile_generation: ready.profile_generation.clone(),
        frozen_from: frozen_from.into(),
        plan_identity: ready.plan_identity.clone(),
        code_revision: "test-dirty".into(),
    };
    let verified = Ok("verified".to_string());
    let mismatch =
        check_frozen_ready(&ready, &request("another-frozen-plan"), "u", &verified, true)
            .unwrap_err();
    assert!(mismatch.contains("immutable feature generation conflict"));
    assert!(mismatch.contains("does not match the frozen application request"));
    let corrupt = check_frozen_ready(
        &ready,
        &request("original-frozen-plan"),
        "u",
        &Err("corrupt".into()),
        true,
    )
    .unwrap_err();
    assert!(corrupt.contains("immutable feature generation conflict"));
    assert_eq!(
        check_frozen_ready(&ready, &request("original-frozen-plan"), "u", &verified, true),
        Ok(None)
    );
    let mut same = request("original-frozen-plan");
    same.code_revision = "revision".into();
    assert_eq!(
        check_frozen_ready(&ready, &same, "u", &verified, true),
        Ok(Some("verified".into()))
    );
    assert_eq!(check_frozen_ready(&ready, &same, "u", &verified, false), Ok(None));
}

#[test]
fn reports_count_rows_events_and_objects() {
    assert_eq!(
        reused_feature(&manifest(), "verified line"),
        "features b:s development generation g plan plan input input observations 9 rows 3 events 3 objects 2 reused 2 (already published)\nverified line"
    );
    assert_eq!(
        report(&manifest(), 1, Some("stream 1.000s"), "v"),
        "features b:s development generation g plan plan input input observations 9 rows 3 events 3 objects 2 reused 1 [stream 1.000s]\nv"
    );
    assert_eq!(
        verified_report(&manifest(), 77),
        "verified b:s development generation g rows 3 events 3 objects 2 bytes 77"
    );
}

#[test]
fn totals_follow_the_rows() {
    let mut summary = StreamSummary::empty(stream());
    summary.note_row(10);
    summary.note_row(30);
    summary.note_structure();
    summary.note_sequence();
    assert_eq!((summary.rows, summary.structure_events, summary.sequence_events), (2, 1, 1));
    assert_eq!((summary.first_decision, summary.last_decision), (Some(10), Some(30)));
    let cells = vec![None, Some(Cell::Time(10)), Some(Cell::Int(3)), Some(Cell::Time(30)), None];
    let bounds = decision_bounds(&cells);
    assert_eq!(bounds, (Some(10), Some(30)));
    assert!(check_decisions(bounds, &summary, "l").is_ok());
    assert_eq!(
        check_decisions((None, None), &summary, "l").unwrap_err(),
        "l: decision-time bounds disagree with the manifest"
    );
}

#[test]
fn everything_recorded_must_be_observed() {
    let coverage = |first: &str| Coverage {
        first_event_time: first.into(),
        last_event_time: "z".into(),
    };
    assert!(check_observed(4, &Some(coverage("a")), "shown", 4, &coverage("a")).is_ok());
    assert_eq!(
        check_observed(3, &Some(coverage("a")), "shown", 4, &coverage("a")).unwrap_err(),
        "input_manifest: observed 3 records from shown, but the manifest records 4 rows from a to z; nothing was published"
    );
    assert!(check_observed(4, &None, "None", 4, &coverage("a")).is_err());
    assert!(check_observed(4, &Some(coverage("b")), "shown", 4, &coverage("a")).is_err());
}

#[test]
fn fits_follow_the_plan_and_skip_unready_values() {
    assert_eq!(fit_jobs(&vec![2, 0, 1]), vec![(0, 0), (0, 1), (2, 0)]);
    assert_eq!(live_fit_columns(&vec![1, 4, 2]), 6);
    assert_eq!(live_fit_columns(&vec![]), 2);
    let mut column = vec![
        Some(FeatureValue::Text("up".into())),
        Some(FeatureValue::Text("not_ready".into())),
        Some(FeatureValue::Number(7)),
        None,
    ];
    let flags = vec![vec![
        Some(FeatureValue::Bool(true)),
        Some(FeatureValue::Bool(true)),
        Some(FeatureValue::Bool(false)),
        Some(FeatureValue::Bool(true)),
    ]];
    mask_unready(&mut column, &vec!["not_ready".into()], &flags);
    assert!(matches!(&column[0], Some(FeatureValue::Text(text)) if text == "up"));
    assert!(column[1].is_none() && column[2].is_none() && column[3].is_none());
    assert_eq!(
        code_rows(&vec![vec![1, 2], vec![3, 4], vec![5, 6]]),
        vec![vec![1, 3, 5], vec![2, 4, 6]]
    );
    assert!(code_rows(&vec![]).is_empty());
}

#[test]
fn objects_are_published_in_plan_order() {
    let (paths, files) = publication(
        "plan.json",
        "tmp/plan",
        &vec![StreamFiles {
            object_paths: vec!["r".into(), "st".into(), "sq".into(), "e".into()],
            tables: vec!["tmp/r".into(), "tmp/st".into(), "tmp/sq".into()],
            encoded: Some("tmp/e".into()),
        }],
    );
    assert_eq!(paths, ["plan.json", "r", "st", "sq", "e"]);
    assert_eq!(files, ["tmp/plan", "tmp/r", "tmp/st", "tmp/sq", "tmp/e"]);
    let mut objects = vec![object("a"), object("b")];
    let puts = vec![
        Put { reused: true, crc32c: Some(7), generation: None },
        Put { reused: false, crc32c: None, generation: Some(3) },
    ];
    assert_eq!(note_puts(&mut objects, &puts), 1);
    assert_eq!((objects[0].crc32c, objects[1].generation), (Some(7), Some(3)));
    assert!(same_object_set(&objects, &vec!["b".into(), "a".into()]));
    assert!(!same_object_set(&objects, &vec!["a".into(), "a".into()]));
    assert!(!same_object_set(&objects, &vec!["a".into()]));
}

#[test]
fn a_committed_generation_must_be_the_same() {
    let identities = vec![
        ObjectIdentity { bytes: 1, sha256: "a".repeat(64), crc32c: 7 },
        ObjectIdentity { bytes: 1, sha256: "a".repeat(64), crc32c: 7 },
    ];
    assert!(check_committed(&manifest(), &manifest(), &identities, "u").is_ok());
    let mut other = manifest();
    other.streams[0].rows += 1;
    assert_eq!(
        check_committed(&other, &manifest(), &identities, "u").unwrap_err(),
        "u records a different generation, object set, observation count, or streams than this build produced"
    );
    let fresh = ready_bytes(None, &manifest(), b"fresh".to_vec(), &identities, "u");
    assert_eq!(fresh, Ok(b"fresh".to_vec()));
    let kept = Some((manifest(), b"kept".to_vec()));
    let kept = ready_bytes(kept, &manifest(), b"fresh".to_vec(), &identities, "u");
    assert_eq!(kept, Ok(b"kept".to_vec()));
    let other = Some((other, b"kept".to_vec()));
    assert_eq!(
        ready_bytes(other, &manifest(), b"fresh".to_vec(), &identities, "u").unwrap_err(),
        "u records a different generation, object set, observation count, or streams than this build produced"
    );
}

#[test]
fn a_feature_manifest_says_what_it_was_built_of() {
    let identities = vec![
        ObjectIdentity { bytes: 3, sha256: "a".repeat(64), crc32c: 7 },
        ObjectIdentity { bytes: 4, sha256: "b".repeat(64), crc32c: 8 },
    ];
    let paths = vec!["plan.json".to_string(), "rows".to_string()];
    let objects = normalized_records(&paths, &identities);
    assert_eq!(objects[1].role, ObjectRole::Normalized);
    assert_eq!((objects[1].path.as_str(), objects[1].bytes), ("rows", 4));
    assert_eq!(objects[1].key, format!("objects/{}", "b".repeat(64)));
    let plan = PlanFacts {
        identity: "plan".into(),
        instrument: "b:s".into(),
        broker: "b".into(),
        provider_symbol: "s".into(),
        stream_generation: "profile".into(),
        fitted: true,
        streams: vec![stream()],
    };
    let built = feature_manifest(
        "g".into(),
        "manifests/g/ready.json".into(),
        &plan,
        &input(),
        &profile(),
        BuildFacts {
            frozen_from: Some("frozen".into()),
            config_hash: "hash".into(),
            code_revision: "revision".into(),
            observations: 9,
        },
        manifest().streams,
        objects,
    );
    assert_eq!((built.generation.as_str(), built.plan_identity.as_str()), ("g", "plan"));
    assert_eq!((built.input_generation.as_str(), built.profile_generation.as_str()), ("input", "profile"));
    assert_eq!(built.frozen_from.as_deref(), Some("frozen"));
    assert_eq!((built.config_hash.as_str(), built.code_revision.as_str()), ("hash", "revision"));
    assert_eq!((built.observations, built.streams.len(), built.objects.len()), (9, 1, 2));
}

#[test]
fn nothing_is_committed_before_it_is_verified() {
    let committed = commit(b"manifest".to_vec(), Ok("verified".into())).unwrap();
    assert_eq!((committed.bytes.as_slice(), committed.verified.as_str()), (&b"manifest"[..], "verified"));
    assert!(matches!(commit(b"manifest".to_vec(), Err("torn".into())), Err(reason) if reason == "torn"));
}

#[test]
fn tables_must_be_what_the_plan_says() {
    let subject = TableSubject {
        broker: "b".into(),
        provider_symbol: "s".into(),
        price_digits: 6,
        duration_seconds: 60,
        offset_seconds: 0,
        feature_schema_version: 2,
    };
    let tables = expected_tables(
        &subject,
        &manifest().streams[0],
        vec![TableColumn::new("close_time_micros", ColumnType::Time)],
        &vec!["code".into()],
        "raw",
        "plan",
    );
    assert_eq!(tables.len(), 4);
    assert_eq!(tables[0].message, ROWS_MESSAGE);
    assert_eq!((tables[0].rows, tables[1].rows, tables[2].rows, tables[3].rows), (3, 2, 1, 3));
    assert_eq!(tables[0].metadata[2], ("price_scale".to_string(), "6".to_string()));
    assert_eq!(tables[0].metadata[5], ("raw_identity".to_string(), "raw".to_string()));
    assert_eq!(tables[3].metadata[5], ("plan_identity".to_string(), "plan".to_string()));
    let mut facts = TableFacts {
        columns: vec![TableColumn::new("close_time_micros", ColumnType::Time)],
        metadata: tables[0].metadata.clone(),
        rows: 3,
    };
    assert!(check_table(&facts, &tables[0], "l").is_ok());
    facts.rows = 4;
    assert_eq!(
        check_table(&facts, &tables[0], "l").unwrap_err(),
        "l: columns, metadata, or row count disagree with the plan and manifest"
    );
}

fn row_table() -> RowTable {
    let text = |value: &str| Some(FeatureValue::Text(value.into()));
    let flag = |value: bool| Some(FeatureValue::Bool(value));
    RowTable {
        names: vec!["state".into(), "ready".into()],
        columns: vec![
            vec![text("up"), text("not_ready"), text("down"), None],
            vec![flag(true), flag(true), flag(false), flag(true)],
        ],
    }
}

fn encoding(input: &str, automatic: bool, flags: Vec<String>) -> EncodingInput {
    EncodingInput { input: input.into(), automatic, flags, unready: vec!["not_ready".into()] }
}

#[test]
fn automatic_encodings_are_fitted_on_ready_values() {
    let present = |column: Vec<Option<FeatureValue>>| -> Vec<bool> {
        column.iter().map(Option::is_some).collect()
    };
    let table = row_table();
    let whole = fit_column(&table, &encoding("state", false, vec!["absent".into()])).unwrap();
    assert_eq!(present(whole), [true, true, true, false]);
    let ready = fit_column(&table, &encoding("state", true, vec!["ready".into()])).unwrap();
    assert_eq!(present(ready), [true, false, false, false]);
    assert_eq!(
        fit_column(&table, &encoding("absent", true, vec![])).unwrap_err(),
        "encoding input `absent` is not a row column"
    );
    assert_eq!(
        fit_column(&table, &encoding("state", true, vec!["absent".into()])).unwrap_err(),
        "readiness flag `absent` is not a row column"
    );
    assert_eq!(input_column(&table.names, "ready"), Ok(1));
}

#[test]
fn a_build_starts_from_what_is_ready() {
    assert_eq!(build_start(true, true, true), BuildStart::Frozen);
    assert_eq!(build_start(false, true, true), BuildStart::Receipt);
    assert_eq!(build_start(false, false, true), BuildStart::Stream);
    assert_eq!(build_start(false, true, false), BuildStart::Stream);
    assert_eq!(check_same_profile(true, false), Ok(()));
    assert_eq!(
        check_same_profile(false, false).unwrap_err(),
        "profile_manifest: the published profile is not the profile of this input under the recorded definition"
    );
    assert_eq!(
        profile_object(&vec![], "profile.json").unwrap_err(),
        "profile_manifest: no profile object"
    );
    assert_eq!(check_object_set("u", &vec![], &vec![]), Ok(()));
    assert_eq!(
        check_object_set("u", &vec![], &vec!["plan.json".into()]).unwrap_err(),
        "u: the manifest's objects are not the plan's object set"
    );
}

#[test]
fn fit_receipt_accepts_identical_content_and_rejects_a_conflict() {
    let receipt = |generation: &str| {
        format!("{:?}", FitReceipt {
            request_digest: "request".into(),
            code_revision: "revision".into(),
            generation: generation.into(),
        })
        .into_bytes()
    };
    let uri = "file:///published/features/fits/receipt-test";
    let (first, second) = (receipt("first"), receipt("second"));
    assert_eq!(put_new(None, &first, uri), Ok(Stored::Created));
    assert_eq!(put_new(Some(&first), &receipt("first"), uri), Ok(Stored::Reused));
    assert!(put_new(Some(&first), &second, uri)
        .unwrap_err()
        .contains("already holds different content"));
}
