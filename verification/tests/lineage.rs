//! Lineage: migrations, ranges, lines, and the JSON that records them.

use binary_alpha::digest::digest;
use binary_alpha::fetch::coverage::Range;
use binary_alpha::lineage::json::{
    find_member, find_text, lineage_bytes_references, object_key, parse, same, Json,
};
use binary_alpha::lineage::lines::{complete_length, final_newline, lines};
use binary_alpha::lineage::migration::{
    check_binding, check_stream_identity, current_migration, record_name, MigrationEquality,
    MigrationMapping, MigrationRecord,
};
use binary_alpha::lineage::ranges::{clip, complement, merge_ranges};
use binary_alpha::lineage::reclaim::{plan_name, schedule};
use binary_alpha::lineage::rows::{by_day, day, day_claim, DayClaim, DayMetadata};
use binary_alpha::lineage::select::confirm_bytes;
use binary_alpha::table::Table;

fn names(list: &[&str]) -> Table<()> {
    let mut table = Table::new();
    for name in list {
        table.insert(name.to_string(), ());
    }
    table
}

fn receipt(root: char, supersedes: Option<&str>) -> MigrationRecord {
    let mut members = vec![];
    if let Some(name) = supersedes {
        members.push(("supersedes".to_string(), Json::Text(name.to_string())));
    }
    MigrationRecord {
        schema_version: 1,
        job: "fixture".into(),
        phase: "verified".into(),
        mapping: MigrationMapping {
            v1_generations: names(&["a".repeat(64).as_str()]),
            v1_stream: None,
            v1_streams: Table::new(),
        },
        v2_root: root.to_string().repeat(64),
        v2_stream: "d".repeat(64),
        equality: MigrationEquality {
            observations: true,
            pages: true,
            source_files: true,
            candles: None,
        },
        evidence: Json::Object(members),
        predecessor_jobs: vec![],
        storage_aliases: vec![],
    }
}

fn records(list: Vec<(&str, MigrationRecord)>) -> Table<MigrationRecord> {
    let mut table = Table::new();
    for (name, record) in list {
        table.insert(name.to_string(), record);
    }
    table
}

#[test]
fn migration_selection_follows_exact_verified_supersession() {
    // Lexical name ordering and proof version are deliberately irrelevant.
    let records = records(vec![
        ("z-old.json", receipt('b', None)),
        ("a-new.json", receipt('c', Some("z-old.json"))),
    ]);
    assert_eq!(
        current_migration(&records, "fixture").unwrap().unwrap().v2_root,
        "c".repeat(64)
    );
    assert!(current_migration(&records, "unrelated").unwrap().is_none());
}

#[test]
fn migration_selection_refuses_unverified_new_receipt() {
    let mut new = receipt('c', Some("old.json"));
    new.equality.pages = false;
    let records = records(vec![("old.json", receipt('b', None)), ("new.json", new)]);
    assert!(current_migration(&records, "fixture")
        .unwrap_err()
        .contains("missing verified migration evidence"));
}

#[test]
fn migration_selection_refuses_competing_roots_and_missing_receipts() {
    let competing = records(vec![
        ("first.json", receipt('b', None)),
        ("second.json", receipt('c', None)),
    ]);
    assert!(current_migration(&competing, "fixture")
        .unwrap_err()
        .contains("competing verified migration records"));
    let missing = records(vec![("new.json", receipt('c', Some("absent.json")))]);
    assert!(current_migration(&missing, "fixture")
        .unwrap_err()
        .contains("missing verified superseded migration record"));
}

#[test]
fn migration_selection_refuses_cycles_even_with_another_terminal() {
    let records = records(vec![
        ("first.json", receipt('b', Some("second.json"))),
        ("second.json", receipt('c', Some("first.json"))),
        ("independent.json", receipt('e', None)),
    ]);
    assert!(current_migration(&records, "fixture")
        .unwrap_err()
        .contains("cyclic migration supersession"));
}

fn range(start: i64, end: i64) -> Range {
    Range { start, end }
}

#[test]
fn ranges_merge_clip_and_leave_gaps() {
    let merged = merge_ranges(&vec![range(5, 8), range(0, 2), range(2, 4)]);
    assert_eq!(merged, vec![range(0, 4), range(5, 8)]);
    assert_eq!(clip(range(1, 6), &merged), vec![range(1, 4), range(5, 6)]);
    assert_eq!(complement(range(0, 10), &merged), vec![range(4, 5), range(8, 10)]);
    assert_eq!(complement(range(0, 4), &merged), vec![]);
}

#[test]
fn lines_keep_their_terminators() {
    let data = b"one\ntwo\r\nthree";
    let framed = lines(data);
    assert_eq!(framed.len(), 3);
    assert!(!final_newline(&framed));
    assert!(final_newline(&lines(b"one\n")));
    assert_eq!(complete_length(data), 9);
    assert_eq!(complete_length(b"none"), 0);
}

#[test]
fn json_is_read_by_value() {
    let value = parse(b"{\"a\": [1, null, true, \"x\"], \"b\": {\"c\": -2}}").unwrap();
    assert!(matches!(find_member(&value, "a"), Some(Json::Array(items)) if items.len() == 4));
    let inner = find_member(&value, "b").unwrap();
    assert!(matches!(find_member(inner, "c"), Some(Json::Number(text)) if text == "-2"));
    assert_eq!(find_text(&value, "a"), None);
    assert!(same(&value, &parse(b"{\"b\":{\"c\":-2},\"a\":[1,null,true,\"x\"]}").unwrap()));
    assert!(!same(&value, &parse(b"{}").unwrap()));
    assert!(parse(b"{").is_err());
}

#[test]
fn equal_values_may_differ_in_order_and_in_the_sign_of_zero() {
    let value = |bytes: &[u8]| parse(bytes).unwrap();
    assert!(same(&value(b"[0.0]"), &value(b"[-0.0]")));
    assert!(!same(&value(b"0"), &value(b"0.0")));
    assert!(!same(&value(b"1.5"), &value(b"-1.5")));
    assert!(same(&value(b"1.50"), &value(b"1.5")));
    let object = |names: &[&str]| {
        Json::Object(names.iter().map(|name| (name.to_string(), Json::Null)).collect())
    };
    assert!(same(&object(&["a", "b"]), &object(&["b", "a"])));
    assert!(!same(&object(&["a", "b"]), &object(&["a"])));
    assert!(!same(&object(&["a"]), &object(&["a", "b"])));
    assert!(!same(&value(b"[1,2]"), &value(b"[2,1]")));
    let first = Json::Object(vec![("a".into(), Json::Bool(true))]);
    assert!(!same(&first, &object(&["a"])));
}

#[test]
fn lineage_names_its_candidates_but_not_itself() {
    let candidates = names(&["one", "two", "three"]);
    let found = lineage_bytes_references(
        b"{\"ancestors\": [\"one\", \"other\"], \"self\": \"two\"}",
        &candidates,
        "two",
    )
    .unwrap();
    assert!(found.contains("one"));
    assert!(!found.contains("two"));
    assert!(!found.contains("three"));
    assert_eq!(object_key("abc"), "objects/abc");
}

#[test]
fn migration_records_are_bound_by_name_bytes_and_digest() {
    assert_eq!(record_name("records/name.json"), Ok("name.json"));
    assert!(record_name("name.json").is_err());
    assert!(check_stream_identity(&"a".repeat(64)).is_ok());
    assert_eq!(
        check_stream_identity("short").unwrap_err(),
        "invalid migration stream identity"
    );
    let binding = parse(b"{\"name\": \"n\", \"bytes\": 3, \"sha256\": \"d\"}").unwrap();
    assert!(check_binding(&binding, "n", 3, "d").is_ok());
    assert_eq!(
        check_binding(&binding, "n", 4, "d").unwrap_err(),
        "migration record identity mismatch: n"
    );
    let digest = "ba7816bf8f01cfea414140de5dae2223b00361a396177a9cb410ff61f20015ad";
    assert!(confirm_bytes(b"abc", 3, digest).is_ok());
    assert!(confirm_bytes(b"abd", 3, digest).is_err());
    assert!(confirm_bytes(b"abc", 4, digest).is_err());
}

#[test]
fn rows_fall_into_calendar_days() {
    assert_eq!(day(86_399_999_999), 0);
    assert_eq!(day(86_400_000_000), 1);
    assert_eq!(day(-1), -1);
    let groups = by_day(&vec![1, 86_400_000_000, 2]);
    assert_eq!(groups.len(), 2);
    assert_eq!((groups[0].day, groups[0].rows.clone()), (0, vec![0, 2]));
    assert_eq!((groups[1].day, groups[1].rows.clone()), (1, vec![1]));
    let metadata = DayMetadata {
        complete: true,
        clipped_by_retention: false,
        clipped_by_now: false,
        market_closed: false,
    };
    assert_eq!(day_claim(metadata, true), DayClaim::Complete);
}

#[test]
fn reclamation_spares_what_is_protected() {
    let mut plan = schedule("intent", "receipt", "generation", None, &vec![]);
    assert!(plan.finished());
    assert!(!plan.settle(&names(&["objects/kept"]), "objects/kept"));
    assert!(plan.settle(&names(&[]), "objects/free"));
    assert_eq!(plan_name("receipt"), format!("reclaim-{}.json", digest(b"receipt")));
}
