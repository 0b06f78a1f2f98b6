//! The journal: one chain of records over segments that are closed, uploaded and restored.

use binary_alpha::digest::digest;
use binary_alpha::live::journal::{
    after_segment, mark_uploaded, removable, segment_key, segment_name, segment_range, segments,
    split_lines, spool_bytes, valid_segment, wanted_segment, Found, Journal, Line, Record,
    RecordKind, Restore, Restored, SegmentFile, UploadMark,
};

fn kind() -> RecordKind {
    RecordKind::Discontinuity { reason: "restart".into() }
}

fn bytes_of(record: &Record) -> Vec<u8> {
    format!("{record:?}").into_bytes()
}

fn again(record: &Record) -> Record {
    Record {
        sequence: record.sequence,
        previous_sha256: record.previous_sha256.clone(),
        time_micros: record.time_micros,
        deployment: record.deployment.clone(),
        kind: kind(),
    }
}

fn line(record: &Record) -> Line {
    Line { bytes: bytes_of(record), complete: true, record: Ok(again(record)) }
}

fn file(name: &str, records: &[Record]) -> SegmentFile {
    SegmentFile { name: name.into(), lines: records.iter().map(line).collect() }
}

fn open(
    segment_records: u64,
    deployment: &str,
    closed: Vec<SegmentFile>,
    tail: SegmentFile,
) -> Result<(Journal, Vec<Record>), String> {
    Journal::open(deployment.into(), segment_records, closed, tail)
}

fn append(journal: &mut Journal, time: i64) -> (Record, bool) {
    let record = journal.next_record(time, kind()).unwrap();
    let full = journal.append(&bytes_of(&record));
    (record, full)
}

fn chain(count: i64) -> Vec<Record> {
    let (mut journal, _) = open(100, "deployment", vec![], file("open.jsonl", &[])).unwrap();
    (1..=count).map(|time| append(&mut journal, time).0).collect()
}

fn archived(records: &[Record]) -> Vec<u8> {
    records.iter().flat_map(|record| [bytes_of(record), b"\n".to_vec()].concat()).collect()
}

/// Walks a restore: which keys are asked for, what is written, and how many were restored.
fn restore(
    mut find: impl FnMut(&str, &str) -> Found,
) -> Result<(Vec<String>, Vec<(String, Vec<u8>)>, u64), String> {
    let mut walk = Restore::start("deployment".into(), 2)?;
    let mut requested = Vec::new();
    let mut written = Vec::new();
    loop {
        let wanted = walk.wanted()?;
        let found = find(&wanted.name, &wanted.key);
        if !matches!(found, Found::Present) {
            requested.push(wanted.key);
        }
        match walk.step(found)? {
            Restored::Next(file) => written.extend(file),
            Restored::End(count) => return Ok((requested, written, count)),
        }
    }
}

fn given(records: &[Record]) -> Found {
    let bytes = archived(records);
    Found::Archived {
        archived: bytes.len() as u64,
        bytes,
        lines: records.iter().map(line).collect(),
    }
}

#[test]
fn append_rotate_replay_and_spool() {
    let (mut journal, records) =
        open(2, "deployment", vec![], file("open.jsonl", &[])).unwrap();
    assert!(records.is_empty());
    assert_eq!(spool_bytes(&vec![]), Ok(0));
    let (first, full) = append(&mut journal, 1);
    assert!(!full);
    assert_eq!(first.sequence, 1);
    assert_eq!(first.previous_sha256, "0".repeat(64));
    let (second, full) = append(&mut journal, 2);
    assert!(full);
    assert_eq!(second.previous_sha256, digest(&bytes_of(&first)));
    assert_eq!(journal.rotate(false), Ok(Some(segment_name(1, 2))));
    let (third, _) = append(&mut journal, 3);
    let name = segment_name(1, 2);
    assert_eq!(
        segments(&vec!["open.jsonl".into(), name.clone()], false).unwrap(),
        vec![name.clone()]
    );
    assert_eq!(
        journal.key(&name).unwrap(),
        format!("live/deployment/journal/{name}")
    );
    assert_eq!(mark_uploaded(&name, false, false, true), Ok(UploadMark::Rename));
    assert_eq!(mark_uploaded(&name, true, true, false), Ok(UploadMark::Done));
    let (mut journal, replayed) = open(
        2,
        "deployment",
        vec![file(&name, &[again(&first), again(&second)])],
        file("open.jsonl", &[again(&third)]),
    )
    .unwrap();
    assert_eq!(format!("{replayed:?}"), format!("{:?}", vec![first, second, third]));
    assert_eq!(journal.next_sequence(), 4);
    assert_eq!(removable(&format!("{name}.uploaded"), 2), Ok(true));
    assert_eq!(journal.rotate(false), Ok(Some(segment_name(3, 3))));
    assert_eq!(journal.rotate(false), Ok(None));
    assert_eq!(spool_bytes(&vec![3, 4]), Ok(7));
    assert_eq!(
        spool_bytes(&vec![u64::MAX, 1]).unwrap_err(),
        "journal spool size overflow"
    );
}

#[test]
fn corrupt_line_and_deployment_are_rejected() {
    let records = chain(2);
    let error = open(10, "other", vec![], file("open.jsonl", &records)).err().unwrap();
    assert!(error.contains("record 1") && error.contains("deployment mismatch"), "{error}");
    let mut tail = file("open.jsonl", &records);
    let text = String::from_utf8(tail.lines[0].bytes.clone()).unwrap();
    tail.lines[0].bytes = text.replace("restart", "Restart").into_bytes();
    let error = open(10, "deployment", vec![], tail).err().unwrap();
    assert!(error.contains("record 2") && error.contains("hash mismatch"), "{error}");
}

#[test]
fn cleanup_restore_preserves_the_chain_and_keeps_partial_segments() {
    let records = chain(5);
    for (first, last) in [(1, 2), (3, 4)] {
        assert_eq!(
            removable(&format!("{}.uploaded", segment_name(first, last)), 2),
            Ok(true)
        );
    }
    assert_eq!(removable(&format!("{}.uploaded", segment_name(5, 5)), 2), Ok(false));
    let error = open(
        2,
        "deployment",
        vec![file(&segment_name(5, 5), &records[4..])],
        file("open.jsonl", &[]),
    )
    .err()
    .unwrap();
    assert!(error.contains("sequence mismatch: found 5"), "{error}");
    let full = |name: &str| match segment_range(name).unwrap() {
        (1, 2) => given(&records[..2]),
        (3, 4) => given(&records[2..4]),
        _ => Found::Absent,
    };
    let (requested, written, restored) = restore(|name, _| full(name)).unwrap();
    assert_eq!(restored, 2);
    assert_eq!(
        written,
        vec![
            (format!("{}.uploaded", segment_name(1, 2)), archived(&records[..2])),
            (format!("{}.uploaded", segment_name(3, 4)), archived(&records[2..4])),
        ]
    );
    assert_eq!(
        requested,
        [(1, 2), (3, 4), (5, 6)]
            .map(|(first, last)| format!("live/deployment/journal/{}", segment_name(first, last)))
    );
    let (journal, restored) = open(
        2,
        "deployment",
        vec![
            file(&segment_name(1, 2), &records[..2]),
            file(&segment_name(3, 4), &records[2..4]),
            file(&segment_name(5, 5), &records[4..]),
        ],
        file("open.jsonl", &[]),
    )
    .unwrap();
    assert_eq!(format!("{restored:?}"), format!("{records:?}"));
    assert_eq!(journal.next_sequence(), 6);
    // A present plain or uploaded segment does not terminate the restore walk.
    let first = segment_name(1, 2);
    let (requested, written, restored) =
        restore(|name, _| if name == first { Found::Present } else { full(name) }).unwrap();
    assert!(requested.iter().all(|key| !key.ends_with(&first)));
    assert_eq!(written.len(), 1);
    assert_eq!(restored, 1);
}

#[test]
fn restore_empty_spool_or_fresh_deployment_and_refuse_wrong_range() {
    let (_, written, restored) = restore(|_, _| Found::Absent).unwrap();
    assert_eq!((written.len(), restored), (0, 0));
    let records = chain(2);
    let name = segment_name(1, 2);
    let error = restore(|_, _| given(&records[..1])).unwrap_err();
    assert!(error.contains("record range mismatch"), "{error}");
    let error = restore(|_, _| given(&records[1..])).unwrap_err();
    assert!(error.contains("sequence mismatch: found 2"), "{error}");
    let (_, written, restored) =
        restore(|wanted, _| if wanted == name { given(&records) } else { Found::Absent }).unwrap();
    assert_eq!(restored, 1);
    assert_eq!(written, vec![(format!("{name}.uploaded"), archived(&records))]);
    let (_, replay) =
        open(2, "deployment", vec![file(&name, &records)], file("open.jsonl", &[])).unwrap();
    assert_eq!(format!("{replay:?}"), format!("{records:?}"));
}

#[test]
fn a_restore_refuses_what_is_cut_short_and_ends_with_its_numbers() {
    let records = chain(2);
    let short = restore(|_, _| match given(&records) {
        Found::Archived { archived, bytes, lines } => {
            Found::Archived { archived: archived + 1, bytes, lines }
        }
        other => other,
    });
    assert_eq!(short.unwrap_err(), "live: cloud journal length mismatch");
    assert_eq!(
        Restore::start("deployment".into(), 0).unwrap_err(),
        "journal segment_records must be positive"
    );
    let mut last = Restore {
        deployment: "deployment".into(),
        segment_records: 2,
        first: u64::MAX - 1,
        restored: 0,
        over: false,
    };
    assert_eq!(last.wanted().unwrap().last, u64::MAX);
    assert!(matches!(last.step(Found::Present), Ok(Restored::Next(None))));
    assert_eq!(last.wanted().unwrap_err(), "journal sequence overflow");
    assert_eq!(
        wanted_segment("deployment", u64::MAX, 2).err().unwrap(),
        "journal sequence overflow"
    );
    assert_eq!(after_segment(4), Ok(5));
    assert!(after_segment(u64::MAX).is_err());
}

#[test]
fn incomplete_last_line_is_refused_and_retained() {
    let records = chain(1);
    let mut bytes = bytes_of(&records[0]);
    bytes.push(b'\n');
    let whole = split_lines(&bytes);
    assert_eq!(whole, vec![(bytes_of(&records[0]), true)]);
    assert_eq!(bytes.pop(), Some(b'\n'));
    let cut = split_lines(&bytes);
    assert_eq!(cut, vec![(bytes_of(&records[0]), false)]);
    let mut tail = file("open.jsonl", &records);
    tail.lines[0].complete = false;
    let error = open(2, "deployment", vec![], tail).err().unwrap();
    assert!(error.contains("record 1") && error.contains("incomplete line"), "{error}");
}

#[test]
fn reopen_at_rotation_boundary_preserves_sequence_and_refuses_duplicate_tail() {
    let records = chain(2);
    let name = segment_name(1, 2);
    let (journal, replay) = open(
        2,
        "deployment",
        vec![file(&name, &records)],
        file("open.jsonl", &[]),
    )
    .unwrap();
    assert_eq!(format!("{replay:?}"), format!("{records:?}"));
    assert_eq!(journal.next_sequence(), 3);
    // A full open tail whose rotation has not yet happened is closed before the next record.
    let (mut journal, replay) =
        open(2, "deployment", vec![], file("open.jsonl", &records)).unwrap();
    assert_eq!(format!("{replay:?}"), format!("{records:?}"));
    assert!(journal.is_full());
    assert_eq!(journal.closing(), Some(name.clone()));
    assert_eq!(journal.rotate(false), Ok(Some(name.clone())));
    let (third, _) = append(&mut journal, 3);
    assert_eq!(third.sequence, 3);
    assert_eq!(third.previous_sha256, digest(&bytes_of(&records[1])));
    let error = open(
        2,
        "deployment",
        vec![file(&name, &records)],
        file("open.jsonl", &records),
    )
    .err()
    .unwrap();
    assert!(
        error.contains("record 3") && error.contains("sequence mismatch: found 1"),
        "{error}"
    );
}

#[test]
fn segment_names_read_back() {
    let name = segment_name(12, 345);
    assert!(valid_segment(&name));
    assert_eq!(segment_range(&name), Some((12, 345)));
    assert_eq!(segment_range("open.jsonl"), None);
    assert!(!valid_segment("open.jsonl"));
    assert_eq!(
        segment_key("deployment", &name),
        format!("live/deployment/journal/{name}")
    );
    assert_eq!(
        open(0, "deployment", vec![], file("open.jsonl", &[])).err().unwrap(),
        "journal segment_records must be positive"
    );
    assert_eq!(
        wanted_segment("deployment", u64::MAX, 2).unwrap_err(),
        "journal sequence overflow"
    );
}

#[test]
fn a_segment_that_exists_is_not_overwritten() {
    let records = chain(1);
    let (mut journal, _) =
        open(2, "deployment", vec![], file("open.jsonl", &records)).unwrap();
    assert_eq!(
        journal.rotate(true).unwrap_err(),
        format!("journal segment {} already exists", segment_name(1, 1))
    );
    assert!(mark_uploaded(&segment_name(1, 1), true, true, true).is_err());
    assert_eq!(
        mark_uploaded("open.jsonl", false, false, true).unwrap_err(),
        "invalid journal segment name"
    );
}

#[test]
fn a_directory_lists_segments_in_the_order_of_their_records() {
    let names = vec![
        format!("{}.uploaded", segment_name(10, 12)),
        "open.jsonl".to_string(),
        segment_name(100, 103),
        segment_name(13, 99),
        "health.json".to_string(),
        segment_name(9, 9),
    ];
    assert_eq!(
        segments(&names, true).unwrap(),
        [
            segment_name(9, 9),
            format!("{}.uploaded", segment_name(10, 12)),
            segment_name(13, 99),
            segment_name(100, 103)
        ]
    );
}
