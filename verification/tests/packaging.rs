use dsym_batch::missing::find_missing_files;
use dsym_batch::pack::{read_entries, zip_up_missing, PackError, PackWriter};
use dsym_batch::record::{MatchRecord, Source};

fn record(arc_name: &str, checksum: &str, size: u64, ids: &[u128]) -> MatchRecord {
    MatchRecord {
        source: Source::Plain { path: arc_name.to_string() },
        arc_name: arc_name.to_string(),
        checksum: checksum.to_string(),
        size,
        identifiers: ids.to_vec(),
    }
}

#[test]
fn package_and_reopen_round_trip() {
    let refs = vec![
        record("DebugSymbols/a.dSYM/bin", "ca", 4, &[1]),
        record("DebugSymbols/lib", "cl", 6, &[2]),
    ];
    let contents = vec![b"abcd".to_vec(), b"123456".to_vec()];
    let bytes = zip_up_missing(&refs, &contents).unwrap();
    let entries = read_entries(bytes).unwrap();
    assert_eq!(entries.len(), refs.len());
    for (i, e) in entries.iter().enumerate() {
        assert_eq!(e.name, refs[i].arc_name);
        assert_eq!(e.data, contents[i]);
        assert_eq!(e.data.len() as u64, refs[i].size);
    }
}

#[test]
fn empty_batch_packages_to_empty_archive() {
    let bytes = zip_up_missing(&Vec::new(), &Vec::new()).unwrap();
    let entries = read_entries(bytes).unwrap();
    assert!(entries.is_empty());
}

#[test]
fn duplicate_archive_name_is_refused() {
    let refs = vec![record("DebugSymbols/x", "c1", 1, &[1]), record("DebugSymbols/x", "c2", 1, &[2])];
    let contents = vec![b"a".to_vec(), b"b".to_vec()];
    assert!(matches!(zip_up_missing(&refs, &contents).unwrap_err(), PackError::DuplicateName));
}

#[test]
fn garbage_bytes_are_not_an_archive() {
    assert!(matches!(read_entries(vec![1, 2, 3, 4]).unwrap_err(), PackError::Archive(_)));
}

#[test]
fn missing_filter_keeps_input_order() {
    let refs = vec![
        record("DebugSymbols/a", "sum-a", 1, &[1]),
        record("DebugSymbols/b", "sum-b", 1, &[2]),
        record("DebugSymbols/c", "sum-c", 1, &[3]),
    ];
    let missing = vec!["sum-c".to_string(), "sum-a".to_string()];
    let kept = find_missing_files(refs, &missing);
    assert_eq!(kept.len(), 2);
    assert_eq!(kept[0].checksum, "sum-a");
    assert_eq!(kept[1].checksum, "sum-c");
}

#[test]
fn missing_filter_can_drop_everything() {
    let refs = vec![record("DebugSymbols/a", "sum-a", 1, &[1])];
    let kept = find_missing_files(refs, &Vec::new());
    assert!(kept.is_empty());
}

#[test]
fn writer_round_trip_one_record_at_a_time() {
    let mut w = PackWriter::new();
    let first = record("DebugSymbols/one", "c1", 3, &[1]);
    let second = record("DebugSymbols/two", "c2", 2, &[2]);
    first.add_to_archive(&mut w, &b"abc".to_vec()).unwrap();
    second.add_to_archive(&mut w, &b"xy".to_vec()).unwrap();
    let entries = read_entries(w.finish()).unwrap();
    assert_eq!(entries.len(), 2);
    assert_eq!(entries[0].name, "DebugSymbols/one");
    assert_eq!(entries[0].data, b"abc".to_vec());
    assert_eq!(entries[1].name, "DebugSymbols/two");
    assert_eq!(entries[1].data, b"xy".to_vec());
}

#[test]
fn starting_a_taken_name_is_refused() {
    let mut w = PackWriter::new();
    let r = record("DebugSymbols/x", "c1", 1, &[1]);
    r.add_to_archive(&mut w, &b"a".to_vec()).unwrap();
    assert!(matches!(r.add_to_archive(&mut w, &b"a".to_vec()).unwrap_err(), PackError::Archive(_)));
}

#[test]
fn writer_recovers_after_a_refused_start() {
    let mut w = PackWriter::new();
    let first = record("DebugSymbols/x", "c1", 1, &[1]);
    first.add_to_archive(&mut w, &b"a".to_vec()).unwrap();
    let dup = record("DebugSymbols/x", "c2", 1, &[2]);
    assert!(dup.add_to_archive(&mut w, &b"b".to_vec()).is_err());
    let fresh = record("DebugSymbols/y", "c3", 1, &[3]);
    fresh.add_to_archive(&mut w, &b"c".to_vec()).unwrap();
    let entries = read_entries(w.finish()).unwrap();
    assert_eq!(entries.len(), 2);
    assert_eq!(entries[0].name, "DebugSymbols/x");
    assert_eq!(entries[0].data, b"a".to_vec());
    assert_eq!(entries[1].name, "DebugSymbols/y");
    assert_eq!(entries[1].data, b"c".to_vec());
}
