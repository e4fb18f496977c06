use dsym_batch::iter::{BatchIter, ScanError, BATCH_SIZE};
use dsym_batch::record::Source;
use dsym_batch::scan::{ArchiveEntry, Extraction, PlainFile, ScanNode};

fn plain(path: &str, size: u64, checksum: &str, ids: &[u128]) -> ScanNode {
    ScanNode::Plain(PlainFile {
        rel_path: path.to_string(),
        size,
        checksum: checksum.to_string(),
        extraction: Extraction::Identifiers(ids.to_vec()),
    })
}

fn plain_unreadable(path: &str) -> ScanNode {
    ScanNode::Plain(PlainFile {
        rel_path: path.to_string(),
        size: 0,
        checksum: String::new(),
        extraction: Extraction::ReadFailed,
    })
}

fn entry(name: &str, size: u64, checksum: &str, ids: &[u128]) -> ArchiveEntry {
    ArchiveEntry {
        name: name.to_string(),
        size,
        checksum: checksum.to_string(),
        extraction: Extraction::Identifiers(ids.to_vec()),
    }
}

#[test]
fn single_file_single_batch() {
    let nodes = vec![plain("a.dSYM/bin", 8, "c0ffee", &[1])];
    let mut it = BatchIter::new(nodes, None, true, Vec::new());
    let batch = it.next().unwrap().unwrap();
    assert_eq!(batch.len(), 1);
    assert_eq!(batch[0].arc_name, "DebugSymbols/a.dSYM/bin");
    assert_eq!(batch[0].checksum, "c0ffee");
    assert_eq!(batch[0].size, 8);
    assert_eq!(batch[0].identifiers, vec![1]);
    assert!(matches!(batch[0].source, Source::Plain { .. }));
    assert!(it.next().is_none());
}

#[test]
fn batches_are_nonempty_and_capped() {
    let mut nodes = Vec::new();
    for i in 0..14u128 {
        nodes.push(plain(&format!("f{}", i), 1, &format!("c{}", i), &[i + 1]));
    }
    let mut it = BatchIter::new(nodes, None, true, Vec::new());
    let first = it.next().unwrap().unwrap();
    assert_eq!(first.len(), BATCH_SIZE);
    let second = it.next().unwrap().unwrap();
    assert_eq!(second.len(), 2);
    assert!(it.next().is_none());
}

#[test]
fn duplicate_identifiers_are_dropped() {
    let nodes = vec![
        plain("a", 1, "ca", &[1]),
        plain("b", 1, "cb", &[1]),
        plain("c", 1, "cc", &[1, 2]),
    ];
    let mut it = BatchIter::new(nodes, None, true, Vec::new());
    let batch = it.next().unwrap().unwrap();
    assert_eq!(batch.len(), 2);
    assert_eq!(batch[0].arc_name, "DebugSymbols/a");
    assert_eq!(batch[1].arc_name, "DebugSymbols/c");
    assert!(it.next().is_none());
    let mut found = it.found_identifiers().clone();
    found.sort();
    assert_eq!(found, vec![1, 2]);
}

#[test]
fn plain_then_archive_scenario() {
    // `a.dSYM/bin` carries U1; `b.zip` holds `lib` carrying U1 and U2.  The
    // plain file is flushed before the archive is opened; `lib` still
    // qualifies through U2 even though U1 is already found.
    let nodes = vec![
        plain("a.dSYM/bin", 4, "ca", &[101]),
        ScanNode::Archive(vec![entry("lib", 6, "cl", &[101, 102])]),
    ];
    let mut it = BatchIter::new(nodes, None, true, Vec::new());
    let first = it.next().unwrap().unwrap();
    assert_eq!(first.len(), 1);
    assert_eq!(first[0].arc_name, "DebugSymbols/a.dSYM/bin");
    let second = it.next().unwrap().unwrap();
    assert_eq!(second.len(), 1);
    assert_eq!(second[0].arc_name, "DebugSymbols/lib");
    assert!(matches!(
        second[0].source,
        Source::Archived { generation: 1, entry_index: 0 }
    ));
    assert!(it.next().is_none());
    let mut found = it.found_identifiers().clone();
    found.sort();
    assert_eq!(found, vec![101, 102]);
}

#[test]
fn batch_is_flushed_before_archive_switch() {
    let nodes = vec![
        plain("p1", 1, "c1", &[1]),
        ScanNode::Archive(vec![entry("e1", 1, "c2", &[2])]),
        plain("p3", 1, "c3", &[3]),
        ScanNode::Archive(vec![entry("e2", 1, "c4", &[4])]),
    ];
    let mut it = BatchIter::new(nodes, None, true, Vec::new());
    let mut batches = Vec::new();
    while let Some(b) = it.next() {
        batches.push(b.unwrap());
    }
    assert_eq!(batches.len(), 4);
    // No batch mixes records of two different archive generations, and no
    // batch holds a record of an archive that was already replaced.
    let mut last_generation = 0u64;
    for b in &batches {
        let mut gens = Vec::new();
        for r in b {
            if let Source::Archived { generation, .. } = r.source {
                assert!(generation > last_generation);
                gens.push(generation);
            }
        }
        gens.dedup();
        assert!(gens.len() <= 1);
        if let Some(g) = gens.first() {
            last_generation = *g;
        }
    }
    assert_eq!(batches[1][0].arc_name, "DebugSymbols/e1");
    assert_eq!(batches[3][0].arc_name, "DebugSymbols/e2");
}

#[test]
fn early_stop_skips_rest_of_tree() {
    // The unreadable file after the last target would abort the run; early
    // stop means it is never visited.
    let nodes = vec![plain("hit", 1, "ch", &[7]), plain_unreadable("never-read")];
    let mut it = BatchIter::new(nodes, Some(vec![7]), true, Vec::new());
    let batch = it.next().unwrap().unwrap();
    assert_eq!(batch.len(), 1);
    assert_eq!(batch[0].arc_name, "DebugSymbols/hit");
    assert!(it.next().is_none());
    assert_eq!(it.found_identifiers(), &vec![7]);
    assert!(it.unsatisfied_targets().is_empty());
}

#[test]
fn unsatisfied_target_is_reported() {
    let nodes = vec![plain("a", 1, "ca", &[1])];
    let mut it = BatchIter::new(nodes, Some(vec![3]), true, Vec::new());
    // U1 does not intersect the target set, so nothing matches at all.
    assert!(it.next().is_none());
    assert!(it.found_identifiers().is_empty());
    assert_eq!(it.unsatisfied_targets(), vec![3]);
}

#[test]
fn unreadable_file_aborts_the_run() {
    let nodes = vec![plain_unreadable("bad"), plain("good", 1, "cg", &[1])];
    let mut it = BatchIter::new(nodes, None, true, Vec::new());
    let err = it.next().unwrap().unwrap_err();
    assert_eq!(err, ScanError::SourceUnreadable);
    assert!(it.next().is_none());
}

#[test]
fn corrupt_archive_aborts_when_descending() {
    let nodes = vec![ScanNode::ArchiveUnreadable, plain("good", 1, "cg", &[1])];
    let mut it = BatchIter::new(nodes, None, true, Vec::new());
    let err = it.next().unwrap().unwrap_err();
    assert_eq!(err, ScanError::ArchiveUnreadable);
    assert!(it.next().is_none());
}

#[test]
fn archives_are_skipped_when_descent_is_disabled() {
    let nodes = vec![
        ScanNode::Archive(vec![entry("e", 1, "ce", &[1])]),
        ScanNode::ArchiveUnreadable,
        plain("p", 1, "cp", &[2]),
    ];
    let mut it = BatchIter::new(nodes, None, false, Vec::new());
    let batch = it.next().unwrap().unwrap();
    assert_eq!(batch.len(), 1);
    assert_eq!(batch[0].arc_name, "DebugSymbols/p");
    assert!(it.next().is_none());
}

#[test]
fn found_set_carries_across_roots() {
    let first_root = vec![plain("a", 1, "ca", &[1])];
    let mut it = BatchIter::new(first_root, None, true, Vec::new());
    assert!(it.next().unwrap().is_ok());
    assert!(it.next().is_none());
    let found = it.into_found();
    let second_root = vec![plain("b", 1, "cb", &[1])];
    let mut it2 = BatchIter::new(second_root, None, true, found);
    assert!(it2.next().is_none());
    assert_eq!(it2.found_identifiers(), &vec![1]);
}

#[test]
fn empty_identifier_set_never_matches() {
    let nodes = vec![plain("stripped", 1, "cs", &[])];
    let mut it = BatchIter::new(nodes, None, true, Vec::new());
    assert!(it.next().is_none());
}

#[test]
fn not_recognized_files_are_skipped() {
    let nodes = vec![
        ScanNode::Plain(PlainFile {
            rel_path: "README".to_string(),
            size: 3,
            checksum: String::new(),
            extraction: Extraction::NotRecognized,
        }),
        plain("bin", 1, "cb", &[5]),
    ];
    let mut it = BatchIter::new(nodes, None, true, Vec::new());
    let batch = it.next().unwrap().unwrap();
    assert_eq!(batch.len(), 1);
    assert_eq!(batch[0].arc_name, "DebugSymbols/bin");
    assert!(it.next().is_none());
}

#[test]
fn rescanning_the_same_tree_reproduces_checksums() {
    let build = || {
        vec![
            plain("a", 2, "sum-a", &[11]),
            ScanNode::Archive(vec![entry("e", 3, "sum-e", &[12])]),
        ]
    };
    let mut first_sums = Vec::new();
    let mut it = BatchIter::new(build(), None, true, Vec::new());
    while let Some(b) = it.next() {
        for r in b.unwrap() {
            first_sums.push(r.checksum);
        }
    }
    let mut second_sums = Vec::new();
    let mut it2 = BatchIter::new(build(), None, true, Vec::new());
    while let Some(b) = it2.next() {
        for r in b.unwrap() {
            second_sums.push(r.checksum);
        }
    }
    assert_eq!(first_sums, vec!["sum-a".to_string(), "sum-e".to_string()]);
    assert_eq!(first_sums, second_sums);
}
