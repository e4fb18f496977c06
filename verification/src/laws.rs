//! Run-wide guarantees of the batch discovery iterator, proved once over the
//! specification [`scan`] and therefore holding of every pull of
//! `BatchIter::next`.

use vstd::prelude::*;

use crate::iter::{arch_entries, cursor_ok, scan, targets_met, has_new_id, BATCH_SIZE, Emit, IterModel};
use crate::record::{RecordModel, SourceModel};
use crate::scan::{Extraction, ScanNode};

verus! {

/// Every yielded batch holds between 1 and `BATCH_SIZE` records: the
/// iterator never yields an empty batch and never exceeds the cap.
pub proof fn lemma_batches_nonempty_and_bounded(m: IterModel, batch: Seq<RecordModel>)
    requires
        cursor_ok(m),
        batch.len() < BATCH_SIZE as int,
    ensures
        match scan(m, batch).emit {
            Emit::Batch(s) => 1 <= s.len() <= BATCH_SIZE as int,
            _ => true,
        },
    decreases
            m.nodes.len() - m.pos,
            (if m.in_archive {
                0int
            } else {
                1int
            }),
            arch_entries(m).len() - m.entry_pos,
{
    if m.failed {
    } else if targets_met(m.targets, m.found) {
    } else if m.in_archive {
        let es = arch_entries(m);
        if m.entry_pos >= es.len() {
            let m2 = IterModel { in_archive: false, entry_pos: 0, pos: m.pos + 1, ..m };
            if batch.len() > 0 {
            } else {
                lemma_batches_nonempty_and_bounded(m2, batch);
            }
        } else {
            let e = es[m.entry_pos];
            let m_next = IterModel { entry_pos: m.entry_pos + 1, ..m };
            match e.extraction {
                Extraction::ReadFailed => {},
                Extraction::NotRecognized => {
                    lemma_batches_nonempty_and_bounded(m_next, batch);
                },
                Extraction::Identifiers(ids) => {
                    if crate::iter::ids_eligible(ids@, m.targets) && has_new_id(ids@, m.found) {
                        let m2 = IterModel { found: m.found.union(ids@.to_set()), ..m_next };
                        let b2 = batch.push(crate::iter::entry_record(m, e, ids@));
                        if b2.len() >= BATCH_SIZE as int {
                        } else {
                            lemma_batches_nonempty_and_bounded(m2, b2);
                        }
                    } else {
                        lemma_batches_nonempty_and_bounded(m_next, batch);
                    }
                },
            }
        }
    } else if m.pos >= m.nodes.len() {
    } else {
        let m_next = IterModel { pos: m.pos + 1, ..m };
        match m.nodes[m.pos] {
            ScanNode::Plain(f) => match f.extraction {
                Extraction::ReadFailed => {},
                Extraction::NotRecognized => {
                    lemma_batches_nonempty_and_bounded(m_next, batch);
                },
                Extraction::Identifiers(ids) => {
                    if crate::iter::ids_eligible(ids@, m.targets) && has_new_id(ids@, m.found) {
                        let m2 = IterModel { found: m.found.union(ids@.to_set()), ..m_next };
                        let b2 = batch.push(crate::iter::plain_record(f, ids@));
                        if b2.len() >= BATCH_SIZE as int {
                        } else {
                            lemma_batches_nonempty_and_bounded(m2, b2);
                        }
                    } else {
                        lemma_batches_nonempty_and_bounded(m_next, batch);
                    }
                },
            },
            ScanNode::Archive(es) => {
                if !m.allow_zips {
                    lemma_batches_nonempty_and_bounded(m_next, batch);
                } else if batch.len() > 0 {
                } else {
                    lemma_batches_nonempty_and_bounded(
                        IterModel { in_archive: true, entry_pos: 0, generation: m.generation + 1, ..m },
                        batch,
                    );
                }
            },
            ScanNode::ArchiveUnreadable => {
                if m.allow_zips {
                } else {
                    lemma_batches_nonempty_and_bounded(m_next, batch);
                }
            },
        }
    }
}

/// The found-identifier set only ever grows: whatever one pull adds, nothing
/// is removed.
pub proof fn lemma_found_only_grows(m: IterModel, batch: Seq<RecordModel>)
    requires
        cursor_ok(m),
    ensures
        m.found.subset_of(scan(m, batch).state.found),
    decreases
            m.nodes.len() - m.pos,
            (if m.in_archive {
                0int
            } else {
                1int
            }),
            arch_entries(m).len() - m.entry_pos,
{
    if m.failed {
    } else if targets_met(m.targets, m.found) {
    } else if m.in_archive {
        let es = arch_entries(m);
        if m.entry_pos >= es.len() {
            let m2 = IterModel { in_archive: false, entry_pos: 0, pos: m.pos + 1, ..m };
            if batch.len() > 0 {
            } else {
                lemma_found_only_grows(m2, batch);
            }
        } else {
            let e = es[m.entry_pos];
            let m_next = IterModel { entry_pos: m.entry_pos + 1, ..m };
            match e.extraction {
                Extraction::ReadFailed => {},
                Extraction::NotRecognized => {
                    lemma_found_only_grows(m_next, batch);
                },
                Extraction::Identifiers(ids) => {
                    if crate::iter::ids_eligible(ids@, m.targets) && has_new_id(ids@, m.found) {
                        let m2 = IterModel { found: m.found.union(ids@.to_set()), ..m_next };
                        let b2 = batch.push(crate::iter::entry_record(m, e, ids@));
                        if b2.len() >= BATCH_SIZE as int {
                        } else {
                            lemma_found_only_grows(m2, b2);
                        }
                    } else {
                        lemma_found_only_grows(m_next, batch);
                    }
                },
            }
        }
    } else if m.pos >= m.nodes.len() {
    } else {
        let m_next = IterModel { pos: m.pos + 1, ..m };
        match m.nodes[m.pos] {
            ScanNode::Plain(f) => match f.extraction {
                Extraction::ReadFailed => {},
                Extraction::NotRecognized => {
                    lemma_found_only_grows(m_next, batch);
                },
                Extraction::Identifiers(ids) => {
                    if crate::iter::ids_eligible(ids@, m.targets) && has_new_id(ids@, m.found) {
                        let m2 = IterModel { found: m.found.union(ids@.to_set()), ..m_next };
                        let b2 = batch.push(crate::iter::plain_record(f, ids@));
                        if b2.len() >= BATCH_SIZE as int {
                        } else {
                            lemma_found_only_grows(m2, b2);
                        }
                    } else {
                        lemma_found_only_grows(m_next, batch);
                    }
                },
            },
            ScanNode::Archive(es) => {
                if !m.allow_zips {
                    lemma_found_only_grows(m_next, batch);
                } else if batch.len() > 0 {
                } else {
                    lemma_found_only_grows(
                        IterModel { in_archive: true, entry_pos: 0, generation: m.generation + 1, ..m },
                        batch,
                    );
                }
            },
            ScanNode::ArchiveUnreadable => {
                if m.allow_zips {
                } else {
                    lemma_found_only_grows(m_next, batch);
                }
            },
        }
    }
}

/// The identifiers known once the records of `s` from index `from` up to
/// (excluding) `upto` have been kept, starting from `found0`.
pub open spec fn found_plus(found0: Set<u128>, s: Seq<RecordModel>, from: int, upto: int) -> Set<
    u128,
>
    decreases upto - from,
{
    if upto <= from {
        found0
    } else {
        found_plus(found0, s, from, upto - 1).union(s[upto - 1].ids)
    }
}

proof fn lemma_found_plus_shift(found0: Set<u128>, s: Seq<RecordModel>, from: int, upto: int)
    requires
        from < upto,
    ensures
        found_plus(found0, s, from, upto) == found_plus(
            found0.union(s[from].ids),
            s,
            from + 1,
            upto,
        ),
    decreases upto - from,
{
    if upto == from + 1 {
        assert(found_plus(found0, s, from, from) == found0);
        assert(found_plus(found0.union(s[from].ids), s, from + 1, upto) == found0.union(
            s[from].ids,
        ));
        assert(found_plus(found0, s, from, upto) =~= found_plus(
            found0.union(s[from].ids),
            s,
            from + 1,
            upto,
        ));
    } else {
        lemma_found_plus_shift(found0, s, from, upto - 1);
    }
}

/// No identifier is reported twice as newly found: in every emitted batch,
/// each record brings at least one identifier that was neither in the found
/// set when the pull began nor in any earlier record kept by the pull.
pub proof fn lemma_no_identifier_reported_twice(m: IterModel, batch: Seq<RecordModel>)
    requires
        cursor_ok(m),
        batch.len() < BATCH_SIZE as int,
    ensures
        match scan(m, batch).emit {
            Emit::Batch(s) => {
                &&& batch.len() <= s.len()
                &&& s.take(batch.len() as int) == batch
                &&& forall|i: int|
                    batch.len() <= i < s.len() ==> !(#[trigger] s[i]).ids.subset_of(
                        found_plus(m.found, s, batch.len() as int, i),
                    )
            },
            _ => true,
        },
    decreases
            m.nodes.len() - m.pos,
            (if m.in_archive {
                0int
            } else {
                1int
            }),
            arch_entries(m).len() - m.entry_pos,
            1int,
{
    let out = scan(m, batch);
    if m.failed {
    } else if targets_met(m.targets, m.found) {
        if batch.len() > 0 {
            assert(batch.take(batch.len() as int) =~= batch);
        }
    } else if m.in_archive {
        let es = arch_entries(m);
        if m.entry_pos >= es.len() {
            let m2 = IterModel { in_archive: false, entry_pos: 0, pos: m.pos + 1, ..m };
            if batch.len() > 0 {
                assert(batch.take(batch.len() as int) =~= batch);
            } else {
                lemma_no_identifier_reported_twice(m2, batch);
            }
        } else {
            let e = es[m.entry_pos];
            let m_next = IterModel { entry_pos: m.entry_pos + 1, ..m };
            match e.extraction {
                Extraction::ReadFailed => {},
                Extraction::NotRecognized => {
                    lemma_no_identifier_reported_twice(m_next, batch);
                },
                Extraction::Identifiers(ids) => {
                    if crate::iter::ids_eligible(ids@, m.targets) && has_new_id(ids@, m.found) {
                        let rec = crate::iter::entry_record(m, e, ids@);
                        let m2 = IterModel { found: m.found.union(ids@.to_set()), ..m_next };
                        let b2 = batch.push(rec);
                        let bl = batch.len() as int;
                        let k = choose|k: int| 0 <= k < ids@.len() && !m.found.contains(ids@[k]);
                        if b2.len() >= BATCH_SIZE as int {
                            assert(b2.take(bl) =~= batch);
                            assert(found_plus(m.found, b2, bl, bl) == m.found);
                            assert(rec.ids.contains(ids@[k]));
                        } else {
                            lemma_no_identifier_reported_twice(m2, b2);
                            match scan(m2, b2).emit {
                                Emit::Batch(s) => {
                                    assert forall|j: int| 0 <= j < b2.len() implies s[j] == b2[j]
                                        by {
                                        assert(s.take(b2.len() as int)[j] == s[j]);
                                    }
                                    assert(s.take(bl) =~= batch);
                                    assert(s[bl] == rec);
                                    assert forall|i: int|
                                        bl <= i < s.len() implies !(#[trigger] s[i]).ids.subset_of(
                                        found_plus(m.found, s, bl, i),
                                    ) by {
                                        if i == bl {
                                            assert(found_plus(m.found, s, bl, bl) == m.found);
                                            assert(rec.ids.contains(ids@[k]));
                                        } else {
                                            lemma_found_plus_shift(m.found, s, bl, i);
                                            assert(m.found.union(s[bl].ids) =~= m2.found);
                                            assert(!s[i].ids.subset_of(
                                                found_plus(m2.found, s, bl + 1, i),
                                            ));
                                        }
                                    }
                                },
                                _ => {},
                            }
                        }
                    } else {
                        lemma_no_identifier_reported_twice(m_next, batch);
                    }
                },
            }
        }
    } else if m.pos >= m.nodes.len() {
        if batch.len() > 0 {
            assert(batch.take(batch.len() as int) =~= batch);
        }
    } else {
        let m_next = IterModel { pos: m.pos + 1, ..m };
        match m.nodes[m.pos] {
            ScanNode::Plain(f) => match f.extraction {
                Extraction::ReadFailed => {},
                Extraction::NotRecognized => {
                    lemma_no_identifier_reported_twice(m_next, batch);
                },
                Extraction::Identifiers(ids) => {
                    if crate::iter::ids_eligible(ids@, m.targets) && has_new_id(ids@, m.found) {
                        let rec = crate::iter::plain_record(f, ids@);
                        let m2 = IterModel { found: m.found.union(ids@.to_set()), ..m_next };
                        let b2 = batch.push(rec);
                        let bl = batch.len() as int;
                        let k = choose|k: int| 0 <= k < ids@.len() && !m.found.contains(ids@[k]);
                        if b2.len() >= BATCH_SIZE as int {
                            assert(b2.take(bl) =~= batch);
                            assert(found_plus(m.found, b2, bl, bl) == m.found);
                            assert(rec.ids.contains(ids@[k]));
                        } else {
                            lemma_no_identifier_reported_twice(m2, b2);
                            match scan(m2, b2).emit {
                                Emit::Batch(s) => {
                                    assert forall|j: int| 0 <= j < b2.len() implies s[j] == b2[j]
                                        by {
                                        assert(s.take(b2.len() as int)[j] == s[j]);
                                    }
                                    assert(s.take(bl) =~= batch);
                                    assert(s[bl] == rec);
                                    assert forall|i: int|
                                        bl <= i < s.len() implies !(#[trigger] s[i]).ids.subset_of(
                                        found_plus(m.found, s, bl, i),
                                    ) by {
                                        if i == bl {
                                            assert(found_plus(m.found, s, bl, bl) == m.found);
                                            assert(rec.ids.contains(ids@[k]));
                                        } else {
                                            lemma_found_plus_shift(m.found, s, bl, i);
                                            assert(m.found.union(s[bl].ids) =~= m2.found);
                                            assert(!s[i].ids.subset_of(
                                                found_plus(m2.found, s, bl + 1, i),
                                            ));
                                        }
                                    }
                                },
                                _ => {},
                            }
                        }
                    } else {
                        lemma_no_identifier_reported_twice(m_next, batch);
                    }
                },
            },
            ScanNode::Archive(es) => {
                if !m.allow_zips {
                    lemma_no_identifier_reported_twice(m_next, batch);
                } else if batch.len() > 0 {
                    assert(batch.take(batch.len() as int) =~= batch);
                } else {
                    lemma_no_identifier_reported_twice(
                        IterModel { in_archive: true, entry_pos: 0, generation: m.generation + 1, ..m },
                        batch,
                    );
                }
            },
            ScanNode::ArchiveUnreadable => {
                if m.allow_zips {
                } else {
                    lemma_no_identifier_reported_twice(m_next, batch);
                }
            },
        }
    }
}

/// Archive-switch safety: every record of an emitted batch that reads from
/// an archive reads from the archive generation still current when the batch
/// leaves — a batch never carries a record of an archive that has been
/// replaced.
pub proof fn lemma_batch_never_outlives_archive(m: IterModel, batch: Seq<RecordModel>)
    requires
        cursor_ok(m),
        batch.len() < BATCH_SIZE as int,
        forall|i: int|
            0 <= i < batch.len() ==> ((#[trigger] batch[i]).source matches SourceModel::Archived {
                generation,
                ..
            } ==> generation == m.generation),
    ensures
        match scan(m, batch).emit {
            Emit::Batch(s) => forall|i: int|
                0 <= i < s.len() ==> ((#[trigger] s[i]).source matches SourceModel::Archived {
                    generation,
                    ..
                } ==> generation == scan(m, batch).state.generation),
            _ => true,
        },
    decreases
            m.nodes.len() - m.pos,
            (if m.in_archive {
                0int
            } else {
                1int
            }),
            arch_entries(m).len() - m.entry_pos,
{
    if m.failed {
    } else if targets_met(m.targets, m.found) {
    } else if m.in_archive {
        let es = arch_entries(m);
        if m.entry_pos >= es.len() {
            let m2 = IterModel { in_archive: false, entry_pos: 0, pos: m.pos + 1, ..m };
            if batch.len() > 0 {
            } else {
                lemma_batch_never_outlives_archive(m2, batch);
            }
        } else {
            let e = es[m.entry_pos];
            let m_next = IterModel { entry_pos: m.entry_pos + 1, ..m };
            match e.extraction {
                Extraction::ReadFailed => {},
                Extraction::NotRecognized => {
                    lemma_batch_never_outlives_archive(m_next, batch);
                },
                Extraction::Identifiers(ids) => {
                    if crate::iter::ids_eligible(ids@, m.targets) && has_new_id(ids@, m.found) {
                        let m2 = IterModel { found: m.found.union(ids@.to_set()), ..m_next };
                        let b2 = batch.push(crate::iter::entry_record(m, e, ids@));
                        if b2.len() >= BATCH_SIZE as int {
                        } else {
                            lemma_batch_never_outlives_archive(m2, b2);
                        }
                    } else {
                        lemma_batch_never_outlives_archive(m_next, batch);
                    }
                },
            }
        }
    } else if m.pos >= m.nodes.len() {
    } else {
        let m_next = IterModel { pos: m.pos + 1, ..m };
        match m.nodes[m.pos] {
            ScanNode::Plain(f) => match f.extraction {
                Extraction::ReadFailed => {},
                Extraction::NotRecognized => {
                    lemma_batch_never_outlives_archive(m_next, batch);
                },
                Extraction::Identifiers(ids) => {
                    if crate::iter::ids_eligible(ids@, m.targets) && has_new_id(ids@, m.found) {
                        let m2 = IterModel { found: m.found.union(ids@.to_set()), ..m_next };
                        let b2 = batch.push(crate::iter::plain_record(f, ids@));
                        if b2.len() >= BATCH_SIZE as int {
                        } else {
                            lemma_batch_never_outlives_archive(m2, b2);
                        }
                    } else {
                        lemma_batch_never_outlives_archive(m_next, batch);
                    }
                },
            },
            ScanNode::Archive(es) => {
                if !m.allow_zips {
                    lemma_batch_never_outlives_archive(m_next, batch);
                } else if batch.len() > 0 {
                } else {
                    lemma_batch_never_outlives_archive(
                        IterModel { in_archive: true, entry_pos: 0, generation: m.generation + 1, ..m },
                        batch,
                    );
                }
            },
            ScanNode::ArchiveUnreadable => {
                if m.allow_zips {
                } else {
                    lemma_batch_never_outlives_archive(m_next, batch);
                }
            },
        }
    }
}

/// Whether `r` is exactly what discovering the plain file `f` records: the
/// file's own checksum, size, identifiers, and name under the virtual root.
pub open spec fn record_matches_plain(f: crate::scan::PlainFile, r: RecordModel) -> bool {
    &&& r.source == (SourceModel::Plain { path: f.rel_path@ })
    &&& r.arc_name == crate::scan::name_prefix() + f.rel_path@
    &&& r.checksum == f.checksum@
    &&& r.size == f.size
    &&& (f.extraction matches Extraction::Identifiers(ids) && r.ids == ids@.to_set())
}

/// Whether `r` is exactly what discovering the archive entry `e` records.
pub open spec fn record_matches_entry(e: crate::scan::ArchiveEntry, r: RecordModel) -> bool {
    &&& r.source is Archived
    &&& r.arc_name == crate::scan::name_prefix() + e.name@
    &&& r.checksum == e.checksum@
    &&& r.size == e.size
    &&& (e.extraction matches Extraction::Identifiers(ids) && r.ids == ids@.to_set())
}

/// Whether `r` describes one of the input's sources, faithfully.
pub open spec fn record_from_input(nodes: Seq<ScanNode>, r: RecordModel) -> bool {
    exists|j: int|
        0 <= j < nodes.len() && match #[trigger] nodes[j] {
            ScanNode::Plain(f) => record_matches_plain(f, r),
            ScanNode::Archive(es) => exists|k: int|
                0 <= k < es@.len() && record_matches_entry(#[trigger] es@[k], r),
            ScanNode::ArchiveUnreadable => false,
        }
}

/// Provenance: every yielded record restates one source of the input as it
/// stands there — in particular its stored checksum and size are the ones
/// that source would yield again if re-read.
pub proof fn lemma_records_come_from_the_input(m: IterModel, batch: Seq<RecordModel>)
    requires
        cursor_ok(m),
        batch.len() < BATCH_SIZE as int,
        forall|i: int| 0 <= i < batch.len() ==> record_from_input(m.nodes, #[trigger] batch[i]),
    ensures
        match scan(m, batch).emit {
            Emit::Batch(s) => forall|i: int|
                0 <= i < s.len() ==> record_from_input(m.nodes, #[trigger] s[i]),
            _ => true,
        },
    decreases
            m.nodes.len() - m.pos,
            (if m.in_archive {
                0int
            } else {
                1int
            }),
            arch_entries(m).len() - m.entry_pos,
{
    if m.failed {
    } else if targets_met(m.targets, m.found) {
    } else if m.in_archive {
        let es = arch_entries(m);
        if m.entry_pos >= es.len() {
            let m2 = IterModel { in_archive: false, entry_pos: 0, pos: m.pos + 1, ..m };
            if batch.len() > 0 {
            } else {
                lemma_records_come_from_the_input(m2, batch);
            }
        } else {
            let e = es[m.entry_pos];
            let m_next = IterModel { entry_pos: m.entry_pos + 1, ..m };
            match e.extraction {
                Extraction::ReadFailed => {},
                Extraction::NotRecognized => {
                    lemma_records_come_from_the_input(m_next, batch);
                },
                Extraction::Identifiers(ids) => {
                    if crate::iter::ids_eligible(ids@, m.targets) && has_new_id(ids@, m.found) {
                        let rec = crate::iter::entry_record(m, e, ids@);
                        let m2 = IterModel { found: m.found.union(ids@.to_set()), ..m_next };
                        let b2 = batch.push(rec);
                        assert(record_matches_entry(es[m.entry_pos], rec));
                        assert(record_from_input(m.nodes, rec));
                        if b2.len() >= BATCH_SIZE as int {
                        } else {
                            lemma_records_come_from_the_input(m2, b2);
                        }
                    } else {
                        lemma_records_come_from_the_input(m_next, batch);
                    }
                },
            }
        }
    } else if m.pos >= m.nodes.len() {
    } else {
        let m_next = IterModel { pos: m.pos + 1, ..m };
        match m.nodes[m.pos] {
            ScanNode::Plain(f) => match f.extraction {
                Extraction::ReadFailed => {},
                Extraction::NotRecognized => {
                    lemma_records_come_from_the_input(m_next, batch);
                },
                Extraction::Identifiers(ids) => {
                    if crate::iter::ids_eligible(ids@, m.targets) && has_new_id(ids@, m.found) {
                        let rec = crate::iter::plain_record(f, ids@);
                        let m2 = IterModel { found: m.found.union(ids@.to_set()), ..m_next };
                        let b2 = batch.push(rec);
                        assert(record_matches_plain(f, rec));
                        assert(record_from_input(m.nodes, rec));
                        if b2.len() >= BATCH_SIZE as int {
                        } else {
                            lemma_records_come_from_the_input(m2, b2);
                        }
                    } else {
                        lemma_records_come_from_the_input(m_next, batch);
                    }
                },
            },
            ScanNode::Archive(es) => {
                if !m.allow_zips {
                    lemma_records_come_from_the_input(m_next, batch);
                } else if batch.len() > 0 {
                } else {
                    lemma_records_come_from_the_input(
                        IterModel { in_archive: true, entry_pos: 0, generation: m.generation + 1, ..m },
                        batch,
                    );
                }
            },
            ScanNode::ArchiveUnreadable => {
                if m.allow_zips {
                } else {
                    lemma_records_come_from_the_input(m_next, batch);
                }
            },
        }
    }
}

/// Early stop: once the found set covers every target, a pull scans nothing
/// further — the state is left untouched and no further record is produced.
pub proof fn lemma_early_stop_is_immediate(m: IterModel)
    requires
        cursor_ok(m),
        targets_met(m.targets, m.found),
    ensures
        scan(m, Seq::<RecordModel>::empty()).state == m,
        scan(m, Seq::<RecordModel>::empty()).emit is Stop,
{
}

/// A pull ends the sequence only for a reason: after a hard error, because
/// every target has been found, or because the whole input was scanned.
pub proof fn lemma_stop_has_a_reason(m: IterModel, batch: Seq<RecordModel>)
    requires
        cursor_ok(m),
    ensures
        scan(m, batch).emit is Stop ==> {
            let s = scan(m, batch).state;
            &&& s.failed == m.failed
            &&& (s.failed || targets_met(s.targets, s.found) || (s.pos >= s.nodes.len()
                && !s.in_archive))
        },
    decreases
            m.nodes.len() - m.pos,
            (if m.in_archive {
                0int
            } else {
                1int
            }),
            arch_entries(m).len() - m.entry_pos,
{
    if m.failed {
    } else if targets_met(m.targets, m.found) {
    } else if m.in_archive {
        let es = arch_entries(m);
        if m.entry_pos >= es.len() {
            let m2 = IterModel { in_archive: false, entry_pos: 0, pos: m.pos + 1, ..m };
            if batch.len() > 0 {
            } else {
                lemma_stop_has_a_reason(m2, batch);
            }
        } else {
            let e = es[m.entry_pos];
            let m_next = IterModel { entry_pos: m.entry_pos + 1, ..m };
            match e.extraction {
                Extraction::ReadFailed => {},
                Extraction::NotRecognized => {
                    lemma_stop_has_a_reason(m_next, batch);
                },
                Extraction::Identifiers(ids) => {
                    if crate::iter::ids_eligible(ids@, m.targets) && has_new_id(ids@, m.found) {
                        let m2 = IterModel { found: m.found.union(ids@.to_set()), ..m_next };
                        let b2 = batch.push(crate::iter::entry_record(m, e, ids@));
                        if b2.len() >= BATCH_SIZE as int {
                        } else {
                            lemma_stop_has_a_reason(m2, b2);
                        }
                    } else {
                        lemma_stop_has_a_reason(m_next, batch);
                    }
                },
            }
        }
    } else if m.pos >= m.nodes.len() {
    } else {
        let m_next = IterModel { pos: m.pos + 1, ..m };
        match m.nodes[m.pos] {
            ScanNode::Plain(f) => match f.extraction {
                Extraction::ReadFailed => {},
                Extraction::NotRecognized => {
                    lemma_stop_has_a_reason(m_next, batch);
                },
                Extraction::Identifiers(ids) => {
                    if crate::iter::ids_eligible(ids@, m.targets) && has_new_id(ids@, m.found) {
                        let m2 = IterModel { found: m.found.union(ids@.to_set()), ..m_next };
                        let b2 = batch.push(crate::iter::plain_record(f, ids@));
                        if b2.len() >= BATCH_SIZE as int {
                        } else {
                            lemma_stop_has_a_reason(m2, b2);
                        }
                    } else {
                        lemma_stop_has_a_reason(m_next, batch);
                    }
                },
            },
            ScanNode::Archive(es) => {
                if !m.allow_zips {
                    lemma_stop_has_a_reason(m_next, batch);
                } else if batch.len() > 0 {
                } else {
                    lemma_stop_has_a_reason(
                        IterModel { in_archive: true, entry_pos: 0, generation: m.generation + 1, ..m },
                        batch,
                    );
                }
            },
            ScanNode::ArchiveUnreadable => {
                if m.allow_zips {
                } else {
                    lemma_stop_has_a_reason(m_next, batch);
                }
            },
        }
    }
}

/// Whether the extractor reported identifier `u` for this source.
pub open spec fn extraction_has_id(e: Extraction, u: u128) -> bool {
    match e {
        Extraction::Identifiers(ids) => ids@.contains(u),
        _ => false,
    }
}

/// Whether identifier `u` is embedded in this node, as far as the traversal
/// can see it (archive entries only count when descent is on).
pub open spec fn node_has_id(n: ScanNode, allow_zips: bool, u: u128) -> bool {
    match n {
        ScanNode::Plain(f) => extraction_has_id(f.extraction, u),
        ScanNode::Archive(es) => allow_zips && exists|k: int|
            0 <= k < es@.len() && extraction_has_id(#[trigger] es@[k].extraction, u),
        ScanNode::ArchiveUnreadable => false,
    }
}

/// Whether identifier `u` is discoverable anywhere in the input.
pub open spec fn id_occurs(nodes: Seq<ScanNode>, allow_zips: bool, u: u128) -> bool {
    exists|j: int| 0 <= j < nodes.len() && node_has_id(#[trigger] nodes[j], allow_zips, u)
}

/// Every target identifier this source embeds is in the found set.
pub open spec fn extraction_targets_found(e: Extraction, t: Set<u128>, found: Set<u128>) -> bool {
    match e {
        Extraction::Identifiers(ids) => forall|q: int|
            0 <= q < ids@.len() && t.contains(#[trigger] ids@[q]) ==> found.contains(ids@[q]),
        _ => true,
    }
}

/// Every target identifier this node embeds (as the traversal sees it) is
/// in the found set.
pub open spec fn node_targets_found(n: ScanNode, allow_zips: bool, t: Set<u128>, found: Set<
    u128,
>) -> bool {
    match n {
        ScanNode::Plain(f) => extraction_targets_found(f.extraction, t, found),
        ScanNode::Archive(es) => allow_zips ==> forall|k: int|
            0 <= k < es@.len() ==> extraction_targets_found(
                #[trigger] es@[k].extraction,
                t,
                found,
            ),
        ScanNode::ArchiveUnreadable => true,
    }
}

/// Every target embedded in a source the cursor has moved past is found.
pub open spec fn passed_targets_found(m: IterModel) -> bool {
    match m.targets {
        Option::None => true,
        Option::Some(t) => {
            &&& forall|j: int|
                0 <= j < m.pos && j < m.nodes.len() ==> node_targets_found(
                    #[trigger] m.nodes[j],
                    m.allow_zips,
                    t,
                    m.found,
                )
            &&& (m.in_archive ==> forall|k: int|
                0 <= k < m.entry_pos && k < arch_entries(m).len() ==> extraction_targets_found(
                    (#[trigger] arch_entries(m)[k]).extraction,
                    t,
                    m.found,
                ))
        },
    }
}

/// The state bounds that every pull preserves (what `BatchIter::wf` gives
/// of the model).
pub open spec fn model_ok(m: IterModel) -> bool {
    &&& cursor_ok(m)
    &&& m.pos <= m.nodes.len()
    &&& m.in_archive ==> m.nodes[m.pos] is Archive && m.entry_pos <= arch_entries(m).len()
        && m.allow_zips
}

proof fn lemma_etf_monotone(e: Extraction, t: Set<u128>, f1: Set<u128>, f2: Set<u128>)
    requires
        extraction_targets_found(e, t, f1),
        f1.subset_of(f2),
    ensures
        extraction_targets_found(e, t, f2),
{
}

proof fn lemma_passed_monotone(m: IterModel, m2: IterModel)
    requires
        passed_targets_found(m),
        m2.nodes == m.nodes,
        m2.targets == m.targets,
        m2.allow_zips == m.allow_zips,
        m2.pos == m.pos,
        m2.in_archive == m.in_archive,
        m2.entry_pos == m.entry_pos,
        m.found.subset_of(m2.found),
    ensures
        passed_targets_found(m2),
{
    match m.targets {
        Option::None => {},
        Option::Some(t) => {
            assert forall|j: int| 0 <= j < m2.pos && j < m2.nodes.len() implies node_targets_found(
                #[trigger] m2.nodes[j],
                m2.allow_zips,
                t,
                m2.found,
            ) by {
                match m.nodes[j] {
                    ScanNode::Plain(f) => {
                        lemma_etf_monotone(f.extraction, t, m.found, m2.found);
                    },
                    ScanNode::Archive(es) => {
                        if m.allow_zips {
                            assert forall|k: int| 0 <= k < es@.len() implies extraction_targets_found(
                                (#[trigger] es@[k]).extraction,
                                t,
                                m2.found,
                            ) by {
                                lemma_etf_monotone(es@[k].extraction, t, m.found, m2.found);
                            }
                        }
                    },
                    ScanNode::ArchiveUnreadable => {},
                }
            }
            if m2.in_archive {
                assert forall|k: int|
                    0 <= k < m2.entry_pos && k < arch_entries(m2).len() implies extraction_targets_found(
                    (#[trigger] arch_entries(m2)[k]).extraction,
                    t,
                    m2.found,
                ) by {
                    lemma_etf_monotone(arch_entries(m)[k].extraction, t, m.found, m2.found);
                }
            }
        },
    }
}

/// One pull keeps the state bounds, never touches the input, the target set
/// or the descent flag, and preserves the passed-targets invariant: every
/// target embedded in a source the cursor moves past ends up found.
pub proof fn lemma_scan_step_invariants(m: IterModel, batch: Seq<RecordModel>)
    requires
        model_ok(m),
    ensures
        ({
            let s = scan(m, batch).state;
            &&& model_ok(s)
            &&& s.nodes == m.nodes
            &&& s.targets == m.targets
            &&& s.allow_zips == m.allow_zips
            &&& (passed_targets_found(m) ==> passed_targets_found(s))
        }),
    decreases
            m.nodes.len() - m.pos,
            (if m.in_archive {
                0int
            } else {
                1int
            }),
            arch_entries(m).len() - m.entry_pos,
{
    if m.failed {
    } else if targets_met(m.targets, m.found) {
    } else if m.in_archive {
        let es = arch_entries(m);
        if m.entry_pos >= es.len() {
            let m2 = IterModel { in_archive: false, entry_pos: 0, pos: m.pos + 1, ..m };
            assert(passed_targets_found(m) ==> passed_targets_found(m2));
            if batch.len() > 0 {
            } else {
                lemma_scan_step_invariants(m2, batch);
            }
        } else {
            let e = es[m.entry_pos];
            let m_next = IterModel { entry_pos: m.entry_pos + 1, ..m };
            match e.extraction {
                Extraction::ReadFailed => {},
                Extraction::NotRecognized => {
                    assert(passed_targets_found(m) ==> passed_targets_found(m_next));
                    lemma_scan_step_invariants(m_next, batch);
                },
                Extraction::Identifiers(ids) => {
                    if crate::iter::ids_eligible(ids@, m.targets) && has_new_id(ids@, m.found) {
                        let m2 = IterModel { found: m.found.union(ids@.to_set()), ..m_next };
                        let b2 = batch.push(crate::iter::entry_record(m, e, ids@));
                        proof_entry_step(m, m_next, m2, ids@);
                        if b2.len() >= BATCH_SIZE as int {
                        } else {
                            lemma_scan_step_invariants(m2, b2);
                        }
                    } else {
                        if passed_targets_found(m) {
                            match m.targets {
                                Option::Some(t) => {
                                    if crate::iter::ids_eligible(ids@, m.targets) {
                                        assert forall|q: int|
                                            0 <= q < ids@.len() && t.contains(
                                                #[trigger] ids@[q],
                                            ) implies m.found.contains(ids@[q]) by {
                                            assert(!has_new_id(ids@, m.found));
                                        }
                                    } else {
                                        assert forall|q: int|
                                            0 <= q < ids@.len() implies !t.contains(
                                                #[trigger] ids@[q],
                                            ) by {
                                            if t.contains(ids@[q]) {
                                                assert(crate::iter::ids_eligible(ids@, m.targets));
                                            }
                                        }
                                    }
                                },
                                Option::None => {},
                            }
                            assert(passed_targets_found(m_next));
                        }
                        lemma_scan_step_invariants(m_next, batch);
                    }
                },
            }
        }
    } else if m.pos >= m.nodes.len() {
    } else {
        let m_next = IterModel { pos: m.pos + 1, ..m };
        match m.nodes[m.pos] {
            ScanNode::Plain(f) => match f.extraction {
                Extraction::ReadFailed => {},
                Extraction::NotRecognized => {
                    assert(passed_targets_found(m) ==> passed_targets_found(m_next));
                    lemma_scan_step_invariants(m_next, batch);
                },
                Extraction::Identifiers(ids) => {
                    if crate::iter::ids_eligible(ids@, m.targets) && has_new_id(ids@, m.found) {
                        let m2 = IterModel { found: m.found.union(ids@.to_set()), ..m_next };
                        let b2 = batch.push(crate::iter::plain_record(f, ids@));
                        proof_plain_step(m, m_next, m2, ids@);
                        if b2.len() >= BATCH_SIZE as int {
                        } else {
                            lemma_scan_step_invariants(m2, b2);
                        }
                    } else {
                        if passed_targets_found(m) {
                            match m.targets {
                                Option::Some(t) => {
                                    if crate::iter::ids_eligible(ids@, m.targets) {
                                        assert forall|q: int|
                                            0 <= q < ids@.len() && t.contains(
                                                #[trigger] ids@[q],
                                            ) implies m.found.contains(ids@[q]) by {
                                            assert(!has_new_id(ids@, m.found));
                                        }
                                    } else {
                                        assert forall|q: int|
                                            0 <= q < ids@.len() implies !t.contains(
                                                #[trigger] ids@[q],
                                            ) by {
                                            if t.contains(ids@[q]) {
                                                assert(crate::iter::ids_eligible(ids@, m.targets));
                                            }
                                        }
                                    }
                                },
                                Option::None => {},
                            }
                            assert(passed_targets_found(m_next));
                        }
                        lemma_scan_step_invariants(m_next, batch);
                    }
                },
            },
            ScanNode::Archive(es) => {
                if !m.allow_zips {
                    assert(passed_targets_found(m) ==> passed_targets_found(m_next));
                    lemma_scan_step_invariants(m_next, batch);
                } else if batch.len() > 0 {
                } else {
                    let m2 = IterModel {
                        in_archive: true,
                        entry_pos: 0,
                        generation: m.generation + 1,
                        ..m
                    };
                    assert(passed_targets_found(m) ==> passed_targets_found(m2));
                    lemma_scan_step_invariants(m2, batch);
                }
            },
            ScanNode::ArchiveUnreadable => {
                if m.allow_zips {
                } else {
                    assert(passed_targets_found(m) ==> passed_targets_found(m_next));
                    lemma_scan_step_invariants(m_next, batch);
                }
            },
        }
    }
}

/// The passed-targets invariant survives keeping an archive entry.
proof fn proof_entry_step(m: IterModel, m_next: IterModel, m2: IterModel, ids: Seq<u128>)
    requires
        model_ok(m),
        m.in_archive,
        m.entry_pos < arch_entries(m).len(),
        m_next == (IterModel { entry_pos: m.entry_pos + 1, ..m }),
        m2 == (IterModel { found: m.found.union(ids.to_set()), ..m_next }),
        arch_entries(m)[m.entry_pos].extraction matches Extraction::Identifiers(v) && v@ == ids,
    ensures
        passed_targets_found(m) ==> passed_targets_found(m2),
{
    if passed_targets_found(m) {
        let mid = IterModel { found: m2.found, ..m };
        lemma_passed_monotone(m, mid);
        match m.targets {
            Option::Some(t) => {
                assert forall|k: int|
                    0 <= k < m2.entry_pos && k < arch_entries(m2).len() implies extraction_targets_found(
                    (#[trigger] arch_entries(m2)[k]).extraction,
                    t,
                    m2.found,
                ) by {
                    if k < m.entry_pos {
                        assert(extraction_targets_found(arch_entries(mid)[k].extraction, t, mid.found));
                    } else {
                        assert(k == m.entry_pos);
                        assert forall|q: int|
                            0 <= q < ids.len() && t.contains(#[trigger] ids[q]) implies m2.found.contains(
                            ids[q],
                        ) by {
                            assert(ids.to_set().contains(ids[q]));
                        }
                    }
                }
            },
            Option::None => {},
        }
    }
}

/// The passed-targets invariant survives keeping a plain file.
proof fn proof_plain_step(m: IterModel, m_next: IterModel, m2: IterModel, ids: Seq<u128>)
    requires
        model_ok(m),
        !m.in_archive,
        0 <= m.pos < m.nodes.len(),
        m_next == (IterModel { pos: m.pos + 1, ..m }),
        m2 == (IterModel { found: m.found.union(ids.to_set()), ..m_next }),
        m.nodes[m.pos] matches ScanNode::Plain(f) && (f.extraction matches
            Extraction::Identifiers(v) && v@ == ids),
    ensures
        passed_targets_found(m) ==> passed_targets_found(m2),
{
    if passed_targets_found(m) {
        let mid = IterModel { found: m2.found, ..m };
        lemma_passed_monotone(m, mid);
        match m.targets {
            Option::Some(t) => {
                assert forall|j: int|
                    0 <= j < m2.pos && j < m2.nodes.len() implies node_targets_found(
                    #[trigger] m2.nodes[j],
                    m2.allow_zips,
                    t,
                    m2.found,
                ) by {
                    if j < m.pos {
                        assert(node_targets_found(mid.nodes[j], mid.allow_zips, t, mid.found));
                    } else {
                        assert(j == m.pos);
                        assert forall|q: int|
                            0 <= q < ids.len() && t.contains(#[trigger] ids[q]) implies m2.found.contains(
                            ids[q],
                        ) by {
                            assert(ids.to_set().contains(ids[q]));
                        }
                    }
                }
            },
            Option::None => {},
        }
    }
}

/// The state after `pulls` pulls of the iterator, each building a fresh
/// batch (a pull that ends the sequence leaves the state as it was).
pub open spec fn run_state(m: IterModel, pulls: nat) -> IterModel
    decreases pulls,
{
    if pulls == 0 {
        m
    } else {
        scan(run_state(m, (pulls - 1) as nat), Seq::<RecordModel>::empty()).state
    }
}

/// The per-pull invariants hold at every point of a run: the bounds, the
/// input, the target set and the descent flag are kept, and so is the
/// passed-targets invariant.
pub proof fn lemma_run_invariants(m: IterModel, pulls: nat)
    requires
        model_ok(m),
    ensures
        ({
            let s = run_state(m, pulls);
            &&& model_ok(s)
            &&& s.nodes == m.nodes
            &&& s.targets == m.targets
            &&& s.allow_zips == m.allow_zips
            &&& (passed_targets_found(m) ==> passed_targets_found(s))
        }),
    decreases pulls,
{
    if pulls > 0 {
        lemma_run_invariants(m, (pulls - 1) as nat);
        lemma_scan_step_invariants(run_state(m, (pulls - 1) as nat), Seq::<RecordModel>::empty());
    }
}

/// Target discovery is complete: if some pull of a run ends the sequence
/// (returns nothing) and no hard error has struck, then either every target
/// is already found, or the whole input was scanned — and then every target
/// discoverable anywhere in it is found.  So with every target discoverable,
/// the found set covers the target set once the run ends; and by
/// `lemma_early_stop_is_immediate` the run stops scanning the moment the
/// last target is found, not at exhaustion.
pub proof fn lemma_discoverable_targets_are_found(m: IterModel, pulls: nat)
    requires
        model_ok(m),
        passed_targets_found(m),
        scan(run_state(m, pulls), Seq::<RecordModel>::empty()).emit is Stop,
        !run_state(m, pulls).failed,
        m.targets matches Option::Some(t) && (forall|u: u128|
            t.contains(u) ==> id_occurs(m.nodes, m.allow_zips, u)),
    ensures
        targets_met(m.targets, run_state(m, (pulls + 1) as nat).found),
{
    let t = m.targets.unwrap();
    let s = run_state(m, pulls);
    let s2 = run_state(m, (pulls + 1) as nat);
    lemma_run_invariants(m, pulls);
    lemma_run_invariants(m, (pulls + 1) as nat);
    lemma_stop_has_a_reason(s, Seq::<RecordModel>::empty());
    assert(s2 == scan(s, Seq::<RecordModel>::empty()).state);
    if targets_met(s2.targets, s2.found) {
    } else {
        assert(s2.pos >= s2.nodes.len() && !s2.in_archive);
        assert(passed_targets_found(s2));
        assert forall|u: u128| t.contains(u) implies s2.found.contains(u) by {
            assert(id_occurs(m.nodes, m.allow_zips, u));
            let j = choose|j: int|
                0 <= j < m.nodes.len() && node_has_id(#[trigger] m.nodes[j], m.allow_zips, u);
            assert(node_targets_found(s2.nodes[j], s2.allow_zips, t, s2.found));
            match m.nodes[j] {
                ScanNode::Plain(f) => {
                    match f.extraction {
                        Extraction::Identifiers(ids) => {
                            let q = choose|q: int| 0 <= q < ids@.len() && ids@[q] == u;
                            assert(extraction_targets_found(f.extraction, t, s2.found));
                            assert(s2.found.contains(ids@[q]));
                        },
                        _ => {},
                    }
                },
                ScanNode::Archive(es) => {
                    let k = choose|k: int|
                        0 <= k < es@.len() && extraction_has_id(
                            #[trigger] es@[k].extraction,
                            u,
                        );
                    assert(extraction_targets_found(es@[k].extraction, t, s2.found));
                    match es@[k].extraction {
                        Extraction::Identifiers(ids) => {
                            let q = choose|q: int| 0 <= q < ids@.len() && ids@[q] == u;
                            assert(s2.found.contains(ids@[q]));
                        },
                        _ => {},
                    }
                },
                ScanNode::ArchiveUnreadable => {},
            }
        }
        assert(t.subset_of(s2.found));
    }
}

/// A pull over an input in which no target occurs keeps nothing: the found
/// set does not change, and a pull that started with an empty batch emits
/// no batch.
pub proof fn lemma_untargeted_pull_keeps_nothing(m: IterModel, batch: Seq<RecordModel>)
    requires
        model_ok(m),
        m.targets matches Option::Some(t) && (forall|u: u128|
            t.contains(u) ==> !id_occurs(m.nodes, m.allow_zips, u)),
    ensures
        scan(m, batch).state.found == m.found,
        batch.len() == 0 ==> !(scan(m, batch).emit is Batch),
    decreases
            m.nodes.len() - m.pos,
            (if m.in_archive {
                0int
            } else {
                1int
            }),
            arch_entries(m).len() - m.entry_pos,
{
    let t = m.targets.unwrap();
    if m.failed {
    } else if targets_met(m.targets, m.found) {
    } else if m.in_archive {
        let es = arch_entries(m);
        if m.entry_pos >= es.len() {
            let m2 = IterModel { in_archive: false, entry_pos: 0, pos: m.pos + 1, ..m };
            if batch.len() > 0 {
            } else {
                lemma_untargeted_pull_keeps_nothing(m2, batch);
            }
        } else {
            let e = es[m.entry_pos];
            let m_next = IterModel { entry_pos: m.entry_pos + 1, ..m };
            match e.extraction {
                Extraction::ReadFailed => {},
                Extraction::NotRecognized => {
                    lemma_untargeted_pull_keeps_nothing(m_next, batch);
                },
                Extraction::Identifiers(ids) => {
                    if crate::iter::ids_eligible(ids@, m.targets) {
                        let q = choose|q: int| 0 <= q < ids@.len() && t.contains(ids@[q]);
                        assert(extraction_has_id(e.extraction, ids@[q]));
                        assert(node_has_id(m.nodes[m.pos], m.allow_zips, ids@[q]));
                        assert(id_occurs(m.nodes, m.allow_zips, ids@[q]));
                        assert(false);
                    }
                    lemma_untargeted_pull_keeps_nothing(m_next, batch);
                },
            }
        }
    } else if m.pos >= m.nodes.len() {
    } else {
        let m_next = IterModel { pos: m.pos + 1, ..m };
        match m.nodes[m.pos] {
            ScanNode::Plain(f) => match f.extraction {
                Extraction::ReadFailed => {},
                Extraction::NotRecognized => {
                    lemma_untargeted_pull_keeps_nothing(m_next, batch);
                },
                Extraction::Identifiers(ids) => {
                    if crate::iter::ids_eligible(ids@, m.targets) {
                        let q = choose|q: int| 0 <= q < ids@.len() && t.contains(ids@[q]);
                        assert(extraction_has_id(f.extraction, ids@[q]));
                        assert(node_has_id(m.nodes[m.pos], m.allow_zips, ids@[q]));
                        assert(id_occurs(m.nodes, m.allow_zips, ids@[q]));
                        assert(false);
                    }
                    lemma_untargeted_pull_keeps_nothing(m_next, batch);
                },
            },
            ScanNode::Archive(es) => {
                if !m.allow_zips {
                    lemma_untargeted_pull_keeps_nothing(m_next, batch);
                } else if batch.len() > 0 {
                } else {
                    lemma_untargeted_pull_keeps_nothing(
                        IterModel { in_archive: true, entry_pos: 0, generation: m.generation + 1, ..m },
                        batch,
                    );
                }
            },
            ScanNode::ArchiveUnreadable => {
                if m.allow_zips {
                } else {
                    lemma_untargeted_pull_keeps_nothing(m_next, batch);
                }
            },
        }
    }
}

/// A whole run over an input in which no target occurs never stops early
/// for the targets' sake and never grows the found set: every pull comes
/// back empty-handed, and the unsatisfied targets are the target set minus
/// whatever was found before the run.
pub proof fn lemma_absent_targets_stay_unsatisfied(m: IterModel, pulls: nat)
    requires
        model_ok(m),
        m.targets matches Option::Some(t) && (forall|u: u128|
            t.contains(u) ==> !id_occurs(m.nodes, m.allow_zips, u)),
    ensures
        run_state(m, pulls).found == m.found,
        !(scan(run_state(m, pulls), Seq::<RecordModel>::empty()).emit is Batch),
    decreases pulls,
{
    if pulls > 0 {
        lemma_absent_targets_stay_unsatisfied(m, (pulls - 1) as nat);
        lemma_run_invariants(m, (pulls - 1) as nat);
        lemma_untargeted_pull_keeps_nothing(
            run_state(m, (pulls - 1) as nat),
            Seq::<RecordModel>::empty(),
        );
    }
    lemma_run_invariants(m, pulls);
    lemma_untargeted_pull_keeps_nothing(run_state(m, pulls), Seq::<RecordModel>::empty());
}

/// Once every target is found, the stop is for good: every later pull
/// leaves the state untouched and returns nothing.
pub proof fn lemma_early_stop_ends_the_run(m: IterModel, pulls: nat)
    requires
        cursor_ok(m),
        targets_met(m.targets, m.found),
    ensures
        run_state(m, pulls) == m,
        scan(run_state(m, pulls), Seq::<RecordModel>::empty()).emit is Stop,
    decreases pulls,
{
    if pulls > 0 {
        lemma_early_stop_ends_the_run(m, (pulls - 1) as nat);
    }
    lemma_early_stop_is_immediate(m);
}

/// The passed-targets invariant holds of a traversal that has not started
/// (as `BatchIter::new` leaves it), so `lemma_discoverable_targets_are_found`
/// applies to every run from the beginning with no further assumption.
pub proof fn lemma_fresh_state_passed_targets(m: IterModel)
    requires
        m.pos == 0,
        !m.in_archive,
    ensures
        passed_targets_found(m),
{
}

} // verus!
