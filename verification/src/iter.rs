//! The batch discovery iterator: a resumable traversal over the scan input
//! that deduplicates by identifier and yields bounded batches.
//!
//! The whole behaviour of one pull is given by the spec function [`scan`]:
//! a step-wise reading of the traversal from the iterator's current state,
//! carrying the batch built so far.  `BatchIter::next` is proved to return
//! exactly what `scan` says, and to leave the iterator in the state `scan`
//! says.

use vstd::prelude::*;

use crate::record::{MatchRecord, RecordModel, Source, SourceModel};
use crate::scan::{ArchiveEntry, Extraction, PlainFile, ScanNode, extraction_wf, name_prefix, nodes_wf, archive_name_for};

verus! {

/// The largest number of records one yielded batch may hold.
pub const BATCH_SIZE: usize = 12;

/// A hard error that aborts the whole traversal.
#[derive(Clone, Copy, Debug, PartialEq, Eq, Structural)]
pub enum ScanError {
    /// A file or archive entry could not be read or hashed.
    SourceUnreadable,
    /// A zip archive's index could not be read.
    ArchiveUnreadable,
}

/// The iterator's abstract state.
#[verifier::ext_equal]
pub ghost struct IterModel {
    /// The visited files, in visit order.
    pub nodes: Seq<ScanNode>,
    /// Index of the node under the cursor.
    pub pos: int,
    /// Whether the node under the cursor is an archive the traversal has
    /// opened and not yet exhausted.
    pub in_archive: bool,
    /// Index of the entry under the cursor inside the open archive.
    pub entry_pos: int,
    /// How many archives have been opened so far; the open archive, if any,
    /// is the `generation`-th.
    pub generation: int,
    /// The caller-supplied target identifiers, if any.
    pub targets: Option<Set<u128>>,
    /// Whether the traversal descends into archives.
    pub allow_zips: bool,
    /// Every identifier seen in a kept record so far.
    pub found: Set<u128>,
    /// Whether a hard error has ended the sequence.
    pub failed: bool,
}

/// Whether an extracted identifier list makes its source eligible: it must
/// intersect the target set when one was supplied, and be non-empty
/// otherwise.
pub open spec fn ids_eligible(ids: Seq<u128>, targets: Option<Set<u128>>) -> bool {
    match targets {
        Option::Some(t) => exists|k: int| 0 <= k < ids.len() && t.contains(ids[k]),
        Option::None => ids.len() > 0,
    }
}

/// Whether the list names an identifier not yet in the found set.
pub open spec fn has_new_id(ids: Seq<u128>, found: Set<u128>) -> bool {
    exists|k: int| 0 <= k < ids.len() && !found.contains(ids[k])
}

/// Whether every target identifier has been found (never true without a
/// target set).
pub open spec fn targets_met(targets: Option<Set<u128>>, found: Set<u128>) -> bool {
    match targets {
        Option::Some(t) => t.subset_of(found),
        Option::None => false,
    }
}

/// The entries of the archive under the cursor (empty if the cursor is not
/// on an archive).
pub open spec fn arch_entries(m: IterModel) -> Seq<ArchiveEntry> {
    if 0 <= m.pos < m.nodes.len() {
        match m.nodes[m.pos] {
            ScanNode::Archive(es) => es@,
            _ => Seq::<ArchiveEntry>::empty(),
        }
    } else {
        Seq::<ArchiveEntry>::empty()
    }
}

/// The states from which `scan` is defined: the cursor is in bounds.  A
/// well-formed `BatchIter` satisfies it (see
/// `BatchIter::lemma_wf_cursor_ok`), so the laws over `scan` apply to every
/// state an iterator can be in.
pub open spec fn cursor_ok(m: IterModel) -> bool {
    &&& 0 <= m.pos
    &&& m.in_archive ==> m.pos < m.nodes.len() && 0 <= m.entry_pos
}

/// What one pull of the iterator produces.
#[verifier::ext_equal]
pub ghost enum Emit {
    /// The sequence is over: nothing further to yield.
    Stop,
    /// A non-empty batch of records.
    Batch(Seq<RecordModel>),
    /// A hard error; the sequence is aborted.
    Fail(ScanError),
}

/// The result of one pull: what is emitted, and the state left behind.
#[verifier::ext_equal]
pub ghost struct StepOut {
    pub emit: Emit,
    pub state: IterModel,
}

pub open spec fn yield_or_stop(m: IterModel, batch: Seq<RecordModel>) -> StepOut {
    if batch.len() > 0 {
        StepOut { emit: Emit::Batch(batch), state: m }
    } else {
        StepOut { emit: Emit::Stop, state: m }
    }
}

/// The record built for an archive entry kept at the cursor.
pub open spec fn entry_record(m: IterModel, e: ArchiveEntry, ids: Seq<u128>) -> RecordModel {
    RecordModel {
        source: SourceModel::Archived { generation: m.generation, entry_index: m.entry_pos },
        arc_name: name_prefix() + e.name@,
        checksum: e.checksum@,
        size: e.size,
        ids: ids.to_set(),
    }
}

/// The record built for a plain file kept at the cursor.
pub open spec fn plain_record(f: PlainFile, ids: Seq<u128>) -> RecordModel {
    RecordModel {
        source: SourceModel::Plain { path: f.rel_path@ },
        arc_name: name_prefix() + f.rel_path@,
        checksum: f.checksum@,
        size: f.size,
        ids: ids.to_set(),
    }
}

/// One pull of the iterator, from state `m`, with `batch` already built in
/// this pull.  This is the reference meaning of `BatchIter::next`.
pub open spec fn scan(m: IterModel, batch: Seq<RecordModel>) -> StepOut
    decreases
            m.nodes.len() - m.pos,
            (if m.in_archive { 0int } else { 1int }),
            arch_entries(m).len() - m.entry_pos,
    when 0 <= m.pos && (m.in_archive ==> m.pos < m.nodes.len() && 0 <= m.entry_pos)
{
    if m.failed {
        StepOut { emit: Emit::Stop, state: m }
    } else if targets_met(m.targets, m.found) {
        // Early stop: nothing further is scanned once every target is found.
        yield_or_stop(m, batch)
    } else if m.in_archive {
        let es = arch_entries(m);
        if m.entry_pos >= es.len() {
            // The open archive is exhausted: close it and, if records have
            // accumulated, flush them before the walk resumes.
            let m2 = IterModel { in_archive: false, entry_pos: 0, pos: m.pos + 1, ..m };
            if batch.len() > 0 {
                StepOut { emit: Emit::Batch(batch), state: m2 }
            } else {
                scan(m2, batch)
            }
        } else {
            let e = es[m.entry_pos];
            let m_next = IterModel { entry_pos: m.entry_pos + 1, ..m };
            match e.extraction {
                Extraction::ReadFailed => StepOut {
                    emit: Emit::Fail(ScanError::SourceUnreadable),
                    state: IterModel { failed: true, ..m },
                },
                Extraction::NotRecognized => scan(m_next, batch),
                Extraction::Identifiers(ids) => {
                    if ids_eligible(ids@, m.targets) && has_new_id(ids@, m.found) {
                        let m2 = IterModel { found: m.found.union(ids@.to_set()), ..m_next };
                        let b2 = batch.push(entry_record(m, e, ids@));
                        if b2.len() >= BATCH_SIZE as int {
                            StepOut { emit: Emit::Batch(b2), state: m2 }
                        } else {
                            scan(m2, b2)
                        }
                    } else {
                        scan(m_next, batch)
                    }
                }
            }
        }
    } else if m.pos >= m.nodes.len() {
        // The walk is exhausted: flush what accumulated, if anything.
        yield_or_stop(m, batch)
    } else {
        let m_next = IterModel { pos: m.pos + 1, ..m };
        match m.nodes[m.pos] {
            ScanNode::Plain(f) => match f.extraction {
                Extraction::ReadFailed => StepOut {
                    emit: Emit::Fail(ScanError::SourceUnreadable),
                    state: IterModel { failed: true, ..m },
                },
                Extraction::NotRecognized => scan(m_next, batch),
                Extraction::Identifiers(ids) => {
                    if ids_eligible(ids@, m.targets) && has_new_id(ids@, m.found) {
                        let m2 = IterModel { found: m.found.union(ids@.to_set()), ..m_next };
                        let b2 = batch.push(plain_record(f, ids@));
                        if b2.len() >= BATCH_SIZE as int {
                            StepOut { emit: Emit::Batch(b2), state: m2 }
                        } else {
                            scan(m2, b2)
                        }
                    } else {
                        scan(m_next, batch)
                    }
                }
            },
            ScanNode::Archive(es) => {
                if !m.allow_zips {
                    // Archive descent disabled: the file is not a recognized
                    // binary, so it is skipped.
                    scan(m_next, batch)
                } else if batch.len() > 0 {
                    // Forced flush: the batch must leave before the archive
                    // it may reference is replaced.  The archive node stays
                    // under the cursor and is opened on the next pull.
                    StepOut { emit: Emit::Batch(batch), state: m }
                } else {
                    scan(
                        IterModel {
                            in_archive: true,
                            entry_pos: 0,
                            generation: m.generation + 1,
                            ..m
                        },
                        batch,
                    )
                }
            }
            ScanNode::ArchiveUnreadable => {
                if m.allow_zips {
                    StepOut {
                        emit: Emit::Fail(ScanError::ArchiveUnreadable),
                        state: IterModel { failed: true, ..m },
                    }
                } else {
                    scan(m_next, batch)
                }
            }
        }
    }
}

/// The view of a batch under construction.
pub open spec fn batch_model(b: Seq<MatchRecord>) -> Seq<RecordModel> {
    b.map_values(|x: MatchRecord| x.model())
}

/// The emission that a return value of `BatchIter::next` stands for.
pub open spec fn emit_of(r: Option<Result<Vec<MatchRecord>, ScanError>>) -> Emit {
    match r {
        Option::None => Emit::Stop,
        Option::Some(Result::Ok(b)) => Emit::Batch(batch_model(b@)),
        Option::Some(Result::Err(e)) => Emit::Fail(e),
    }
}

fn vec_contains_id(v: &Vec<u128>, x: u128) -> (b: bool)
    ensures
        b == v@.contains(x),
{
    let mut k: usize = 0;
    while k < v.len()
        invariant
            k <= v@.len(),
            forall|j: int| 0 <= j < k ==> v@[j] != x,
        decreases v@.len() - k,
    {
        if v[k] == x {
            return true;
        }
        k = k + 1;
    }
    false
}

fn any_new_id(found: &Vec<u128>, ids: &Vec<u128>) -> (b: bool)
    ensures
        b == has_new_id(ids@, found@.to_set()),
{
    let mut k: usize = 0;
    while k < ids.len()
        invariant
            k <= ids@.len(),
            forall|j: int| 0 <= j < k ==> found@.contains(#[trigger] ids@[j]),
        decreases ids@.len() - k,
    {
        if !vec_contains_id(found, ids[k]) {
            proof {
                assert(!found@.to_set().contains(ids@[k as int]));
            }
            return true;
        }
        k = k + 1;
    }
    false
}

fn copy_ids(v: &Vec<u128>) -> (r: Vec<u128>)
    ensures
        r@ == v@,
{
    let mut r: Vec<u128> = Vec::new();
    let mut k: usize = 0;
    while k < v.len()
        invariant
            k <= v@.len(),
            r@ == v@.take(k as int),
        decreases v@.len() - k,
    {
        r.push(v[k]);
        proof {
            assert(r@ =~= v@.take(k + 1 as int));
        }
        k = k + 1;
    }
    proof {
        assert(v@.take(v@.len() as int) =~= v@);
    }
    r
}

fn clone_extraction(e: &Extraction) -> (r: Extraction)
    ensures
        match (*e, r) {
            (Extraction::Identifiers(a), Extraction::Identifiers(b)) => a@ == b@,
            (Extraction::NotRecognized, Extraction::NotRecognized) => true,
            (Extraction::ReadFailed, Extraction::ReadFailed) => true,
            _ => false,
        },
{
    match e {
        Extraction::Identifiers(a) => Extraction::Identifiers(copy_ids(a)),
        Extraction::NotRecognized => Extraction::NotRecognized,
        Extraction::ReadFailed => Extraction::ReadFailed,
    }
}

/// The batch discovery iterator.  One value of it stands for one traversal
/// of one scan input; the found-identifier accumulator is handed in by the
/// caller and handed back by [`BatchIter::into_found`], so that several
/// traversals in one run share one accumulator.
pub struct BatchIter {
    nodes: Vec<ScanNode>,
    pos: usize,
    in_archive: bool,
    entry_pos: usize,
    generation: u64,
    targets: Option<Vec<u128>>,
    allow_zips: bool,
    found: Vec<u128>,
    failed: bool,
}

impl BatchIter {
    /// The iterator's abstract state.
    pub closed spec fn model(self) -> IterModel {
        IterModel {
            nodes: self.nodes@,
            pos: self.pos as int,
            in_archive: self.in_archive,
            entry_pos: self.entry_pos as int,
            generation: self.generation as int,
            targets: match self.targets {
                Option::Some(t) => Option::Some(t@.to_set()),
                Option::None => Option::None,
            },
            allow_zips: self.allow_zips,
            found: self.found@.to_set(),
            failed: self.failed,
        }
    }

    /// The representation invariant: the cursor is in bounds, it sits on an
    /// archive whenever one is open, the generation counter never exceeds
    /// the number of nodes passed, and the identifier lists are duplicate
    /// free.
    pub closed spec fn wf(self) -> bool {
        &&& self.pos <= self.nodes@.len()
        &&& self.in_archive ==> self.pos < self.nodes@.len()
            && self.nodes@[self.pos as int] is Archive && self.entry_pos <= arch_entries(
            self.model(),
        ).len()
        &&& !self.in_archive ==> self.entry_pos == 0
        &&& self.in_archive ==> self.allow_zips
        &&& self.generation as int <= self.pos as int + (if self.in_archive {
            1int
        } else {
            0int
        })
        &&& self.found@.no_duplicates()
        &&& match self.targets {
            Option::Some(t) => t@.no_duplicates(),
            Option::None => true,
        }
        &&& nodes_wf(self.nodes@)
    }

    /// Starts a traversal over `nodes` (the files of one root, in visit
    /// order).  `targets` restricts matching and drives early stop;
    /// `allow_zips` enables archive descent; `found` is the accumulator of
    /// identifiers already seen in earlier traversals of the same run.
    pub fn new(
        nodes: Vec<ScanNode>,
        targets: Option<Vec<u128>>,
        allow_zips: bool,
        found: Vec<u128>,
    ) -> (r: BatchIter)
        requires
            nodes_wf(nodes@),
            found@.no_duplicates(),
            match targets {
                Option::Some(t) => t@.no_duplicates(),
                Option::None => true,
            },
        ensures
            r.wf(),
            r.model() == (IterModel {
                nodes: nodes@,
                pos: 0,
                in_archive: false,
                entry_pos: 0,
                generation: 0,
                targets: match targets {
                    Option::Some(t) => Option::Some(t@.to_set()),
                    Option::None => Option::None,
                },
                allow_zips,
                found: found@.to_set(),
                failed: false,
            }),
    {
        BatchIter {
            nodes,
            pos: 0,
            in_archive: false,
            entry_pos: 0,
            generation: 0,
            targets,
            allow_zips,
            found,
            failed: false,
        }
    }

    /// Every identifier seen in a kept record so far, each once.
    pub fn found_identifiers(&self) -> (r: &Vec<u128>)
        requires
            self.wf(),
        ensures
            r@.to_set() == self.model().found,
            r@.no_duplicates(),
    {
        &self.found
    }

    /// Hands the accumulator back, for the next traversal of the run.
    pub fn into_found(self) -> (r: Vec<u128>)
        requires
            self.wf(),
        ensures
            r@.to_set() == self.model().found,
            r@.no_duplicates(),
    {
        self.found
    }

    /// The target identifiers never seen in any kept record, each once; empty
    /// when no target set was supplied.
    pub fn unsatisfied_targets(&self) -> (r: Vec<u128>)
        requires
            self.wf(),
        ensures
            match self.model().targets {
                Option::Some(t) => r@.to_set() == t.difference(self.model().found)
                    && r@.no_duplicates(),
                Option::None => r@.len() == 0,
            },
    {
        let mut r: Vec<u128> = Vec::new();
        match &self.targets {
            Option::None => r,
            Option::Some(t) => {
                let mut k: usize = 0;
                while k < t.len()
                    invariant
                        k <= t@.len(),
                        self.wf(),
                        self.targets matches Option::Some(tv) && tv@ == t@,
                        r@.to_set() == t@.take(k as int).to_set().difference(
                            self.found@.to_set(),
                        ),
                        r@.no_duplicates(),
                        forall|j: int|
                            0 <= j < r@.len() ==> t@.take(k as int).contains(#[trigger] r@[j]),
                    decreases t@.len() - k,
                {
                    let id = t[k];
                    proof {
                        assert(t@.no_duplicates());
                        assert(t@.take(k + 1 as int) =~= t@.take(k as int).push(id));
                        t@.take(k as int).lemma_push_to_set_commute(id);
                    }
                    if !vec_contains_id(&self.found, id) {
                        proof {
                            if r@.contains(id) {
                                let j = choose|j: int| 0 <= j < r@.len() && r@[j] == id;
                                assert(t@.take(k as int).contains(id));
                                let i = choose|i: int|
                                    0 <= i < k && #[trigger] t@.take(k as int)[i] == id;
                                assert(t@[i] == t@[k as int]);
                                assert(false);
                            }
                        }
                        let ghost r_pre = r@;
                        r.push(id);
                        proof {
                            r_pre.lemma_push_to_set_commute(id);
                            assert(r@.to_set() =~= t@.take(k + 1 as int).to_set().difference(
                                self.found@.to_set(),
                            ));
                            assert forall|j: int| 0 <= j < r@.len() implies t@.take(
                                k + 1 as int,
                            ).contains(#[trigger] r@[j]) by {
                                if j < r_pre.len() {
                                    let i = choose|i: int|
                                        0 <= i < k && #[trigger] t@.take(k as int)[i] == r_pre[j];
                                    assert(t@.take(k + 1 as int)[i] == r@[j]);
                                } else {
                                    assert(t@.take(k + 1 as int)[k as int] == id);
                                }
                            }
                        }
                    } else {
                        proof {
                            assert(r@.to_set() =~= t@.take(k + 1 as int).to_set().difference(
                                self.found@.to_set(),
                            ));
                            assert forall|j: int| 0 <= j < r@.len() implies t@.take(
                                k + 1 as int,
                            ).contains(#[trigger] r@[j]) by {
                                let i = choose|i: int|
                                    0 <= i < k && #[trigger] t@.take(k as int)[i] == r@[j];
                                assert(t@.take(k + 1 as int)[i] == r@[j]);
                            }
                        }
                    }
                    k = k + 1;
                }
                proof {
                    assert(t@.take(t@.len() as int) =~= t@);
                }
                r
            }
        }
    }

    /// Whether every supplied target identifier has been found.
    pub fn found_all(&self) -> (b: bool)
        requires
            self.wf(),
        ensures
            b == targets_met(self.model().targets, self.model().found),
    {
        match &self.targets {
            Option::None => false,
            Option::Some(t) => {
                let mut k: usize = 0;
                while k < t.len()
                    invariant
                        k <= t@.len(),
                        self.wf(),
                        self.targets matches Option::Some(tv) && tv@ == t@,
                        forall|j: int| 0 <= j < k ==> self.found@.contains(#[trigger] t@[j]),
                    decreases t@.len() - k,
                {
                    if !vec_contains_id(&self.found, t[k]) {
                        proof {
                            assert(t@.contains(t@[k as int]));
                            assert(!self.found@.to_set().contains(t@[k as int]));
                        }
                        return false;
                    }
                    k = k + 1;
                }
                true
            }
        }
    }

    fn is_eligible(&self, ids: &Vec<u128>) -> (b: bool)
        requires
            self.wf(),
        ensures
            b == ids_eligible(ids@, self.model().targets),
    {
        match &self.targets {
            Option::None => ids.len() > 0,
            Option::Some(t) => {
                let mut k: usize = 0;
                while k < ids.len()
                    invariant
                        k <= ids@.len(),
                        self.wf(),
                        t == self.targets.unwrap(),
                        forall|j: int| 0 <= j < k ==> !t@.to_set().contains(#[trigger] ids@[j]),
                    decreases ids@.len() - k,
                {
                    if vec_contains_id(t, ids[k]) {
                        return true;
                    }
                    k = k + 1;
                }
                false
            }
        }
    }

    /// Applies the dedup rule to one eligible record: the record is kept
    /// only if it brings an identifier not yet found, and all its
    /// identifiers are recorded as found once it is kept.  Returns whether
    /// the batch has reached the size cap.
    fn push_ref(&mut self, batch: &mut Vec<MatchRecord>, r: MatchRecord) -> (cap: bool)
        requires
            old(self).wf(),
            r.wf(),
        ensures
            final(self).wf(),
            final(self).model() == (IterModel {
                found: final(self).model().found,
                ..old(self).model()
            }),
            if has_new_id(r.identifiers@, old(self).model().found) {
                final(self).model().found == old(self).model().found.union(
                    r.identifiers@.to_set(),
                ) && final(batch)@ == old(batch)@.push(r)
            } else {
                final(self).model().found == old(self).model().found && final(batch)@ == old(
                    batch,
                )@
            },
            cap == (final(batch)@.len() >= BATCH_SIZE),
    {
        let ghost found0 = self.found@.to_set();
        let any_new = any_new_id(&self.found, &r.identifiers);
        if any_new {
            let mut k: usize = 0;
            while k < r.identifiers.len()
                invariant
                    k <= r.identifiers@.len(),
                    self.found@.no_duplicates(),
                    self.found@.to_set() == found0.union(r.identifiers@.take(k as int).to_set()),
                    self.nodes == old(self).nodes,
                    self.pos == old(self).pos,
                    self.in_archive == old(self).in_archive,
                    self.entry_pos == old(self).entry_pos,
                    self.generation == old(self).generation,
                    self.targets == old(self).targets,
                    self.allow_zips == old(self).allow_zips,
                    self.failed == old(self).failed,
                decreases r.identifiers@.len() - k,
            {
                let id = r.identifiers[k];
                proof {
                    assert(r.identifiers@.take(k + 1 as int) =~= r.identifiers@.take(
                        k as int,
                    ).push(id));
                    r.identifiers@.take(k as int).lemma_push_to_set_commute(id);
                }
                if !vec_contains_id(&self.found, id) {
                    let ghost f_pre = self.found@;
                    self.found.push(id);
                    proof {
                        f_pre.lemma_push_to_set_commute(id);
                        assert(self.found@.to_set() =~= found0.union(
                            r.identifiers@.take(k + 1 as int).to_set(),
                        ));
                    }
                } else {
                    proof {
                        assert(self.found@.to_set() =~= found0.union(
                            r.identifiers@.take(k + 1 as int).to_set(),
                        ));
                    }
                }
                k = k + 1;
            }
            proof {
                assert(r.identifiers@.take(r.identifiers@.len() as int) =~= r.identifiers@);
            }
            batch.push(r);
        }
        proof {
            assert(self.model() =~= (IterModel { found: self.model().found, ..old(self).model() }));
        }
        batch.len() >= BATCH_SIZE
    }

    /// A well-formed iterator's model satisfies the state bounds that the
    /// laws over [`scan`] assume, so they apply to it at every pull.
    pub proof fn lemma_wf_cursor_ok(self)
        requires
            self.wf(),
        ensures
            cursor_ok(self.model()),
            crate::laws::model_ok(self.model()),
    {
    }

    /// One pull: scans forward from the current state and returns the next
    /// non-empty batch, `None` when the sequence is over, or the hard error
    /// that aborts it.  The return value and the state left behind are
    /// exactly those of the specification [`scan`].
    pub fn next(&mut self) -> (r: Option<Result<Vec<MatchRecord>, ScanError>>)
        requires
            old(self).wf(),
        ensures
            final(self).wf(),
            final(self).model() == scan(old(self).model(), Seq::<RecordModel>::empty()).state,
            emit_of(r) == scan(old(self).model(), Seq::<RecordModel>::empty()).emit,
            old(self).model().found.subset_of(final(self).model().found),
            r matches Option::Some(Result::Ok(b)) ==> 1 <= b@.len() <= BATCH_SIZE && (forall|i: int|
                0 <= i < b@.len() ==> (#[trigger] b@[i]).wf()),
    {
        proof {
            crate::laws::lemma_found_only_grows(self.model(), Seq::<RecordModel>::empty());
        }
        let ghost m0 = self.model();
        let mut batch: Vec<MatchRecord> = Vec::new();
        proof {
            assert(batch_model(batch@) =~= Seq::<RecordModel>::empty());
        }
        loop
            invariant
                self.wf(),
                batch@.len() < BATCH_SIZE,
                forall|i: int| 0 <= i < batch@.len() ==> (#[trigger] batch@[i]).wf(),
                m0 == old(self).model(),
                m0.found.subset_of(scan(m0, Seq::<RecordModel>::empty()).state.found),
                scan(m0, Seq::<RecordModel>::empty()) == scan(self.model(), batch_model(batch@)),
            decreases
                    self.model().nodes.len() - self.model().pos,
                    (if self.model().in_archive {
                        0int
                    } else {
                        1int
                    }),
                    arch_entries(self.model()).len() - self.model().entry_pos,
        {
            let ghost pre = self.model();
            let ghost bm = batch_model(batch@);
            if self.failed {
                proof {
                    assert(scan(pre, bm) == (StepOut { emit: Emit::Stop, state: pre }));
                }
                return Option::None;
            }
            if self.found_all() {
                proof {
                    assert(scan(pre, bm) == yield_or_stop(pre, bm));
                }
                if batch.len() > 0 {
                    return Option::Some(Result::Ok(batch));
                } else {
                    return Option::None;
                }
            }
            if self.in_archive {
                let es_len = match &self.nodes[self.pos] {
                    ScanNode::Archive(es) => es.len(),
                    _ => vstd::pervasive::unreached(),
                };
                if self.entry_pos >= es_len {
                    // The open archive is exhausted: close it, flush if
                    // anything accumulated.
                    let n = self.nodes.len();
                    proof {
                        assert(self.pos < n);
                    }
                    self.in_archive = false;
                    self.entry_pos = 0;
                    self.pos = self.pos + 1;
                    proof {
                        assert(self.model() =~= (IterModel {
                            in_archive: false,
                            entry_pos: 0,
                            pos: pre.pos + 1,
                            ..pre
                        }));
                    }
                    if batch.len() > 0 {
                        proof {
                            assert(scan(pre, bm) == (StepOut {
                                emit: Emit::Batch(bm),
                                state: self.model(),
                            }));
                        }
                        return Option::Some(Result::Ok(batch));
                    }
                    proof {
                        assert(scan(pre, bm) == scan(self.model(), bm));
                    }
                } else {
                    let (e_name, e_size, e_checksum, extr): (String, u64, String, Extraction) =
                        match &self.nodes[self.pos] {
                        ScanNode::Archive(es) => {
                            let e = &es[self.entry_pos];
                            (
                                e.name.clone(),
                                e.size,
                                e.checksum.clone(),
                                clone_extraction(&e.extraction),
                            )
                        }
                        _ => vstd::pervasive::unreached(),
                    };
                    let ghost e_orig = arch_entries(pre)[pre.entry_pos];
                    match extr {
                        Extraction::ReadFailed => {
                            self.failed = true;
                            proof {
                                assert(self.model() =~= (IterModel { failed: true, ..pre }));
                                assert(scan(pre, bm) == (StepOut {
                                    emit: Emit::Fail(ScanError::SourceUnreadable),
                                    state: self.model(),
                                }));
                            }
                            return Option::Some(Result::Err(ScanError::SourceUnreadable));
                        }
                        Extraction::NotRecognized => {
                            self.entry_pos = self.entry_pos + 1;
                            proof {
                                assert(self.model() =~= (IterModel {
                                    entry_pos: pre.entry_pos + 1,
                                    ..pre
                                }));
                                assert(scan(pre, bm) == scan(self.model(), bm));
                            }
                        }
                        Extraction::Identifiers(ids) => {
                            proof {
                                assert(e_orig.extraction matches Extraction::Identifiers(v) && v@
                                    == ids@);
                            }
                            if self.is_eligible(&ids) {
                                let gen = self.generation;
                                let idx = self.entry_pos;
                                let rec = MatchRecord {
                                    source: Source::Archived {
                                        generation: gen,
                                        entry_index: idx,
                                    },
                                    arc_name: archive_name_for(e_name.as_str()),
                                    checksum: e_checksum,
                                    size: e_size,
                                    identifiers: ids,
                                };
                                proof {
                                    assert(rec.model() =~= entry_record(
                                        pre,
                                        e_orig,
                                        rec.identifiers@,
                                    ));
                                }
                                self.entry_pos = self.entry_pos + 1;
                                let cap = self.push_ref(&mut batch, rec);
                                proof {
                                    assert(self.model() =~= (IterModel {
                                        entry_pos: pre.entry_pos + 1,
                                        found: self.model().found,
                                        ..pre
                                    }));
                                    if has_new_id(rec.identifiers@, pre.found) {
                                        assert(batch_model(batch@) =~= bm.push(rec.model()));
                                        assert(self.model() =~= (IterModel {
                                            entry_pos: pre.entry_pos + 1,
                                            found: pre.found.union(rec.identifiers@.to_set()),
                                            ..pre
                                        }));
                                        if batch_model(batch@).len() >= BATCH_SIZE as int {
                                            assert(scan(pre, bm) == (StepOut {
                                                emit: Emit::Batch(batch_model(batch@)),
                                                state: self.model(),
                                            }));
                                        } else {
                                            assert(scan(pre, bm) == scan(
                                                self.model(),
                                                batch_model(batch@),
                                            ));
                                        }
                                    } else {
                                        assert(batch_model(batch@) == bm);
                                        assert(scan(pre, bm) == scan(self.model(), bm));
                                    }
                                }
                                if cap {
                                    return Option::Some(Result::Ok(batch));
                                }
                            } else {
                                self.entry_pos = self.entry_pos + 1;
                                proof {
                                    assert(self.model() =~= (IterModel {
                                        entry_pos: pre.entry_pos + 1,
                                        ..pre
                                    }));
                                    assert(scan(pre, bm) == scan(self.model(), bm));
                                }
                            }
                        }
                    }
                }
            } else if self.pos >= self.nodes.len() {
                proof {
                    assert(scan(pre, bm) == yield_or_stop(pre, bm));
                }
                if batch.len() > 0 {
                    return Option::Some(Result::Ok(batch));
                } else {
                    return Option::None;
                }
            } else {
                let is_archive = matches!(&self.nodes[self.pos], ScanNode::Archive(_));
                let is_corrupt = matches!(&self.nodes[self.pos], ScanNode::ArchiveUnreadable);
                if is_archive {
                    if !self.allow_zips {
                        self.pos = self.pos + 1;
                        proof {
                            assert(self.model() =~= (IterModel { pos: pre.pos + 1, ..pre }));
                            assert(scan(pre, bm) == scan(self.model(), bm));
                        }
                    } else if batch.len() > 0 {
                        // Forced flush before the archive under the cursor is
                        // opened.
                        proof {
                            assert(scan(pre, bm) == (StepOut { emit: Emit::Batch(bm), state: pre }));
                        }
                        return Option::Some(Result::Ok(batch));
                    } else {
                        self.in_archive = true;
                        self.entry_pos = 0;
                        self.generation = self.generation + 1;
                        proof {
                            assert(self.model() =~= (IterModel {
                                in_archive: true,
                                entry_pos: 0,
                                generation: pre.generation + 1,
                                ..pre
                            }));
                            assert(scan(pre, bm) == scan(self.model(), bm));
                        }
                    }
                } else if is_corrupt {
                    if self.allow_zips {
                        self.failed = true;
                        proof {
                            assert(self.model() =~= (IterModel { failed: true, ..pre }));
                            assert(scan(pre, bm) == (StepOut {
                                emit: Emit::Fail(ScanError::ArchiveUnreadable),
                                state: self.model(),
                            }));
                        }
                        return Option::Some(Result::Err(ScanError::ArchiveUnreadable));
                    } else {
                        self.pos = self.pos + 1;
                        proof {
                            assert(self.model() =~= (IterModel { pos: pre.pos + 1, ..pre }));
                            assert(scan(pre, bm) == scan(self.model(), bm));
                        }
                    }
                } else {
                    let (f_path, f_size, f_checksum, extr): (String, u64, String, Extraction) =
                        match &self.nodes[self.pos] {
                        ScanNode::Plain(f) => {
                            (
                                f.rel_path.clone(),
                                f.size,
                                f.checksum.clone(),
                                clone_extraction(&f.extraction),
                            )
                        }
                        _ => vstd::pervasive::unreached(),
                    };
                    let ghost f_orig = (match pre.nodes[pre.pos] {
                        ScanNode::Plain(f) => f,
                        _ => arbitrary(),
                    });
                    match extr {
                        Extraction::ReadFailed => {
                            self.failed = true;
                            proof {
                                assert(self.model() =~= (IterModel { failed: true, ..pre }));
                                assert(scan(pre, bm) == (StepOut {
                                    emit: Emit::Fail(ScanError::SourceUnreadable),
                                    state: self.model(),
                                }));
                            }
                            return Option::Some(Result::Err(ScanError::SourceUnreadable));
                        }
                        Extraction::NotRecognized => {
                            self.pos = self.pos + 1;
                            proof {
                                assert(self.model() =~= (IterModel { pos: pre.pos + 1, ..pre }));
                                assert(scan(pre, bm) == scan(self.model(), bm));
                            }
                        }
                        Extraction::Identifiers(ids) => {
                            proof {
                                assert(f_orig.extraction matches Extraction::Identifiers(v) && v@
                                    == ids@);
                            }
                            if self.is_eligible(&ids) {
                                let arc_name = archive_name_for(f_path.as_str());
                                let rec = MatchRecord {
                                    source: Source::Plain { path: f_path },
                                    arc_name,
                                    checksum: f_checksum,
                                    size: f_size,
                                    identifiers: ids,
                                };
                                proof {
                                    assert(rec.model() =~= plain_record(f_orig, rec.identifiers@));
                                }
                                self.pos = self.pos + 1;
                                let cap = self.push_ref(&mut batch, rec);
                                proof {
                                    if has_new_id(rec.identifiers@, pre.found) {
                                        assert(batch_model(batch@) =~= bm.push(rec.model()));
                                        assert(self.model() =~= (IterModel {
                                            pos: pre.pos + 1,
                                            found: pre.found.union(rec.identifiers@.to_set()),
                                            ..pre
                                        }));
                                        if batch_model(batch@).len() >= BATCH_SIZE as int {
                                            assert(scan(pre, bm) == (StepOut {
                                                emit: Emit::Batch(batch_model(batch@)),
                                                state: self.model(),
                                            }));
                                        } else {
                                            assert(scan(pre, bm) == scan(
                                                self.model(),
                                                batch_model(batch@),
                                            ));
                                        }
                                    } else {
                                        assert(batch_model(batch@) == bm);
                                        assert(self.model() =~= (IterModel {
                                            pos: pre.pos + 1,
                                            ..pre
                                        }));
                                        assert(scan(pre, bm) == scan(self.model(), bm));
                                    }
                                }
                                if cap {
                                    return Option::Some(Result::Ok(batch));
                                }
                            } else {
                                self.pos = self.pos + 1;
                                proof {
                                    assert(self.model() =~= (IterModel { pos: pre.pos + 1, ..pre }));
                                    assert(scan(pre, bm) == scan(self.model(), bm));
                                }
                            }
                        }
                    }
                }
            }
        }
    }
}

} // verus!
