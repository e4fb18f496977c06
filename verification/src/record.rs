//! Match records: one discovered debug-symbol artifact each.

use vstd::prelude::*;

verus! {

/// Where the bytes of a discovered artifact can be read from again.
#[derive(Clone, Debug)]
pub enum Source {
    /// A plain file on disk, named by its path relative to the scanned root.
    Plain { path: String },
    /// An entry of an archive that the traversal opened.  `generation`
    /// numbers the archives in the order they were opened; a record is only
    /// valid while the archive of that generation is the one the iterator
    /// still holds open (or last held open).
    Archived { generation: u64, entry_index: usize },
}

/// The ghost counterpart of [`Source`].
#[verifier::ext_equal]
pub ghost enum SourceModel {
    Plain { path: Seq<char> },
    Archived { generation: int, entry_index: int },
}

/// One discovered artifact: its read source, the path under which it is to
/// be stored when repackaged, its checksum, byte size, and the non-empty set
/// of unique identifiers embedded in it.
#[derive(Clone, Debug)]
pub struct MatchRecord {
    pub source: Source,
    pub arc_name: String,
    pub checksum: String,
    pub size: u64,
    pub identifiers: Vec<u128>,
}

/// The ghost counterpart of [`MatchRecord`].
#[verifier::ext_equal]
pub ghost struct RecordModel {
    pub source: SourceModel,
    pub arc_name: Seq<char>,
    pub checksum: Seq<char>,
    pub size: u64,
    pub ids: Set<u128>,
}

impl Source {
    pub open spec fn model(self) -> SourceModel {
        match self {
            Source::Plain { path } => SourceModel::Plain { path: path@ },
            Source::Archived { generation, entry_index } => SourceModel::Archived {
                generation: generation as int,
                entry_index: entry_index as int,
            },
        }
    }
}

impl MatchRecord {
    pub open spec fn model(self) -> RecordModel {
        RecordModel {
            source: self.source.model(),
            arc_name: self.arc_name@,
            checksum: self.checksum@,
            size: self.size,
            ids: self.identifiers@.to_set(),
        }
    }

    /// A well-formed record names at least one identifier, and lists each
    /// only once.
    pub open spec fn wf(self) -> bool {
        &&& self.identifiers@.len() > 0
        &&& self.identifiers@.no_duplicates()
    }
}

} // verus!
