//! The input to one traversal: the visited tree as plain data.
//!
//! The filesystem walk, the archive indexing, the identifier extraction and
//! the checksum computation are all observations made outside this crate.
//! What the iterator consumes is their result: one [`ScanNode`] per visited
//! regular file, in depth-first visit order.

use vstd::prelude::*;

verus! {

/// What the identifier extractor reported for one byte source.
pub enum Extraction {
    /// The source is a recognized binary embedding these identifiers
    /// (possibly none, e.g. a stripped object).
    Identifiers(Vec<u128>),
    /// The source is not a recognized binary format: skipped silently.
    NotRecognized,
    /// The source could not be read or hashed: a hard error that aborts the
    /// whole traversal.
    ReadFailed,
}

/// A regular file visited by the walk, to be treated as a plain candidate.
pub struct PlainFile {
    /// Path relative to the scanned root.
    pub rel_path: String,
    /// Byte length of the file.
    pub size: u64,
    /// Content checksum (hex), computed at discovery time.
    pub checksum: String,
    /// What the extractor reported for the file's bytes.
    pub extraction: Extraction,
}

/// One entry of a zip archive met along the walk.
pub struct ArchiveEntry {
    /// The entry's name inside the archive.
    pub name: String,
    /// Byte length of the entry's uncompressed bytes.
    pub size: u64,
    /// Content checksum (hex) of the entry's bytes.
    pub checksum: String,
    /// What the extractor reported for the entry's bytes.
    pub extraction: Extraction,
}

/// One visited regular file.
pub enum ScanNode {
    /// An ordinary file, offered to the extractor directly.
    Plain(PlainFile),
    /// A file whose leading bytes identify it as a zip archive and whose
    /// index could be read: the traversal descends into its entries.
    Archive(Vec<ArchiveEntry>),
    /// A file whose leading bytes identify it as a zip archive but whose
    /// index could not be read: corrupt, a hard error when archive descent
    /// is enabled.
    ArchiveUnreadable,
}

pub open spec fn extraction_wf(e: Extraction) -> bool {
    match e {
        Extraction::Identifiers(ids) => ids@.no_duplicates(),
        _ => true,
    }
}

/// Every identifier list in the input names each identifier once: the
/// extractor reports sets.
pub open spec fn nodes_wf(nodes: Seq<ScanNode>) -> bool {
    forall|i: int| 0 <= i < nodes.len() ==> match #[trigger] nodes[i] {
        ScanNode::Plain(f) => extraction_wf(f.extraction),
        ScanNode::Archive(es) => forall|j: int|
            0 <= j < es@.len() ==> extraction_wf(#[trigger] es@[j].extraction),
        ScanNode::ArchiveUnreadable => true,
    }
}

/// The virtual root under which every repackaged artifact is stored.
pub open spec fn name_prefix() -> Seq<char> {
    "DebugSymbols/"@
}

/// Relies on `String::push_str` of std: appends the suffix's characters.
#[verifier::external_body]
fn append_str(s: &mut String, t: &str)
    ensures
        final(s)@ == old(s)@ + t@,
{
    s.push_str(t)
}

/// The archive-relative name under which an artifact with the given
/// root-relative path (or archive entry name) is stored when repackaged.
pub fn archive_name_for(rel: &str) -> (r: String)
    ensures
        r@ == name_prefix() + rel@,
{
    let mut s = "DebugSymbols/".to_owned();
    append_str(&mut s, rel);
    s
}

} // verus!
