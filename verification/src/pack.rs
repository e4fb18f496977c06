//! Packaging a batch back into a zip archive, and re-opening one, through
//! the `zip` crate over in-memory buffers.
//!
//! Every outside call stands behind a trusted item.  The contents of a
//! writer or an archive, and what parsing a byte string yields, are named by
//! uninterpreted spec functions; the round trip between them is what the
//! `zip` crate is relied on for.

use vstd::prelude::*;
use vstd::utf8::encode_utf8;

use crate::record::MatchRecord;

verus! {

#[verifier::external_type_specification]
#[verifier::external_body]
#[verifier::reject_recursive_types(T)]
pub struct ExCursor<T>(std::io::Cursor<T>);

/// An in-memory zip writer.  Verus refuses `zip::ZipWriter`'s generic
/// bounds, so the writer lives in a hidden field; its contents are reached
/// only through the named spec function [`writer_entries`] and the trusted
/// wrappers below.
#[verifier::external_body]
pub struct PackWriter {
    inner: zip::ZipWriter<std::io::Cursor<Vec<u8>>>,
}

#[verifier::external_type_specification]
#[verifier::external_body]
#[verifier::reject_recursive_types(R)]
pub struct ExZipArchive<R>(zip::ZipArchive<R>);

#[verifier::external_type_specification]
#[verifier::external_body]
pub struct ExZipError(zip::result::ZipError);

/// The entries a zip writer has accumulated: name and bytes of each, in the
/// order they were started.
pub uninterp spec fn writer_entries(w: PackWriter) -> Seq<(Seq<char>, Seq<u8>)>;

/// The entries of an open zip archive: name and uncompressed bytes of each,
/// in index order.
pub uninterp spec fn archive_entries(a: zip::ZipArchive<std::io::Cursor<Vec<u8>>>) -> Seq<
    (Seq<char>, Seq<u8>),
>;

/// What indexing a byte string as a zip archive yields: its entries, or
/// nothing when the bytes are not a well-formed archive.
pub uninterp spec fn zip_parse(bytes: Seq<u8>) -> Option<Seq<(Seq<char>, Seq<u8>)>>;

/// Whether every entry of the archive the bytes index to can be read back
/// in full (data present, checksums right).  True of every archive the
/// writer produces; an arbitrary byte string can index and still fail here.
pub uninterp spec fn zip_readable(bytes: Seq<u8>) -> bool;

/// [`zip_readable`], carried on the open archive itself.
pub uninterp spec fn archive_readable(a: zip::ZipArchive<std::io::Cursor<Vec<u8>>>) -> bool;

/// Whether the writer is mid-entry: the entry started last is still open,
/// so written bytes extend it.  Starting an entry opens it; a failed start
/// leaves the writer closed, and writing to a closed writer is refused.
pub uninterp spec fn writer_open(w: PackWriter) -> bool;

/// Relies on `zip::ZipWriter::new` over a fresh in-memory cursor: a new
/// writer holds no entries.
#[verifier::external_body]
fn writer_new() -> (w: PackWriter)
    ensures
        writer_entries(w) == Seq::<(Seq<char>, Seq<u8>)>::empty(),
{
    PackWriter { inner: zip::ZipWriter::new(std::io::Cursor::new(Vec::new())) }
}

/// Relies on `zip::ZipWriter::start_file`: on success a new, empty entry of
/// that name is appended and left open for writing.  A duplicate name is
/// refused, as is a name over 65535 UTF-8 bytes; either failure aborts the
/// new entry, leaving the accumulated entries as they were.  With the two
/// conditions met, starting an entry on an in-memory sink performs only
/// in-memory writes and succeeds.
#[verifier::external_body]
fn writer_start_entry(
    w: &mut PackWriter,
    name: &str,
) -> (r: Result<(), zip::result::ZipError>)
    ensures
        r is Ok ==> writer_entries(*final(w)) == writer_entries(*old(w)).push(
            (name@, Seq::<u8>::empty()),
        ) && writer_open(*final(w)),
        r is Err ==> writer_entries(*final(w)) == writer_entries(*old(w)),
        (!(exists|j: int|
            0 <= j < writer_entries(*old(w)).len() && #[trigger] writer_entries(*old(w))[j].0
                == name@) && encode_utf8(name@).len() <= 65535) ==> r is Ok,
{
    let options = zip::write::SimpleFileOptions::default().compression_method(
        zip::CompressionMethod::Stored,
    );
    w.inner.start_file(name, options)
}

/// Relies on the `std::io::Write` impl of `zip::ZipWriter` (`write_all`):
/// with the entry started last still open, the bytes extend it.  The open
/// writer refuses only an entry grown past the 4 GiB stored-size bound;
/// below it, writing to the in-memory sink succeeds.
#[verifier::external_body]
fn writer_append(
    w: &mut PackWriter,
    data: &Vec<u8>,
) -> (r: Result<(), zip::result::ZipError>)
    requires
        writer_entries(*old(w)).len() > 0,
        writer_open(*old(w)),
    ensures
        r is Ok ==> writer_entries(*final(w)) == writer_entries(*old(w)).update(
            writer_entries(*old(w)).len() - 1,
            (
                writer_entries(*old(w)).last().0,
                writer_entries(*old(w)).last().1 + data@,
            ),
        ) && writer_open(*final(w)),
        writer_entries(*old(w)).last().1.len() + data@.len() <= 0xFFFF_FFFF ==> r is Ok,
{
    std::io::Write::write_all(&mut w.inner, data.as_slice()).map_err(zip::result::ZipError::from)
}

/// Relies on `zip::ZipWriter::finish` and `std::io::Cursor::into_inner`:
/// the produced bytes index back to exactly the written entries, and read
/// back in full.  Finalizing performs only in-memory writes and seeks
/// (oversized names and entries were already refused on the way in), so it
/// succeeds.
#[verifier::external_body]
fn writer_finish(w: PackWriter) -> (r: Result<Vec<u8>, zip::result::ZipError>)
    ensures
        r is Ok,
        r matches Ok(b) ==> zip_parse(b@) == Some(writer_entries(w)) && zip_readable(b@),
{
    let cursor = w.inner.finish()?;
    Ok(cursor.into_inner())
}

/// Relies on `zip::ZipArchive::new` over an in-memory cursor: indexing
/// depends on the bytes alone, and yields their entries.
#[verifier::external_body]
fn archive_open(bytes: Vec<u8>) -> (r: Result<
    zip::ZipArchive<std::io::Cursor<Vec<u8>>>,
    zip::result::ZipError,
>)
    ensures
        (r is Ok) == (zip_parse(bytes@) is Some),
        r matches Ok(a) ==> Some(archive_entries(a)) == zip_parse(bytes@) && archive_readable(a)
            == zip_readable(bytes@),
{
    zip::ZipArchive::new(std::io::Cursor::new(bytes))
}

/// Relies on `zip::ZipArchive::len`: the number of entries.
#[verifier::external_body]
fn archive_len(a: &zip::ZipArchive<std::io::Cursor<Vec<u8>>>) -> (n: usize)
    ensures
        n == archive_entries(*a).len(),
{
    a.len()
}

/// Relies on `zip::ZipArchive::name_for_index`: the name of the entry.
/// The reader stores every entry's name already decoded to text, so an
/// in-range index always has one.
#[verifier::external_body]
fn archive_entry_name(a: &zip::ZipArchive<std::io::Cursor<Vec<u8>>>, i: usize) -> (r: Option<
    String,
>)
    requires
        i < archive_entries(*a).len(),
    ensures
        r is Some,
        r matches Some(n) ==> n@ == archive_entries(*a)[i as int].0,
{
    a.name_for_index(i).map(|n| n.to_owned())
}

/// Relies on `zip::ZipArchive::by_index` and `std::io::Read::read_to_end`:
/// on success, the uncompressed bytes of the entry; the archive's contents
/// are not changed by reading.
#[verifier::external_body]
fn archive_entry_data(a: &mut zip::ZipArchive<std::io::Cursor<Vec<u8>>>, i: usize) -> (r: Result<
    Vec<u8>,
    zip::result::ZipError,
>)
    requires
        i < archive_entries(*old(a)).len(),
    ensures
        archive_entries(*final(a)) == archive_entries(*old(a)),
        archive_readable(*final(a)) == archive_readable(*old(a)),
        r matches Ok(d) ==> d@ == archive_entries(*old(a))[i as int].1,
        archive_readable(*old(a)) ==> r is Ok,
{
    let mut f = a.by_index(i)?;
    let mut buf: Vec<u8> = Vec::new();
    std::io::Read::read_to_end(&mut f, &mut buf).map_err(zip::result::ZipError::from)?;
    Ok(buf)
}

/// Why packaging or re-opening failed.
#[derive(Debug)]
pub enum PackError {
    /// Two records share an archive name: nothing was written.
    DuplicateName,
    /// The zip layer refused an operation, for this cause; the partial
    /// output is invalid.
    Archive(zip::result::ZipError),
}

/// Whether this name may be started in a writer holding `entries`: it is
/// not taken yet, and fits the archive format's 65535-byte name field.
pub open spec fn name_startable(entries: Seq<(Seq<char>, Seq<u8>)>, name: Seq<char>) -> bool {
    &&& !(exists|j: int| 0 <= j < entries.len() && #[trigger] entries[j].0 == name)
    &&& encode_utf8(name).len() <= 65535
}

impl PackWriter {
    /// A fresh in-memory writer holding no entries.
    pub fn new() -> (w: PackWriter)
        ensures
            writer_entries(w) == Seq::<(Seq<char>, Seq<u8>)>::empty(),
    {
        writer_new()
    }

    /// Closes the archive and hands back its bytes, which index back to
    /// exactly the entries written, all readable.
    pub fn finish(self) -> (r: Vec<u8>)
        ensures
            zip_parse(r@) == Some(writer_entries(self)),
            zip_readable(r@),
    {
        match writer_finish(self) {
            Result::Ok(b) => b,
            Result::Err(_) => vstd::pervasive::unreached(),
        }
    }
}

impl MatchRecord {
    /// Stores this record's bytes under its archive name in the writer.
    /// `data` is the record's content as read back from its source; its
    /// length must be the size recorded at discovery time.  Success is owed
    /// whenever the name can be started and the record fits the stored-size
    /// bound.
    pub fn add_to_archive(
        &self,
        w: &mut PackWriter,
        data: &Vec<u8>,
    ) -> (r: Result<(), PackError>)
        requires
            data@.len() == self.size,
        ensures
            r is Ok ==> writer_entries(*final(w)) == writer_entries(*old(w)).push(
                (self.arc_name@, data@),
            ),
            (name_startable(writer_entries(*old(w)), self.arc_name@) && self.size
                <= 0xFFFF_FFFFu64) ==> r is Ok,
            r matches Err(pe) ==> pe is Archive,
    {
        match writer_start_entry(w, self.arc_name.as_str()) {
            Result::Err(e) => {
                proof {
                    assert(!name_startable(writer_entries(*old(w)), self.arc_name@));
                }
                Result::Err(PackError::Archive(e))
            },
            Result::Ok(()) => {
                proof {
                    assert(writer_entries(*w).last() == (self.arc_name@, Seq::<u8>::empty()));
                }
                match writer_append(w, data) {
                    Result::Err(e) => {
                        proof {
                            assert(self.size > 0xFFFF_FFFFu64);
                        }
                        Result::Err(PackError::Archive(e))
                    },
                    Result::Ok(()) => {
                        proof {
                            assert(Seq::<u8>::empty() + data@ =~= data@);
                            assert(writer_entries(*w) =~= writer_entries(*old(w)).push(
                                (self.arc_name@, data@),
                            ));
                        }
                        Result::Ok(())
                    },
                }
            },
        }
    }
}

/// The name/bytes pairs that packaging `refs` with `contents` writes.
pub open spec fn pack_model(refs: Seq<MatchRecord>, contents: Seq<Vec<u8>>) -> Seq<
    (Seq<char>, Seq<u8>),
> {
    Seq::new(refs.len(), |i: int| (refs[i].arc_name@, contents[i]@))
}

/// Whether two records of the batch share an archive name.
pub open spec fn has_duplicate_name(refs: Seq<MatchRecord>) -> bool {
    exists|i: int, j: int|
        0 <= i < j < refs.len() && refs[i].arc_name@ == refs[j].arc_name@
}

fn find_name(refs: &Vec<MatchRecord>, upto: usize, name: &String) -> (b: bool)
    requires
        upto <= refs@.len(),
    ensures
        b == exists|i: int| 0 <= i < upto && (#[trigger] refs@[i]).arc_name@ == name@,
{
    let mut k: usize = 0;
    while k < upto
        invariant
            k <= upto <= refs@.len(),
            forall|i: int| 0 <= i < k ==> (#[trigger] refs@[i]).arc_name@ != name@,
        decreases upto - k,
    {
        if refs[k].arc_name == *name {
            return true;
        }
        k = k + 1;
    }
    false
}

/// Whether every record of the batch fits the archive format: names within
/// the 65535-byte field, sizes within the 4 GiB stored bound.
pub open spec fn batch_fits(refs: Seq<MatchRecord>) -> bool {
    forall|i: int|
        0 <= i < refs.len() ==> encode_utf8((#[trigger] refs[i]).arc_name@).len() <= 65535
            && refs[i].size <= 0xFFFF_FFFFu64
}

/// Packages the batch: each record's bytes, stored under its archive name,
/// written as one zip archive in memory.  `contents[i]` is record `i`'s
/// content as read from its source.  No partial archive is returned: any
/// failure yields an error; success is owed whenever the names are distinct
/// and the batch fits the format's bounds.
pub fn zip_up_missing(refs: &Vec<MatchRecord>, contents: &Vec<Vec<u8>>) -> (r: Result<
    Vec<u8>,
    PackError,
>)
    requires
        contents@.len() == refs@.len(),
        forall|i: int| 0 <= i < refs@.len() ==> (#[trigger] contents@[i])@.len() == refs@[i].size,
    ensures
        r matches Ok(b) ==> zip_parse(b@) == Some(pack_model(refs@, contents@)) && zip_readable(
            b@,
        ),
        has_duplicate_name(refs@) <==> r == Result::<Vec<u8>, PackError>::Err(
            PackError::DuplicateName,
        ),
        (!has_duplicate_name(refs@) && batch_fits(refs@)) ==> r is Ok,
{
    let n = refs.len();
    let mut k: usize = 0;
    while k < n
        invariant
            k <= n == refs@.len(),
            forall|i: int, j: int|
                0 <= i < j < k ==> (#[trigger] refs@[i]).arc_name@ != (#[trigger] refs@[j]).arc_name@,
        decreases n - k,
    {
        if find_name(refs, k, &refs[k].arc_name) {
            proof {
                let i = choose|i: int|
                    0 <= i < k && (#[trigger] refs@[i]).arc_name@ == refs@[k as int].arc_name@;
                assert(has_duplicate_name(refs@));
            }
            return Result::Err(PackError::DuplicateName);
        }
        k = k + 1;
    }
    proof {
        assert(!has_duplicate_name(refs@));
    }
    let mut w = writer_new();
    let mut k2: usize = 0;
    proof {
        assert(writer_entries(w) =~= pack_model(refs@.take(0), contents@.take(0)));
    }
    while k2 < n
        invariant
            k2 <= n == refs@.len() == contents@.len(),
            !has_duplicate_name(refs@),
            forall|i: int|
                0 <= i < refs@.len() ==> (#[trigger] contents@[i])@.len() == refs@[i].size,
            writer_entries(w) == pack_model(refs@.take(k2 as int), contents@.take(k2 as int)),
        decreases n - k2,
    {
        match refs[k2].add_to_archive(&mut w, &contents[k2]) {
            Result::Err(e) => {
                proof {
                    // With distinct, fitting names the record was startable,
                    // so this arm refutes the success conditions.
                    if batch_fits(refs@) {
                        assert(!name_startable(writer_entries(w), refs@[k2 as int].arc_name@));
                        if exists|j: int|
                            0 <= j < writer_entries(w).len() && #[trigger] writer_entries(w)[j].0
                                == refs@[k2 as int].arc_name@ {
                            let j = choose|j: int|
                                0 <= j < writer_entries(w).len() && #[trigger] writer_entries(
                                    w,
                                )[j].0 == refs@[k2 as int].arc_name@;
                            assert(writer_entries(w)[j].0 == refs@[j].arc_name@);
                            assert(has_duplicate_name(refs@));
                        }
                        assert(false);
                    }
                }
                return Result::Err(e);
            },
            Result::Ok(()) => {},
        }
        proof {
            assert(writer_entries(w) =~= pack_model(
                refs@.take(k2 + 1 as int),
                contents@.take(k2 + 1 as int),
            ));
        }
        k2 = k2 + 1;
    }
    proof {
        assert(refs@.take(n as int) =~= refs@);
        assert(contents@.take(n as int) =~= contents@);
        assert(pack_model(refs@.take(n as int), contents@.take(n as int)) =~= pack_model(
            refs@,
            contents@,
        ));
    }
    match writer_finish(w) {
        Result::Err(_) => vstd::pervasive::unreached(),
        Result::Ok(b) => Result::Ok(b),
    }
}

/// One entry read back out of a packaged archive.
#[derive(Debug)]
pub struct ReadEntry {
    pub name: String,
    pub data: Vec<u8>,
}

/// The name/bytes pairs of read-back entries.
pub open spec fn read_model(v: Seq<ReadEntry>) -> Seq<(Seq<char>, Seq<u8>)> {
    v.map_values(|e: ReadEntry| (e.name@, e.data@))
}

/// Re-opens a packaged archive and reads every entry back out, in index
/// order.  Bytes that do not index as an archive are refused; bytes that
/// index and read back in full — every archive the packager produced — are
/// owed success.
pub fn read_entries(bytes: Vec<u8>) -> (r: Result<Vec<ReadEntry>, PackError>)
    ensures
        r matches Ok(v) ==> Some(read_model(v@)) == zip_parse(bytes@),
        zip_parse(bytes@) is None ==> (r matches Err(e) && e is Archive),
        (zip_parse(bytes@) is Some && zip_readable(bytes@)) ==> r is Ok,
{
    let mut a = match archive_open(bytes) {
        Result::Err(e) => {
            return Result::Err(PackError::Archive(e));
        },
        Result::Ok(a) => a,
    };
    let n = archive_len(&a);
    let mut v: Vec<ReadEntry> = Vec::new();
    let mut k: usize = 0;
    proof {
        assert(read_model(v@) =~= archive_entries(a).take(0));
    }
    while k < n
        invariant
            k <= n == archive_entries(a).len(),
            Some(archive_entries(a)) == zip_parse(bytes@),
            archive_readable(a) == zip_readable(bytes@),
            read_model(v@) == archive_entries(a).take(k as int),
        decreases n - k,
    {
        let name = match archive_entry_name(&a, k) {
            Option::None => vstd::pervasive::unreached(),
            Option::Some(s) => s,
        };
        let data = match archive_entry_data(&mut a, k) {
            Result::Err(e) => {
                proof {
                    assert(!zip_readable(bytes@));
                }
                return Result::Err(PackError::Archive(e));
            },
            Result::Ok(d) => d,
        };
        v.push(ReadEntry { name, data });
        proof {
            assert(archive_entries(a).take(k + 1 as int) =~= archive_entries(a).take(
                k as int,
            ).push(archive_entries(a)[k as int]));
            assert(read_model(v@)[k as int] =~= archive_entries(a)[k as int]);
            assert(read_model(v@) =~= archive_entries(a).take(k + 1 as int));
        }
        k = k + 1;
    }
    proof {
        assert(archive_entries(a).take(n as int) =~= archive_entries(a));
    }
    Result::Ok(v)
}

/// Packaging round trip: what `zip_up_missing` wrote, `read_entries` reads
/// back — entry for entry, each under the record's archive name and with
/// exactly the record's size many bytes.
pub proof fn lemma_package_round_trip(
    refs: Seq<MatchRecord>,
    contents: Seq<Vec<u8>>,
    b: Seq<u8>,
    v: Seq<ReadEntry>,
)
    requires
        contents.len() == refs.len(),
        forall|i: int| 0 <= i < refs.len() ==> (#[trigger] contents[i])@.len() == refs[i].size,
        zip_parse(b) == Some(pack_model(refs, contents)),
        Some(read_model(v)) == zip_parse(b),
    ensures
        v.len() == refs.len(),
        forall|i: int|
            0 <= i < refs.len() ==> (#[trigger] v[i]).name@ == refs[i].arc_name@ && v[i].data@
                == contents[i]@ && v[i].data@.len() == refs[i].size,
{
    assert(read_model(v) == pack_model(refs, contents));
    assert(read_model(v).len() == v.len());
    assert forall|i: int|
        0 <= i < refs.len() implies (#[trigger] v[i]).name@ == refs[i].arc_name@ && v[i].data@
        == contents[i]@ && v[i].data@.len() == refs[i].size by {
        assert(read_model(v)[i] == (v[i].name@, v[i].data@));
        assert(pack_model(refs, contents)[i] == (refs[i].arc_name@, contents[i]@));
    }
}

} // verus!
