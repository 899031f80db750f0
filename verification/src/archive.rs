//! The portable archive: packing a store's files into one zip container and
//! unpacking a container back into files. The zip crate does the container
//! work, over in-memory bytes, behind trusted declarations; everything
//! around it — entry order, separator normalization, and the defense against
//! entry names that would escape the store root — is verified.
use vstd::prelude::*;

use crate::errors::StoreError;
use crate::file_manager::FileManager;
use crate::paths::{normalized_seps, safe_entry_name};

verus! {

/// An open container being written, over in-memory bytes. The writer inside
/// is `zip::ZipWriter` over a byte cursor; its trait bounds keep the type
/// itself from being declared to the verifier, so it lives opaquely here.
#[verifier::external_body]
pub struct ArchiveWriter {
    inner: zip::ZipWriter<std::io::Cursor<Vec<u8>>>,
}

/// An opened container being read, over in-memory bytes, holding a
/// `zip::ZipArchive` as `ArchiveWriter` holds its writer.
#[verifier::external_body]
pub struct ArchiveReader {
    inner: zip::ZipArchive<std::io::Cursor<Vec<u8>>>,
}

/// The entries written so far into an open container: name and content, in
/// writing order.
pub uninterp spec fn writer_entries(w: &ArchiveWriter) -> Seq<(Seq<char>, Seq<u8>)>;

/// The entries of an opened container, in index order.
pub uninterp spec fn archive_entries(a: &ArchiveReader) -> Seq<(Seq<char>, Seq<u8>)>;

/// What opening a byte string as a container yields: its entries, or
/// nothing when the bytes do not form one. A pure function of the bytes.
pub uninterp spec fn zip_entries_of(data: Seq<u8>) -> Option<Seq<(Seq<char>, Seq<u8>)>>;

/// Relies on `zip::ZipWriter::new`: a writer over fresh in-memory bytes
/// holds no entries.
#[verifier::external_body]
fn archive_writer_new() -> (w: ArchiveWriter)
    ensures
        writer_entries(&w) == Seq::<(Seq<char>, Seq<u8>)>::empty(),
{
    ArchiveWriter { inner: zip::ZipWriter::new(std::io::Cursor::new(Vec::new())) }
}

/// Relies on `zip::ZipWriter::start_file` with default options: on success
/// it opens one more entry, empty, under the given name; it fails on a name
/// the container already holds.
#[verifier::external_body]
fn archive_start_entry(w: &mut ArchiveWriter, name: &str) -> (r: Result<(), StoreError>)
    ensures
        r is Ok ==> writer_entries(final(w)) == writer_entries(old(w)).push(
            (name@, Seq::<u8>::empty()),
        ),
        r matches Err(e) ==> e matches StoreError::IOError(_),
{
    w.inner.start_file(name, zip::write::SimpleFileOptions::default()).map_err(
        |e| StoreError::IOError(e.to_string()),
    )
}

/// Relies on the `std::io::Write` impl of `zip::ZipWriter`: on success the
/// bytes extend the entry most recently started.
#[verifier::external_body]
fn archive_write_data(w: &mut ArchiveWriter, data: &Vec<u8>) -> (r: Result<(), StoreError>)
    requires
        writer_entries(&*old(w)).len() > 0,
    ensures
        r is Ok ==> writer_entries(final(w)) == writer_entries(old(w)).update(
            writer_entries(old(w)).len() - 1,
            (
                writer_entries(old(w)).last().0,
                writer_entries(old(w)).last().1 + data@,
            ),
        ),
        r matches Err(e) ==> e matches StoreError::IOError(_),
{
    std::io::Write::write_all(&mut w.inner, data.as_slice()).map_err(
        |e| StoreError::IOError(e.to_string()),
    )
}

/// Relies on `zip::ZipWriter::finish`: the finished bytes form a container
/// that reads back exactly the entries written, in order.
#[verifier::external_body]
fn archive_writer_finish(w: ArchiveWriter) -> (r: Result<Vec<u8>, StoreError>)
    ensures
        r matches Ok(bytes) ==> zip_entries_of(bytes@) == Some(writer_entries(&w)),
        r matches Err(e) ==> e matches StoreError::IOError(_),
{
    match w.inner.finish() {
        Ok(cursor) => Ok(cursor.into_inner()),
        Err(e) => Err(StoreError::IOError(e.to_string())),
    }
}

/// Relies on `zip::ZipArchive::new`: it accepts exactly the byte strings
/// that form a container, and an accepted one shows its entries.
#[verifier::external_body]
fn archive_open(data: Vec<u8>) -> (r: Result<ArchiveReader, StoreError>)
    ensures
        r matches Ok(a) ==> zip_entries_of(data@) == Some(archive_entries(&a)),
        r matches Err(e) ==> zip_entries_of(data@) is None && e matches StoreError::IOError(_),
{
    match zip::ZipArchive::new(std::io::Cursor::new(data)) {
        Ok(a) => Ok(ArchiveReader { inner: a }),
        Err(e) => Err(StoreError::IOError(e.to_string())),
    }
}

/// Relies on `zip::ZipArchive::len`: the number of entries.
#[verifier::external_body]
fn archive_len(a: &ArchiveReader) -> (n: usize)
    ensures
        n == archive_entries(a).len(),
{
    a.inner.len()
}

/// Relies on `zip::ZipArchive::by_index` and a full read of the entry: on
/// success, the stored name and content at that index; reading moves the
/// archive's cursor but never its catalogue.
#[verifier::external_body]
fn archive_entry(a: &mut ArchiveReader, i: usize) -> (r: Result<(String, Vec<u8>), StoreError>)
    requires
        i < archive_entries(&*old(a)).len(),
    ensures
        archive_entries(final(a)) == archive_entries(old(a)),
        r matches Ok(e) ==> (e.0@, e.1@) == archive_entries(old(a))[i as int],
        r matches Err(e) ==> e matches StoreError::IOError(_),
{
    match a.inner.by_index(i) {
        Ok(mut f) => {
            let name = f.name().to_string();
            let mut content = Vec::new();
            match std::io::Read::read_to_end(&mut f, &mut content) {
                Ok(_) => Ok((name, content)),
                Err(e) => Err(StoreError::IOError(e.to_string())),
            }
        },
        Err(e) => Err(StoreError::IOError(e.to_string())),
    }
}

/// The entry list an exported file list stands for: the same names with
/// separators normalized, over the same contents.
pub open spec fn normalized_entries(files: Seq<(String, Vec<u8>)>) -> Seq<(Seq<char>, Seq<u8>)> {
    files.map_values(|f: (String, Vec<u8>)| (normalized_seps(f.0@), f.1@))
}

/// The entries an import accepts: exactly those whose name is safe to
/// resolve under the store root.
pub open spec fn accepted_entries(es: Seq<(Seq<char>, Seq<u8>)>) -> Seq<(Seq<char>, Seq<u8>)> {
    es.filter(|e: (Seq<char>, Seq<u8>)| safe_entry_name(e.0))
}

/// The texts and contents of an unpacked entry list.
pub open spec fn unpacked_views(out: Seq<(String, Vec<u8>)>) -> Seq<(Seq<char>, Seq<u8>)> {
    out.map_values(|f: (String, Vec<u8>)| (f.0@, f.1@))
}

/// An import keeps a safely named export whole: accepting the safe entries
/// of an entry list that holds only safe names changes nothing.
pub proof fn lemma_import_keeps_safe_entries(es: Seq<(Seq<char>, Seq<u8>)>)
    requires
        forall|i: int| 0 <= i < es.len() ==> safe_entry_name((#[trigger] es[i]).0),
    ensures
        accepted_entries(es) == es,
    decreases es.len(),
{
    reveal(Seq::filter);
    if es.len() == 0 {
        assert(accepted_entries(es) =~= es);
    } else {
        lemma_import_keeps_safe_entries(es.drop_last());
        assert(accepted_entries(es) =~= es);
    }
}

/// The archive round trip: a container packed from files whose normalized
/// paths are all safe unpacks to exactly those files. The premises are the
/// contracts of `export_to_ema` and `import_from_ema` on one container.
pub proof fn lemma_archive_round_trip(
    files: Seq<(String, Vec<u8>)>,
    bytes: Seq<u8>,
    out: Seq<(String, Vec<u8>)>,
)
    requires
        zip_entries_of(bytes) == Some(normalized_entries(files)),
        unpacked_views(out) == accepted_entries(normalized_entries(files)),
        forall|i: int|
            0 <= i < files.len() ==> safe_entry_name(normalized_seps((#[trigger] files[i]).0@)),
    ensures
        unpacked_views(out) == normalized_entries(files),
{
    assert forall|i: int|
        0 <= i < normalized_entries(files).len() implies safe_entry_name(
        (#[trigger] normalized_entries(files)[i]).0,
    ) by {
        assert(normalized_entries(files)[i].0 == normalized_seps(files[i].0@));
    }
    lemma_import_keeps_safe_entries(normalized_entries(files));
}

/// The whole-percent progress after some of the work is done.
pub fn progress_percent(processed: u64, total: u64) -> (r: u64)
    requires
        processed <= total,
    ensures
        total > 0 ==> r == processed * 100 / (total as int),
        total == 0 ==> r == 0,
        r <= 100,
{
    if total == 0 {
        0
    } else {
        let wide: u128 = (processed as u128) * 100 / (total as u128);
        proof {
            assert(processed * 100 / (total as int) <= 100) by (nonlinear_arith)
                requires
                    0 < total,
                    0 <= processed <= total,
            ;
        }
        wide as u64
    }
}

/// Packs a store's files into one container and unpacks a container into
/// files; the surrounding walking, reading and writing is the caller's.
#[derive(Debug)]
pub struct ExportImportManager {
    pub file_manager: FileManager,
}

impl Clone for ExportImportManager {
    fn clone(&self) -> (r: Self)
        ensures
            r == *self,
    {
        ExportImportManager { file_manager: self.file_manager.clone() }
    }
}

impl ExportImportManager {
    pub fn new(file_manager: FileManager) -> (r: ExportImportManager)
        ensures
            r.file_manager == file_manager,
    {
        ExportImportManager { file_manager }
    }

    /// Pack the given files — store-root-relative path and content, one pair
    /// per regular file of the selected persons — into one container. Entry
    /// paths get their separators normalized for portability. On success the
    /// container reads back exactly those entries, in order.
    pub fn export_to_ema(&self, files: &Vec<(String, Vec<u8>)>) -> (r: Result<Vec<u8>, StoreError>)
        ensures
            r matches Ok(bytes) ==> zip_entries_of(bytes@) == Some(normalized_entries(files@)),
            r matches Err(e) ==> e matches StoreError::IOError(_),
    {
        let mut w = archive_writer_new();
        let mut i: usize = 0;
        proof {
            assert(writer_entries(&w) =~= normalized_entries(files@.subrange(0, 0)));
        }
        while i < files.len()
            invariant
                i <= files@.len(),
                writer_entries(&w) == normalized_entries(files@.subrange(0, i as int)),
            decreases files@.len() - i,
        {
            let ghost prev = writer_entries(&w);
            let name = crate::paths::normalize_seps_x(files[i].0.as_str());
            match archive_start_entry(&mut w, name.as_str()) {
                Ok(_) => {},
                Err(e) => {
                    return Err(e);
                },
            }
            match archive_write_data(&mut w, &files[i].1) {
                Ok(_) => {},
                Err(e) => {
                    return Err(e);
                },
            }
            i = i + 1;
            proof {
                assert(writer_entries(&w) =~= normalized_entries(files@.subrange(0, i as int)));
            }
        }
        proof {
            assert(files@.subrange(0, files@.len() as int) =~= files@);
        }
        archive_writer_finish(w)
    }

    /// Unpack a container: every entry whose name is safe under the store
    /// root comes back as a relative path and its content, in container
    /// order; an entry whose name would escape the root is rejected and
    /// skipped. The caller writes the accepted files under the root and then
    /// reloads the store.
    pub fn import_from_ema(&self, data: Vec<u8>) -> (r: Result<Vec<(String, Vec<u8>)>, StoreError>)
        ensures
            r matches Ok(out) ==> {
                &&& zip_entries_of(data@) matches Some(es)
                &&& unpacked_views(out@) == accepted_entries(zip_entries_of(data@).unwrap())
            },
            r matches Err(e) ==> e matches StoreError::IOError(_),
    {
        let ghost dv = data@;
        let mut a = match archive_open(data) {
            Ok(a) => a,
            Err(e) => {
                return Err(e);
            },
        };
        let ghost es = archive_entries(&a);
        let n = archive_len(&a);
        let mut out: Vec<(String, Vec<u8>)> = Vec::new();
        let mut i: usize = 0;
        proof {
            reveal(Seq::filter);
            assert(unpacked_views(out@) =~= accepted_entries(es.subrange(0, 0)));
        }
        while i < n
            invariant
                i <= n,
                n == es.len(),
                es == archive_entries(&a),
                zip_entries_of(dv) == Some(es),
                unpacked_views(out@) == accepted_entries(es.subrange(0, i as int)),
            decreases n - i,
        {
            let ghost seen = es.subrange(0, i as int);
            let (name, content) = match archive_entry(&mut a, i) {
                Ok(e) => e,
                Err(e) => {
                    return Err(e);
                },
            };
            let ghost prev = out@;
            if crate::paths::safe_entry_name_x(name.as_str()) {
                out.push((name, content));
            }
            i = i + 1;
            proof {
                reveal(Seq::filter);
                let seen2 = es.subrange(0, i as int);
                assert(seen2.drop_last() =~= seen);
                assert(seen2.last() == es[i - 1]);
                assert(unpacked_views(out@) =~= accepted_entries(seen2));
            }
        }
        proof {
            assert(es.subrange(0, es.len() as int) =~= es);
        }
        Ok(out)
    }
}

} // verus!
