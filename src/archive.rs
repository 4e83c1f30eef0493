use vstd::prelude::*;
use vstd::string::StrSliceExecFns;
use vstd::utf8::encode_utf8;
use std::io::Cursor;
use std::io::Read;
use crate::decimal::{decimal_of, decimal_text};

verus! {

#[verifier::external_type_specification]
#[verifier::external_body]
#[verifier::reject_recursive_types(R)]
pub struct ExZipArchive<R>(zip::ZipArchive<R>);

#[verifier::external_type_specification]
#[verifier::external_body]
pub struct ExZipError(zip::result::ZipError);

#[verifier::external_type_specification]
#[verifier::external_body]
#[verifier::reject_recursive_types(T)]
pub struct ExCursor<T>(Cursor<T>);

/// The entries of an opened archive, in index order: the decompressed
/// contents of each, or `None` for one that cannot be read or decompressed.
pub uninterp spec fn archive_entries(a: zip::ZipArchive<Cursor<Vec<u8>>>) -> Seq<Option<Seq<u8>>>;

/// The entries the bytes of a zip archive hold, as `archive_entries` gives
/// them once opened; `None` where the bytes are not a readable archive.
pub uninterp spec fn zip_contents(b: Seq<u8>) -> Option<Seq<Option<Seq<u8>>>>;

/// Relies on `zip::ZipArchive::new`: reads the central directory of an
/// archive held in memory, failing where it is not a valid zip archive.
#[verifier::external_body]
fn zip_open(bytes: Vec<u8>) -> (r: Result<zip::ZipArchive<Cursor<Vec<u8>>>, zip::result::ZipError>)
    ensures
        r is Ok <==> zip_contents(bytes@) is Some,
        r is Ok ==> zip_contents(bytes@) == Some(archive_entries(r->Ok_0)),
{
    zip::ZipArchive::new(Cursor::new(bytes))
}

/// Relies on `zip::ZipArchive::len`: the number of entries.
#[verifier::external_body]
fn zip_len(a: &zip::ZipArchive<Cursor<Vec<u8>>>) -> (r: usize)
    ensures
        r == archive_entries(*a).len(),
{
    a.len()
}

/// Relies on `zip::ZipArchive::by_index` and reading the entry to its end:
/// it succeeds exactly for an entry that can be read and decompressed, with
/// its contents; reading changes no entry.
#[verifier::external_body]
fn zip_read(a: &mut zip::ZipArchive<Cursor<Vec<u8>>>, index: usize) -> (r: Result<Vec<u8>, zip::result::ZipError>)
    requires
        index < archive_entries(*old(a)).len(),
    ensures
        archive_entries(*final(a)) == archive_entries(*old(a)),
        r is Ok <==> archive_entries(*old(a))[index as int] is Some,
        r is Ok ==> archive_entries(*old(a))[index as int] == Some(r->Ok_0@),
{
    let mut entry = a.by_index(index)?;
    let mut body: Vec<u8> = Vec::new();
    entry.read_to_end(&mut body)?;
    Ok(body)
}

/// Why an archive request failed.
#[derive(Clone, Copy, Debug, PartialEq, Eq, Structural)]
pub enum ArchiveError {
    /// The bytes are not a readable zip archive.
    InvalidArchive,
    /// No entry has the index asked for.
    IndexOutOfBounds,
    /// The entry exists but could not be read or decompressed.
    ReadFailed,
}

/// An opened zip archive.
pub struct ArchiveHandle {
    archive: zip::ZipArchive<Cursor<Vec<u8>>>,
}

impl ArchiveHandle {
    /// The contents of the entries, in index order.
    pub closed spec fn entries(&self) -> Seq<Option<Seq<u8>>> {
        archive_entries(self.archive)
    }

    /// Opens the archive whose bytes are given.
    pub fn open(bytes: Vec<u8>) -> (r: Result<ArchiveHandle, ArchiveError>)
        ensures
            r is Ok <==> zip_contents(bytes@) is Some,
            r matches Ok(h) ==> zip_contents(bytes@) == Some(h.entries()),
            r is Err ==> r->Err_0 == ArchiveError::InvalidArchive,
    {
        match zip_open(bytes) {
            Ok(archive) => Ok(ArchiveHandle { archive }),
            Err(_) => Err(ArchiveError::InvalidArchive),
        }
    }

    /// The number of entries.
    pub fn count(&self) -> (n: usize)
        ensures
            n == self.entries().len(),
    {
        zip_len(&self.archive)
    }

    /// The contents of the entry at `index`.
    pub fn read_entry(&mut self, index: usize) -> (r: Result<Vec<u8>, ArchiveError>)
        ensures
            final(self).entries() == old(self).entries(),
            index >= old(self).entries().len() <==> r == Err::<Vec<u8>, ArchiveError>(ArchiveError::IndexOutOfBounds),
            index < old(self).entries().len() ==> (r is Ok <==> old(self).entries()[index as int] is Some),
            r is Ok ==> old(self).entries()[index as int] == Some(r->Ok_0@),
            r is Err ==> r->Err_0 != ArchiveError::InvalidArchive,
    {
        if index >= zip_len(&self.archive) {
            return Err(ArchiveError::IndexOutOfBounds);
        }
        match zip_read(&mut self.archive, index) {
            Ok(body) => Ok(body),
            Err(_) => Err(ArchiveError::ReadFailed),
        }
    }
}

/// The body answering an archive request: the decimal count of entries when
/// no index is given, else the contents of the entry at the index.
pub fn archive_body(handle: &mut ArchiveHandle, index: Option<usize>) -> (r: Result<Vec<u8>, ArchiveError>)
    ensures
        final(handle).entries() == old(handle).entries(),
        index is None ==> r is Ok && r->Ok_0@ == encode_utf8(decimal_of(old(handle).entries().len())),
        index matches Some(i) ==> (i >= old(handle).entries().len() <==> r == Err::<Vec<u8>, ArchiveError>(ArchiveError::IndexOutOfBounds)),
        index matches Some(i) ==> (i < old(handle).entries().len() ==> (r is Ok <==> old(handle).entries()[i as int] is Some)),
        index matches Some(i) ==> (r is Ok ==> old(handle).entries()[i as int] == Some(r->Ok_0@)),
        index is Some && r is Err ==> r->Err_0 != ArchiveError::InvalidArchive,
{
    match index {
        None => {
            let n = handle.count();
            let text = decimal_text(n as u64);
            Ok(text.as_str().as_bytes_vec())
        },
        Some(i) => handle.read_entry(i),
    }
}

} // verus!
