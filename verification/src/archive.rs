//! Reading the file names out of a package archive.

use std::io::Cursor;
use vstd::prelude::*;
use zip::read::ZipArchive;
use zip::result::ZipError;
use crate::entry_point::{entry_point_of, sniff_entry_point, EntryPoint};
use crate::tree_path::texts;

verus! {

/// `std::io::Cursor`, which lets a reader of archives seek in a byte string.
#[verifier::external_type_specification]
#[verifier::external_body]
#[verifier::reject_recursive_types(T)]
pub struct ExCursor<T>(Cursor<T>);

/// `zip::read::ZipArchive`: an archive whose central directory has been read.
#[verifier::external_type_specification]
#[verifier::external_body]
#[verifier::reject_recursive_types(R)]
pub struct ExZipArchive<R>(ZipArchive<R>);

/// `zip::result::ZipError`: why the bytes were not accepted as an archive.
#[verifier::external_type_specification]
#[verifier::external_body]
pub struct ExZipError(ZipError);

/// What `ZipArchive::new` makes of a byte string: the names that its central
/// directory lists, or nothing where the bytes are refused.
pub uninterp spec fn archive_directory(data: Seq<u8>) -> Option<Set<Seq<char>>>;

/// The names of the entries of an opened archive: the keys of its map from
/// entry name to entry.
pub uninterp spec fn archive_entries(archive: ZipArchive<Cursor<&[u8]>>) -> Set<Seq<char>>;

/// Calls `ZipArchive::new` on a cursor over `data`. The call looks for the
/// end record from the back, reads the central directory that the record
/// points at, and refuses bytes in which it finds no such record or an entry
/// that it cannot read; whether it accepts, and which names the archive then
/// lists, depends on the bytes alone. Before it reads the entries it reserves
/// room for as many as the end record announces, at most one for each byte in
/// front of that record.
#[verifier::external_body]
fn open_archive<'a>(data: &'a [u8]) -> (opened: Result<ZipArchive<Cursor<&'a [u8]>>, ZipError>)
    ensures
        match opened {
            Ok(archive) => archive_directory(data@) == Some(archive_entries(archive)),
            Err(_) => archive_directory(data@) is None,
        },
{
    ZipArchive::new(Cursor::new(data))
}

/// Calls `ZipArchive::file_names`, which walks the keys of the archive's map
/// from entry name to entry: every name of the archive, in no promised order.
#[verifier::external_body]
fn archive_file_names(archive: &ZipArchive<Cursor<&[u8]>>) -> (names: Vec<String>)
    ensures
        texts(names@).to_set() == archive_entries(*archive),
{
    archive.file_names().map(|name| name.to_owned()).collect()
}

/// The bytes are no archive that can be read.
#[derive(Clone, Copy, Debug, PartialEq, Eq, Structural)]
pub struct UnreadableArchive;

/// The entry point of the package in the archive `data`, or the refusal of
/// bytes that are no archive.
pub fn archive_entry_point(data: &[u8]) -> (entry: Result<EntryPoint, UnreadableArchive>)
    ensures
        match archive_directory(data@) {
            Some(names) => entry == Ok::<EntryPoint, UnreadableArchive>(entry_point_of(names)),
            None => entry is Err,
        },
{
    match open_archive(data) {
        Ok(archive) => {
            let names = archive_file_names(&archive);
            Ok(sniff_entry_point(&names))
        },
        Err(_) => Err(UnreadableArchive),
    }
}

} // verus!
