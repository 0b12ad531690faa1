//! The archive accessor: the container is an outside zip archive over an
//! in-memory buffer, declared to the verifier and modelled by two names:
//! the text of its entries and their declared sizes. Reads never change
//! either, so everything extracted from one archive value is repeatable.

use vstd::prelude::*;

verus! {

#[verifier::external_type_specification]
#[verifier::external_body]
#[verifier::reject_recursive_types(T)]
pub struct ExCursor<T>(std::io::Cursor<T>);

#[verifier::external_type_specification]
#[verifier::external_body]
#[verifier::reject_recursive_types(R)]
pub struct ExZipArchive<R>(zip::ZipArchive<R>);

/// The concrete archive the accessor reads: a zip directory over the
/// document's bytes.
pub type Archive = zip::ZipArchive<std::io::Cursor<Vec<u8>>>;

/// What the archive holds, by entry name: the entry's payload decoded as
/// text, or `None` where the payload does not read back as text (it is
/// missing, damaged, enciphered or not valid text).
pub uninterp spec fn zip_contents(a: Archive) -> Map<Seq<char>, Option<Seq<char>>>;

/// The compressed and uncompressed byte length each entry declares.
pub uninterp spec fn zip_sizes(a: Archive) -> Map<Seq<char>, (u64, u64)>;

/// The entries that opening `bytes` as a container yields, or `None` where
/// the bytes do not parse as a container: a pure function of the bytes.
pub uninterp spec fn zip_entries_of(bytes: Seq<u8>) -> Option<Map<Seq<char>, Option<Seq<char>>>>;

/// Relies on `zip::ZipArchive::new` over an in-memory cursor: whether the
/// bytes parse as a container, and what the entries then hold, depend on
/// the bytes alone.
#[verifier::external_body]
pub fn open_archive(bytes: Vec<u8>) -> (r: Result<Archive, String>)
    ensures
        match r {
            Ok(a) => zip_entries_of(bytes@) == Some(zip_contents(a)),
            Err(_) => zip_entries_of(bytes@) is None,
        },
{
    match zip::ZipArchive::new(std::io::Cursor::new(bytes)) {
        Ok(a) => Ok(a),
        Err(e) => Err(e.to_string()),
    }
}

/// Why one entry could not be read.
pub enum EntryFault {
    /// The archive holds no entry of that name.
    Missing,
    /// The entry exists but its payload does not read back as text.
    Unreadable,
}

/// Relies on `ZipArchive::by_name` and `Read::read_to_string`: an entry's
/// text is determined by the archive's contents, reading leaves the
/// contents unchanged, `Missing` comes exactly where no entry of that name
/// exists, and `Unreadable` exactly where the entry's payload does not read
/// back as text.
#[verifier::external_body]
pub fn read_entry(a: &mut Archive, name: &str) -> (r: Result<String, EntryFault>)
    ensures
        zip_contents(*final(a)) == zip_contents(*old(a)),
        zip_sizes(*final(a)) == zip_sizes(*old(a)),
        match r {
            Ok(s) => zip_contents(*old(a)).contains_key(name@) && zip_contents(*old(a))[name@]
                == Some(s@),
            Err(EntryFault::Missing) => !zip_contents(*old(a)).contains_key(name@),
            Err(EntryFault::Unreadable) => zip_contents(*old(a)).contains_key(name@)
                && zip_contents(*old(a))[name@] is None,
        },
{
    match a.by_name(name) {
        Ok(mut f) => {
            let mut s = String::new();
            match std::io::Read::read_to_string(&mut f, &mut s) {
                Ok(_) => Ok(s),
                Err(_) => Err(EntryFault::Unreadable),
            }
        },
        Err(zip::result::ZipError::FileNotFound) => Err(EntryFault::Missing),
        Err(_) => Err(EntryFault::Unreadable),
    }
}

/// Relies on `ZipArchive::by_name`, `ZipFile::compressed_size` and
/// `ZipFile::size`: the sizes an entry declares, determined by the archive's
/// contents; a failure comes only for an entry that is not readable as text
/// anyway, since looking an entry up is the first step of reading it.
#[verifier::external_body]
pub fn entry_sizes(a: &mut Archive, name: &str) -> (r: Option<(u64, u64)>)
    ensures
        zip_contents(*final(a)) == zip_contents(*old(a)),
        zip_sizes(*final(a)) == zip_sizes(*old(a)),
        match r {
            Some(cd) => zip_sizes(*old(a)).contains_key(name@) && zip_sizes(*old(a))[name@] == cd,
            None => !(zip_contents(*old(a)).contains_key(name@) && zip_contents(*old(a))[name@]
                is Some),
        },
{
    match a.by_name(name) {
        Ok(f) => Some((f.compressed_size(), f.size())),
        Err(_) => None,
    }
}

} // verus!
