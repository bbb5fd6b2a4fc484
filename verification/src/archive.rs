//! Single-file 7z archives, read and written by `sevenz_rust2`.

use vstd::prelude::*;
use sevenz_rust2::{ArchiveEntry, ArchiveReader, ArchiveWriter, EncoderMethod, Password};
use std::io::{Cursor, Read};

verus! {

/// The signature that opens every 7z archive.
pub const SEVENZIP_HEADER: [u8; 6] = [0x37, 0x7A, 0xBC, 0xAF, 0x27, 0x1C];

#[verifier::external_type_specification]
#[verifier::external_body]
pub struct ExSevenZipError(sevenz_rust2::Error);

// The data that reading the archive `archive` with
// `ArchiveReader::for_each_entries`, as `sevenz_extract_first` does, keeps:
// in each block the reading of the block stops at its first non-directory
// entry, whose data is kept, and the reader goes on with later blocks and
// with the files that have no data, so the data kept last is the result.
// `None` on an error, `Some(None)` when no entry was kept.
pub uninterp spec fn sevenz_kept_data(archive: Seq<u8>) -> Option<Option<Seq<u8>>>;

// The bytes of the archive that `ArchiveWriter` writes into memory for one
// file entry named `name` (read as lossy UTF-8) holding `data`, stored with
// the COPY method.
pub uninterp spec fn sevenz_copy_archive(name: Seq<u8>, data: Seq<u8>) -> Seq<u8>;

/// The view of an optional byte vector.
pub open spec fn bytes_option_view(o: Option<Vec<u8>>) -> Option<Seq<u8>> {
    match o {
        Some(v) => Some(v@),
        None => None,
    }
}

/// Decides, for one entry met while an archive is read, whether its data is
/// kept: a directory is passed over and reading goes on; the data of any
/// other entry is kept and reading of the block stops.
pub fn record_entry(found: &mut Option<Vec<u8>>, is_directory: bool, data: Vec<u8>) -> (more: bool)
    ensures
        more == is_directory,
        is_directory ==> bytes_option_view(*final(found)) == bytes_option_view(*old(found)),
        !is_directory ==> bytes_option_view(*final(found)) == Some(data@),
{
    if is_directory {
        true
    } else {
        *found = Some(data);
        false
    }
}

/// Opens `archive` with `sevenz_rust2::ArchiveReader::new` (no password) and
/// walks it with `ArchiveReader::for_each_entries`, handing each entry to
/// `record_entry`. The result is a function of the archive bytes alone and
/// is named `sevenz_kept_data`; nothing more of it is claimed.
#[verifier::external_body]
pub(crate) fn sevenz_extract_first(archive: Vec<u8>) -> (res: Result<Option<Vec<u8>>, sevenz_rust2::Error>)
    ensures
        match res {
            Ok(found) => sevenz_kept_data(archive@) == Some(bytes_option_view(found)),
            Err(_) => sevenz_kept_data(archive@) is None,
        },
{
    let mut reader = ArchiveReader::new(Cursor::new(archive), Password::empty())?;
    let mut found = None;
    reader.for_each_entries(|entry, data| {
        let mut buf = Vec::new();
        data.read_to_end(&mut buf)?;
        Ok(record_entry(&mut found, entry.is_directory(), buf))
    })?;
    Ok(found)
}

/// Writes a 7z archive with `sevenz_rust2::ArchiveWriter` into memory: one
/// file entry (`ArchiveEntry::new_file`, named by `name` read as lossy UTF-8)
/// holding `data`, stored with `EncoderMethod::COPY`. The result is named
/// `sevenz_copy_archive`. Also claimed: the writer does not fail here (it
/// reads from a slice and writes to a `Cursor` over a `Vec`, and the COPY
/// encoder and the LZMA header encoder are made without error); `finish`
/// writes the 32-byte signature header, which starts with the 7z signature,
/// at the start of the output; and the crate's reader gives back from this
/// archive (one block holding one file entry) the data that was written
/// (`sevenz_kept_data`).
#[verifier::external_body]
pub(crate) fn sevenz_pack_single(name: &[u8], data: &[u8]) -> (res: Result<Vec<u8>, sevenz_rust2::Error>)
    ensures
        res is Ok,
        res matches Ok(archive) ==> archive@ == sevenz_copy_archive(name@, data@),
        res matches Ok(archive) ==> archive@.len() >= 32,
        res matches Ok(archive) ==> archive@.take(6) == SEVENZIP_HEADER@,
        res matches Ok(archive) ==> sevenz_kept_data(archive@) == Some(Some(data@)),
{
    let mut writer = ArchiveWriter::new(Cursor::new(Vec::new()))?;
    writer.set_content_methods(vec![EncoderMethod::COPY.into()]);
    writer.push_archive_entry(ArchiveEntry::new_file(&String::from_utf8_lossy(name)), Some(data))?;
    Ok(writer.finish()?.into_inner())
}

} // verus!
