//! Finding the import-address-table entry to patch: the first function of
//! the given name that the executable imports from a Visual C++ runtime DLL.

use vstd::prelude::*;
use crate::bytes::{bytes_equal, starts_with};

verus! {

#[verifier::external_type_specification]
#[verifier::external_body]
pub struct ExPeliteError(pelite::Error);

/// One imported function.
pub enum ImportEntry {
    /// Imported by name (the name's bytes).
    ByName(Vec<u8>),
    /// Imported by ordinal.
    ByOrdinal(u16),
}

/// One import descriptor of the executable, as `pelite` reads it: the DLL's
/// name, and the pairs of import-address-table entry address and import.
/// `pelite` may fail on each of these, and the error is kept where it arose.
pub struct ImportDescriptor {
    pub dll_name: Result<Vec<u8>, pelite::Error>,
    pub entries: Result<Vec<(usize, Result<ImportEntry, pelite::Error>)>, pelite::Error>,
}

/// The ASCII upper case of a byte.
pub open spec fn ascii_upper(b: u8) -> u8 {
    if 0x61 <= b <= 0x7A {
        (b - 0x20) as u8
    } else {
        b
    }
}

/// `MSVCR` in bytes.
pub const MSVCR: [u8; 5] = [0x4D, 0x53, 0x56, 0x43, 0x52];

/// `MSVCRT` in bytes.
pub const MSVCRT: [u8; 6] = [0x4D, 0x53, 0x56, 0x43, 0x52, 0x54];

/// A Visual C++ runtime DLL whose imports are hooked: its name, in upper
/// case, starts with `MSVCR` but not with `MSVCRT`.
pub open spec fn is_target_crt(name: Seq<u8>) -> bool {
    let upper = name.map_values(|b: u8| ascii_upper(b));
    starts_with(upper, MSVCR@) && !starts_with(upper, MSVCRT@)
}

/// The first entry importing `name` by name, or the first error met before
/// one; `None` when there is neither.
pub open spec fn search_entries(
    entries: Seq<(usize, Result<ImportEntry, pelite::Error>)>,
    name: Seq<u8>,
) -> Option<Result<usize, pelite::Error>>
    decreases entries.len(),
{
    if entries.len() == 0 {
        None
    } else {
        match entries[0].1 {
            Err(e) => Some(Err(e)),
            Ok(ImportEntry::ByName(n)) => if n@ == name {
                Some(Ok(entries[0].0))
            } else {
                search_entries(entries.skip(1), name)
            },
            Ok(ImportEntry::ByOrdinal(_)) => search_entries(entries.skip(1), name),
        }
    }
}

/// The address of the entry for `name` in the first runtime DLL descriptor
/// that imports it, the first error met on the way, or `Ok(None)`.
pub open spec fn search_descriptors(descriptors: Seq<ImportDescriptor>, name: Seq<u8>) -> Result<
    Option<usize>,
    pelite::Error,
>
    decreases descriptors.len(),
{
    if descriptors.len() == 0 {
        Ok(None)
    } else {
        let rest = search_descriptors(descriptors.skip(1), name);
        match descriptors[0].dll_name {
            Err(e) => Err(e),
            Ok(dll) => if !is_target_crt(dll@) {
                rest
            } else {
                match descriptors[0].entries {
                    Err(e) => Err(e),
                    Ok(entries) => match search_entries(entries@, name) {
                        Some(Ok(address)) => Ok(Some(address)),
                        Some(Err(e)) => Err(e),
                        None => rest,
                    },
                }
            },
        }
    }
}

/// The import is the function `name`, imported by name.
pub open spec fn imports_name(import: Result<ImportEntry, pelite::Error>, name: Seq<u8>) -> bool {
    import matches Ok(ImportEntry::ByName(n)) && n@ == name
}

/// The entries read without error and none of them imports `name` by name.
pub open spec fn entries_lack(entries: Seq<(usize, Result<ImportEntry, pelite::Error>)>, name: Seq<u8>) -> bool {
    forall|i: int| 0 <= i < entries.len() ==> #[trigger] entries[i].1 is Ok && !imports_name(entries[i].1, name)
}

/// The descriptor gives nothing for `name`: its DLL name reads, and it is no
/// runtime DLL, or a runtime DLL whose entries read, each without error,
/// and none of which imports `name`.
pub open spec fn passes_over(descriptor: ImportDescriptor, name: Seq<u8>) -> bool {
    &&& descriptor.dll_name matches Ok(dll)
    &&& (!is_target_crt(dll@) || (descriptor.entries matches Ok(entries) && entries_lack(entries@, name)))
}

/// The descriptor is a runtime DLL whose entries read and whose entry at
/// `address` imports `name`, every entry before it reading without error and
/// importing something else.
pub open spec fn imports_at(descriptor: ImportDescriptor, name: Seq<u8>, address: usize) -> bool {
    &&& descriptor.dll_name matches Ok(dll)
    &&& is_target_crt(dll@)
    &&& descriptor.entries matches Ok(entries)
    &&& exists|i: int|
        0 <= i < entries@.len() && #[trigger] entries@[i].0 == address && imports_name(entries@[i].1, name)
            && entries_lack(entries@.take(i), name)
}

/// Entries that all read and lack `name` give nothing.
proof fn lemma_entries_lack(entries: Seq<(usize, Result<ImportEntry, pelite::Error>)>, name: Seq<u8>)
    requires
        entries_lack(entries, name),
    ensures
        search_entries(entries, name) is None,
    decreases entries.len(),
{
    if entries.len() > 0 {
        assert(entries[0].1 is Ok && !imports_name(entries[0].1, name));
        assert forall|i: int| 0 <= i < entries.skip(1).len() implies #[trigger] entries.skip(1)[i].1 is Ok
            && !imports_name(entries.skip(1)[i].1, name) by {
            assert(entries.skip(1)[i] == entries[i + 1]);
        }
        lemma_entries_lack(entries.skip(1), name);
    }
}

/// The entry search finds the first entry that imports `name`, when every
/// entry before it reads and imports something else.
proof fn lemma_entries_find(entries: Seq<(usize, Result<ImportEntry, pelite::Error>)>, name: Seq<u8>, i: int)
    requires
        0 <= i < entries.len(),
        imports_name(entries[i].1, name),
        entries_lack(entries.take(i), name),
    ensures
        search_entries(entries, name) == Some(Ok::<usize, pelite::Error>(entries[i].0)),
    decreases i,
{
    if i > 0 {
        assert(entries.take(i)[0] == entries[0]);
        assert(entries[0].1 is Ok && !imports_name(entries[0].1, name));
        let rest = entries.skip(1);
        assert(rest[i - 1] == entries[i]);
        assert forall|j: int| 0 <= j < rest.take(i - 1).len() implies #[trigger] rest.take(i - 1)[j].1 is Ok
            && !imports_name(rest.take(i - 1)[j].1, name) by {
            assert(rest.take(i - 1)[j] == entries.take(i)[j + 1]);
        }
        lemma_entries_find(rest, name, i - 1);
    }
}

/// The search goes on past every descriptor that gives nothing: when the
/// descriptors before `k` all pass `name` over (see `passes_over`), and the
/// runtime DLL descriptor `k` imports `name` at `address`, the search finds
/// `address`, however many runtime DLLs lacking `name` come first.
pub proof fn law_import_found_past_others(
    descriptors: Seq<ImportDescriptor>,
    name: Seq<u8>,
    k: int,
    address: usize,
)
    requires
        0 <= k < descriptors.len(),
        forall|j: int| 0 <= j < k ==> passes_over(#[trigger] descriptors[j], name),
        imports_at(descriptors[k], name, address),
    ensures
        search_descriptors(descriptors, name) == Ok::<Option<usize>, pelite::Error>(Some(address)),
    decreases k,
{
    let d = descriptors[0];
    if k == 0 {
        let entries = d.entries->Ok_0;
        let i = choose|i: int|
            0 <= i < entries@.len() && #[trigger] entries@[i].0 == address && imports_name(entries@[i].1, name)
                && entries_lack(entries@.take(i), name);
        lemma_entries_find(entries@, name, i);
    } else {
        assert(passes_over(descriptors[0], name));
        let rest = descriptors.skip(1);
        assert(rest[k - 1] == descriptors[k]);
        assert forall|j: int| 0 <= j < k - 1 implies passes_over(#[trigger] rest[j], name) by {
            assert(rest[j] == descriptors[j + 1]);
        }
        law_import_found_past_others(rest, name, k - 1, address);
        if d.dll_name matches Ok(dll) && is_target_crt(dll@) {
            lemma_entries_lack(d.entries->Ok_0@, name);
        }
    }
}

/// When every descriptor passes `name` over, the search finds nothing and
/// meets no error.
pub proof fn law_import_absent(descriptors: Seq<ImportDescriptor>, name: Seq<u8>)
    requires
        forall|j: int| 0 <= j < descriptors.len() ==> passes_over(#[trigger] descriptors[j], name),
    ensures
        search_descriptors(descriptors, name) == Ok::<Option<usize>, pelite::Error>(None),
    decreases descriptors.len(),
{
    if descriptors.len() > 0 {
        let d = descriptors[0];
        assert(passes_over(d, name));
        let rest = descriptors.skip(1);
        assert forall|j: int| 0 <= j < rest.len() implies passes_over(#[trigger] rest[j], name) by {
            assert(rest[j] == descriptors[j + 1]);
        }
        law_import_absent(rest, name);
        if d.dll_name matches Ok(dll) && is_target_crt(dll@) {
            lemma_entries_lack(d.entries->Ok_0@, name);
        }
    }
}

/// `pelite` fails with `error` on the descriptor: on its DLL name, or, for a
/// runtime DLL, on its list of entries.
pub open spec fn unreadable(descriptor: ImportDescriptor, error: pelite::Error) -> bool {
    match descriptor.dll_name {
        Err(e) => e == error,
        Ok(dll) => is_target_crt(dll@) && descriptor.entries == Err::<Vec<(usize, Result<ImportEntry, pelite::Error>)>, pelite::Error>(error),
    }
}

/// The search stops at the first error `pelite` meets: when the descriptors
/// before `k` all pass `name` over and the name of descriptor `k` cannot be
/// read, or it is a runtime DLL whose entries cannot be read, that error is
/// the result.
pub proof fn law_import_error_stops_search(
    descriptors: Seq<ImportDescriptor>,
    name: Seq<u8>,
    k: int,
    error: pelite::Error,
)
    requires
        0 <= k < descriptors.len(),
        forall|j: int| 0 <= j < k ==> passes_over(#[trigger] descriptors[j], name),
        unreadable(descriptors[k], error),
    ensures
        search_descriptors(descriptors, name) == Err::<Option<usize>, pelite::Error>(error),
    decreases k,
{
    if k > 0 {
        let d = descriptors[0];
        assert(passes_over(d, name));
        let rest = descriptors.skip(1);
        assert(rest[k - 1] == descriptors[k]);
        assert forall|j: int| 0 <= j < k - 1 implies passes_over(#[trigger] rest[j], name) by {
            assert(rest[j] == descriptors[j + 1]);
        }
        law_import_error_stops_search(rest, name, k - 1, error);
        if d.dll_name matches Ok(dll) && is_target_crt(dll@) {
            lemma_entries_lack(d.entries->Ok_0@, name);
        }
    }
}

/// Whether the DLL named `name` is a hooked Visual C++ runtime.
pub fn is_target_crt_name(name: &[u8]) -> (res: bool)
    ensures
        res == is_target_crt(name@),
{
    let ghost upper = name@.map_values(|b: u8| ascii_upper(b));
    if name.len() < 5 {
        return false;
    }
    let mut i: usize = 0;
    while i < 5
        invariant
            name@.len() >= 5,
            upper == name@.map_values(|b: u8| ascii_upper(b)),
            i <= 5,
            forall|j: int| 0 <= j < i ==> upper[j] == MSVCR@[j],
        decreases 5 - i,
    {
        if upper_byte(name[i]) != MSVCR[i] {
            assert(upper.take(5)[i as int] != MSVCR@[i as int]);
            return false;
        }
        i = i + 1;
    }
    assert(upper.take(5) =~= MSVCR@);
    if name.len() >= 6 && upper_byte(name[5]) == 0x54 {
        assert(upper.take(6) =~= MSVCRT@);
        false
    } else {
        proof {
            if upper.len() >= 6 {
                assert(upper.take(6)[5] != MSVCRT@[5]);
            }
        }
        true
    }
}

/// The ASCII upper case of a byte.
fn upper_byte(b: u8) -> (res: u8)
    ensures
        res == ascii_upper(b),
{
    if 0x61 <= b && b <= 0x7A {
        b - 0x20
    } else {
        b
    }
}

/// Searches one descriptor's entries.
fn find_in_entries(
    entries: &Vec<(usize, Result<ImportEntry, pelite::Error>)>,
    name: &[u8],
) -> (res: Option<Result<usize, pelite::Error>>)
    ensures
        res == search_entries(entries@, name@),
{
    let mut k: usize = 0;
    assert(entries@.skip(0) =~= entries@);
    while k < entries.len()
        invariant
            k <= entries@.len(),
            search_entries(entries@, name@) == search_entries(entries@.skip(k as int), name@),
        decreases entries@.len() - k,
    {
        proof {
            assert(entries@.skip(k as int)[0] == entries@[k as int]);
            assert(entries@.skip(k as int).skip(1) =~= entries@.skip(k + 1));
        }
        let (address, import) = &entries[k];
        match import {
            Err(e) => return Some(Err(*e)),
            Ok(ImportEntry::ByName(n)) => {
                if bytes_equal(n, name) {
                    return Some(Ok(*address));
                }
            },
            Ok(ImportEntry::ByOrdinal(_)) => {},
        }
        k = k + 1;
    }
    assert(entries@.skip(k as int) =~= Seq::<(usize, Result<ImportEntry, pelite::Error>)>::empty());
    None
}

/// Finds the import-address-table entry through which the executable calls
/// the function `name` of a Visual C++ runtime DLL (see `is_target_crt`):
/// descriptors and their entries are searched in order, and an error that
/// `pelite` met on the way is returned as soon as it is reached.
pub fn find_import(descriptors: &Vec<ImportDescriptor>, name: &[u8]) -> (res: Result<
    Option<usize>,
    pelite::Error,
>)
    ensures
        res == search_descriptors(descriptors@, name@),
{
    let mut k: usize = 0;
    assert(descriptors@.skip(0) =~= descriptors@);
    while k < descriptors.len()
        invariant
            k <= descriptors@.len(),
            search_descriptors(descriptors@, name@) == search_descriptors(
                descriptors@.skip(k as int),
                name@,
            ),
        decreases descriptors@.len() - k,
    {
        proof {
            assert(descriptors@.skip(k as int)[0] == descriptors@[k as int]);
            assert(descriptors@.skip(k as int).skip(1) =~= descriptors@.skip(k + 1));
        }
        let descriptor = &descriptors[k];
        match &descriptor.dll_name {
            Err(e) => return Err(*e),
            Ok(dll) => {
                if is_target_crt_name(dll) {
                    match &descriptor.entries {
                        Err(e) => return Err(*e),
                        Ok(entries) => match find_in_entries(entries, name) {
                            Some(Ok(address)) => return Ok(Some(address)),
                            Some(Err(e)) => return Err(e),
                            None => {},
                        },
                    }
                }
            },
        }
        k = k + 1;
    }
    assert(descriptors@.skip(k as int) =~= Seq::<ImportDescriptor>::empty());
    Ok(None)
}

} // verus!
