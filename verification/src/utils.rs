//! Decisions around the Windows calls that fill caller-provided buffers.

use vstd::prelude::*;

verus! {

/// The length (in UTF-16 units) of the buffer first offered for a directory.
pub const MAX_PATH: usize = 260;

/// What to do after a call that writes a directory into a buffer.
#[derive(Clone, Copy, Debug, PartialEq, Eq, Structural)]
pub enum DirectoryRead {
    /// The directory fitted; it has this many units.
    Done(usize),
    /// The buffer was too small; call again with one of this many units.
    Grow(usize),
}

/// After a call that wrote a directory into a buffer of `capacity` units and
/// returned `reported`: a value below the capacity is the directory's
/// length, any other value the length the buffer must have.
pub fn directory_read_step(capacity: usize, reported: u32) -> (step: DirectoryRead)
    ensures
        reported < capacity ==> step == DirectoryRead::Done(reported as usize),
        reported >= capacity ==> step == DirectoryRead::Grow(reported as usize),
{
    let len = reported as usize;
    if len < capacity {
        DirectoryRead::Done(len)
    } else {
        DirectoryRead::Grow(len)
    }
}

/// Which C runtime function opens a routed file.
#[derive(Clone, Copy, Debug, PartialEq, Eq, Structural)]
pub enum OpenVia {
    /// `_wfsopen`, with the caller's sharing flag.
    Wfsopen,
    /// `_wfopen`.
    Wfopen,
    /// `fopen`, with the path in the file code page.
    Fopen,
}

/// The function that opens a routed file: `_wfsopen` when it was hooked and
/// the call came with a sharing flag, else `_wfopen` when it was hooked,
/// else `fopen`.
pub fn open_via(wfsopen_hooked: bool, shflag_given: bool, wfopen_hooked: bool) -> (chosen: OpenVia)
    ensures
        chosen == (if (wfsopen_hooked && shflag_given) {
            OpenVia::Wfsopen
        } else if wfopen_hooked {
            OpenVia::Wfopen
        } else {
            OpenVia::Fopen
        }),
{
    if wfsopen_hooked && shflag_given {
        OpenVia::Wfsopen
    } else if wfopen_hooked {
        OpenVia::Wfopen
    } else {
        OpenVia::Fopen
    }
}

/// The number of UTF-16 units (with the terminating nul) that
/// `MultiByteToWideChar` reports it needs: `None` when the call failed
/// (it returns 0).
pub fn required_length(reported: i32) -> (len: Option<usize>)
    ensures
        reported > 0 ==> len == Some(reported as usize),
        reported <= 0 ==> len is None,
{
    if reported > 0 {
        Some(reported as usize)
    } else {
        None
    }
}

/// The length of a path converted to UTF-16 without its terminating nul,
/// after `MultiByteToWideChar` wrote `written` units (0 on failure).
pub fn wide_path_length(written: i32) -> (len: Option<usize>)
    ensures
        written > 0 ==> len == Some((written - 1) as usize),
        written <= 0 ==> len is None,
{
    if written > 0 {
        Some((written - 1) as usize)
    } else {
        None
    }
}

/// The length of a path converted to the file code page, after
/// `WideCharToMultiByte` wrote `written` bytes (0 on failure) and reported in
/// `used_default` whether a character had to be replaced: a replaced
/// character makes the path unusable.
pub fn multibyte_path_length(written: i32, used_default: i32) -> (len: Option<usize>)
    ensures
        written > 0 && used_default == 0 ==> len == Some(written as usize),
        written <= 0 || used_default != 0 ==> len is None,
{
    if written > 0 && used_default == 0 {
        Some(written as usize)
    } else {
        None
    }
}

} // verus!
