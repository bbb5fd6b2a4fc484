//! Small verified operations on byte strings.

use vstd::prelude::*;

verus! {

/// `prefix` is a prefix of `s`.
pub open spec fn starts_with(s: Seq<u8>, prefix: Seq<u8>) -> bool {
    prefix.len() <= s.len() && s.take(prefix.len() as int) == prefix
}

/// Whether `data` starts with `prefix`.
pub fn bytes_start_with(data: &[u8], prefix: &[u8]) -> (res: bool)
    ensures
        res == starts_with(data@, prefix@),
{
    if prefix.len() > data.len() {
        return false;
    }
    let mut i: usize = 0;
    while i < prefix.len()
        invariant
            prefix@.len() <= data@.len(),
            i <= prefix@.len(),
            forall|j: int| 0 <= j < i ==> data@[j] == prefix@[j],
        decreases prefix@.len() - i,
    {
        if data[i] != prefix[i] {
            assert(data@.take(prefix@.len() as int)[i as int] != prefix@[i as int]);
            return false;
        }
        i = i + 1;
    }
    assert(data@.take(prefix@.len() as int) =~= prefix@);
    true
}

/// Whether two byte strings are equal.
pub fn bytes_equal(a: &[u8], b: &[u8]) -> (res: bool)
    ensures
        res == (a@ == b@),
{
    if a.len() != b.len() {
        return false;
    }
    let res = bytes_start_with(a, b);
    proof {
        assert(a@ =~= a@.take(b@.len() as int));
    }
    res
}

/// A copy of `data[start..end]`.
pub fn bytes_range(data: &[u8], start: usize, end: usize) -> (out: Vec<u8>)
    requires
        start <= end <= data@.len(),
    ensures
        out@ == data@.subrange(start as int, end as int),
{
    let mut out: Vec<u8> = Vec::new();
    let mut i: usize = start;
    while i < end
        invariant
            start <= i <= end <= data@.len(),
            out@ == data@.subrange(start as int, i as int),
        decreases end - i,
    {
        out.push(data[i]);
        i = i + 1;
        assert(out@ =~= data@.subrange(start as int, i as int));
    }
    out
}

/// A copy of `data`.
pub fn bytes_copy(data: &[u8]) -> (out: Vec<u8>)
    ensures
        out@ == data@,
{
    let out = bytes_range(data, 0, data.len());
    assert(data@.subrange(0, data@.len() as int) =~= data@);
    out
}

/// The 16 bytes of `data` that start at `start`.
pub fn block_at(data: &[u8], start: usize) -> (block: [u8; 16])
    requires
        start + 16 <= data@.len(),
    ensures
        block@ == data@.subrange(start as int, start + 16),
{
    let n = data.len();
    let mut block = [0u8; 16];
    let mut i: usize = 0;
    while i < 16
        invariant
            n == data@.len(),
            start + 16 <= data@.len(),
            i <= 16,
            block@.len() == 16,
            forall|j: int| 0 <= j < i ==> block@[j] == data@[start + j],
        decreases 16 - i,
    {
        block[i] = data[start + i];
        i = i + 1;
    }
    assert(block@ =~= data@.subrange(start as int, start + 16));
    block
}

/// Appends `src` to `buf`.
pub fn append_bytes(buf: &mut Vec<u8>, src: &[u8])
    ensures
        final(buf)@ == old(buf)@ + src@,
{
    let ghost start = buf@;
    let mut i: usize = 0;
    while i < src.len()
        invariant
            i <= src@.len(),
            buf@ == start + src@.take(i as int),
        decreases src@.len() - i,
    {
        buf.push(src[i]);
        i = i + 1;
        assert(buf@ =~= start + src@.take(i as int));
    }
    assert(src@.take(src@.len() as int) =~= src@);
}

} // verus!
