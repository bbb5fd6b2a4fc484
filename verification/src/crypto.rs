//! AES-256-CBC with PKCS#7 padding, as the `cbc`, `aes` and `cipher` crates
//! compute it, described over byte sequences.

use vstd::prelude::*;
use vstd::utf8::*;
use cipher::{BlockModeDecrypt, BlockModeEncrypt, KeyIvInit};
use cipher::block_padding::{Padding, Pkcs7};

verus! {

// The AES-256 inverse cipher applied to one 16-byte block under a 32-byte key.
pub uninterp spec fn aes256_decrypt_block(key: Seq<u8>, block: Seq<u8>) -> Seq<u8>;

// The AES-256 forward cipher applied to one 16-byte block under a 32-byte key.
pub uninterp spec fn aes256_encrypt_block(key: Seq<u8>, block: Seq<u8>) -> Seq<u8>;

/// The first 16 bytes of `s`, as a block.
pub open spec fn fit_block(s: Seq<u8>) -> Seq<u8> {
    Seq::new(16, |i: int| s[i])
}

/// Byte-wise exclusive or of two blocks.
pub open spec fn xor_block(a: Seq<u8>, b: Seq<u8>) -> Seq<u8> {
    Seq::new(16, |i: int| a[i] ^ b[i])
}

/// The all-zero block, the initialisation vector this library uses.
pub open spec fn zero_block() -> Seq<u8> {
    Seq::new(16, |i: int| 0u8)
}

/// CBC decryption of the whole blocks of `ct` with initialisation vector `iv`:
/// each plaintext block is the decrypted ciphertext block xor the previous
/// ciphertext block (the vector for the first one).
pub open spec fn cbc_decrypt(key: Seq<u8>, iv: Seq<u8>, ct: Seq<u8>) -> Seq<u8>
    decreases ct.len(),
{
    if ct.len() < 16 {
        Seq::empty()
    } else {
        xor_block(aes256_decrypt_block(key, ct.take(16)), iv) + cbc_decrypt(
            key,
            ct.take(16),
            ct.skip(16),
        )
    }
}

/// CBC encryption of the whole blocks of `pt` with initialisation vector `iv`:
/// each ciphertext block is the encryption of the plaintext block xor the
/// previous ciphertext block (the vector for the first one).
pub open spec fn cbc_encrypt(key: Seq<u8>, iv: Seq<u8>, pt: Seq<u8>) -> Seq<u8>
    decreases pt.len(),
{
    if pt.len() < 16 {
        Seq::empty()
    } else {
        let c = fit_block(aes256_encrypt_block(key, xor_block(pt.take(16), iv)));
        c + cbc_encrypt(key, c, pt.skip(16))
    }
}

/// PKCS#7 padding to a whole number of blocks: `n` bytes of value `n` are
/// appended, where `n` (1 to 16) is what the last block lacks.
pub open spec fn pkcs7_pad(msg: Seq<u8>) -> Seq<u8> {
    let n = 16 - msg.len() % 16;
    msg + Seq::new(n as nat, |i: int| n as u8)
}

/// The length of the data in a padded 16-byte block, or `None` when the block
/// does not end in valid PKCS#7 padding.
pub open spec fn pkcs7_unpadded_len(block: Seq<u8>) -> Option<int> {
    let n = block[15];
    if n == 0 || n > 16 {
        None
    } else if forall|i: int| 16 - n <= i < 15 ==> block[i] == n {
        Some(16 - n)
    } else {
        None
    }
}


/// The vector that chains into the block after `a`: the last block of `a`,
/// or `iv` when `a` is empty.
pub open spec fn chain_iv(iv: Seq<u8>, a: Seq<u8>) -> Seq<u8> {
    if a.len() == 0 {
        iv
    } else {
        a.subrange(a.len() - 16, a.len() as int)
    }
}

/// CBC decryption yields one plaintext byte for each byte of the whole blocks.
pub proof fn lemma_cbc_decrypt_len(key: Seq<u8>, iv: Seq<u8>, ct: Seq<u8>)
    ensures
        cbc_decrypt(key, iv, ct).len() == ct.len() - ct.len() % 16,
    decreases ct.len(),
{
    if ct.len() >= 16 {
        lemma_cbc_decrypt_len(key, ct.take(16), ct.skip(16));
    }
}

/// CBC encryption yields one ciphertext byte for each byte of the whole blocks.
pub proof fn lemma_cbc_encrypt_len(key: Seq<u8>, iv: Seq<u8>, pt: Seq<u8>)
    ensures
        cbc_encrypt(key, iv, pt).len() == pt.len() - pt.len() % 16,
    decreases pt.len(),
{
    if pt.len() >= 16 {
        let c = fit_block(aes256_encrypt_block(key, xor_block(pt.take(16), iv)));
        lemma_cbc_encrypt_len(key, c, pt.skip(16));
    }
}

/// CBC decryption of two runs of whole blocks is the decryption of the first
/// run followed by that of the second, chained from the last block of the first.
pub proof fn lemma_cbc_decrypt_append(key: Seq<u8>, iv: Seq<u8>, a: Seq<u8>, b: Seq<u8>)
    requires
        a.len() % 16 == 0,
    ensures
        cbc_decrypt(key, iv, a + b) == cbc_decrypt(key, iv, a) + cbc_decrypt(key, chain_iv(iv, a), b),
    decreases a.len(),
{
    if a.len() == 0 {
        assert(a + b =~= b);
        assert(cbc_decrypt(key, iv, a) =~= Seq::<u8>::empty());
        assert(cbc_decrypt(key, iv, a) + cbc_decrypt(key, iv, b) =~= cbc_decrypt(key, iv, b));
    } else {
        let rest = a.skip(16);
        assert((a + b).take(16) =~= a.take(16));
        assert((a + b).skip(16) =~= rest + b);
        lemma_cbc_decrypt_append(key, a.take(16), rest, b);
        assert(chain_iv(a.take(16), rest) =~= chain_iv(iv, a));
        assert(cbc_decrypt(key, iv, a + b) =~= cbc_decrypt(key, iv, a) + cbc_decrypt(key, chain_iv(iv, a), b));
    }
}

/// The vector that chains into the block after the plaintext `a`: the last
/// block of the encryption of `a`, or `iv` when `a` is empty.
pub open spec fn enc_chain_iv(key: Seq<u8>, iv: Seq<u8>, a: Seq<u8>) -> Seq<u8> {
    if a.len() == 0 {
        iv
    } else {
        let c = cbc_encrypt(key, iv, a);
        c.subrange(c.len() - 16, c.len() as int)
    }
}

/// CBC encryption of two runs of whole blocks is the encryption of the first
/// run followed by that of the second, chained from the last ciphertext
/// block of the first.
pub proof fn lemma_cbc_encrypt_append(key: Seq<u8>, iv: Seq<u8>, a: Seq<u8>, b: Seq<u8>)
    requires
        a.len() % 16 == 0,
    ensures
        cbc_encrypt(key, iv, a + b) == cbc_encrypt(key, iv, a) + cbc_encrypt(
            key,
            enc_chain_iv(key, iv, a),
            b,
        ),
    decreases a.len(),
{
    if a.len() == 0 {
        assert(a + b =~= b);
        assert(cbc_encrypt(key, iv, a) =~= Seq::<u8>::empty());
        assert(cbc_encrypt(key, iv, a) + cbc_encrypt(key, iv, b) =~= cbc_encrypt(key, iv, b));
    } else {
        let rest = a.skip(16);
        let c = fit_block(aes256_encrypt_block(key, xor_block(a.take(16), iv)));
        assert((a + b).take(16) =~= a.take(16));
        assert((a + b).skip(16) =~= rest + b);
        lemma_cbc_encrypt_append(key, c, rest, b);
        lemma_cbc_encrypt_len(key, c, rest);
        lemma_cbc_encrypt_len(key, iv, a);
        let whole = cbc_encrypt(key, iv, a);
        assert(whole == c + cbc_encrypt(key, c, rest));
        if rest.len() == 0 {
            assert(cbc_encrypt(key, c, rest) =~= Seq::<u8>::empty());
            assert(whole.subrange(whole.len() - 16, whole.len() as int) =~= c);
        } else {
            let tail = cbc_encrypt(key, c, rest);
            assert(whole.subrange(whole.len() - 16, whole.len() as int) =~= tail.subrange(
                tail.len() - 16,
                tail.len() as int,
            ));
        }
        assert(enc_chain_iv(key, iv, a) == enc_chain_iv(key, c, rest));
        assert(cbc_encrypt(key, iv, a + b) =~= cbc_encrypt(key, iv, a) + cbc_encrypt(
            key,
            enc_chain_iv(key, iv, a),
            b,
        ));
    }
}

/// The CBC encryption of a single block.
pub proof fn lemma_cbc_encrypt_one_block(key: Seq<u8>, iv: Seq<u8>, p: Seq<u8>)
    requires
        p.len() == 16,
    ensures
        cbc_encrypt(key, iv, p) == fit_block(aes256_encrypt_block(key, xor_block(p, iv))),
{
    assert(p.take(16) =~= p);
    let c = fit_block(aes256_encrypt_block(key, xor_block(p, iv)));
    assert(cbc_encrypt(key, c, p.skip(16)) =~= Seq::<u8>::empty());
    assert(cbc_encrypt(key, iv, p) =~= c);
}

/// The CBC decryption of a single block.
pub proof fn lemma_cbc_decrypt_one_block(key: Seq<u8>, iv: Seq<u8>, b: Seq<u8>)
    requires
        b.len() == 16,
    ensures
        cbc_decrypt(key, iv, b) == xor_block(aes256_decrypt_block(key, b), iv),
{
    assert(b.take(16) =~= b);
    assert(cbc_decrypt(key, b.take(16), b.skip(16)) =~= Seq::<u8>::empty());
    assert(cbc_decrypt(key, iv, b) =~= xor_block(aes256_decrypt_block(key, b), iv));
}

/// How `std::str::from_utf8` judges a byte string.
#[derive(Clone, Copy, Debug, PartialEq, Eq, Structural)]
pub enum Utf8Status {
    /// The bytes are valid UTF-8.
    Valid,
    /// The bytes are valid UTF-8 up to a last character that the input cuts off.
    Truncated,
    /// The bytes hold a sequence that no continuation can make valid.
    Invalid,
}

/// `t` is a proper, non-empty prefix of the UTF-8 encoding of one character.
pub open spec fn is_cut_scalar(t: Seq<u8>) -> bool {
    &&& t.len() >= 1
    &&& exists|u: Seq<u8>|
        #![trigger valid_first_scalar(t + u)]
        u.len() >= 1 && valid_first_scalar(t + u) && length_of_first_scalar(t + u) == t.len()
            + u.len()
}

/// The bytes are valid UTF-8 but for a last character that the input cuts off.
pub open spec fn utf8_truncated(bytes: Seq<u8>) -> bool {
    exists|k: int|
        #![trigger bytes.take(k)]
        0 <= k < bytes.len() && valid_utf8(bytes.take(k)) && is_cut_scalar(bytes.skip(k))
}

/// The judgement of `std::str::from_utf8` on `bytes`.
pub open spec fn utf8_status_of(bytes: Seq<u8>) -> Utf8Status {
    if valid_utf8(bytes) {
        Utf8Status::Valid
    } else if utf8_truncated(bytes) {
        Utf8Status::Truncated
    } else {
        Utf8Status::Invalid
    }
}

/// The first character of `s` is read from its first bytes alone: any
/// prefix that holds it starts with the same character.
proof fn lemma_first_scalar_of_prefix(s: Seq<u8>, m: int)
    requires
        valid_first_scalar(s),
        length_of_first_scalar(s) <= m <= s.len(),
    ensures
        valid_first_scalar(s.take(m)),
        length_of_first_scalar(s.take(m)) == length_of_first_scalar(s),
{
    let t = s.take(m);
    assert(t[0] == s[0]);
    if m >= 2 {
        assert(t[1] == s[1]);
    }
    if m >= 3 {
        assert(t[2] == s[2]);
    }
    if m >= 4 {
        assert(t[3] == s[3]);
    }
}

/// Every prefix of valid UTF-8 is valid UTF-8 or valid UTF-8 followed by
/// the cut-off start of one more character.
pub proof fn lemma_utf8_prefix(s: Seq<u8>, n: int)
    requires
        valid_utf8(s),
        0 <= n <= s.len(),
    ensures
        valid_utf8(s.take(n)) || utf8_truncated(s.take(n)),
    decreases s.len(),
{
    let t = s.take(n);
    if n == 0 {
        assert(t.len() == 0);
    } else {
        let l = length_of_first_scalar(s);
        let rest = pop_first_scalar(s);
        assert(rest =~= s.skip(l));
        if n >= l {
            lemma_first_scalar_of_prefix(s, n);
            assert(pop_first_scalar(t) =~= rest.take(n - l));
            lemma_utf8_prefix(rest, n - l);
            if !valid_utf8(t) {
                let r = rest.take(n - l);
                assert(utf8_truncated(r));
                let k = choose|k: int|
                    0 <= k < r.len() && valid_utf8(#[trigger] r.take(k)) && is_cut_scalar(r.skip(k));
                let w = t.take(l + k);
                lemma_first_scalar_of_prefix(s, l + k);
                assert(w =~= s.take(l + k));
                assert(pop_first_scalar(w) =~= r.take(k));
                assert(valid_utf8(w));
                assert(t.skip(l + k) =~= r.skip(k));
                assert(utf8_truncated(t));
            }
        } else {
            let u = s.subrange(n, l);
            lemma_first_scalar_of_prefix(s, l);
            assert(t + u =~= s.take(l));
            assert(t.take(0).len() == 0);
            assert(valid_utf8(t.take(0)));
            assert(t.skip(0) =~= t);
            assert(is_cut_scalar(t.skip(0)));
            assert(utf8_truncated(t));
        }
    }
}

/// Calls `cbc::Decryptor::<aes::Aes256>::decrypt_block` on one block with a
/// fresh decryptor made from `key` and `iv`. Trusted to return the AES-256
/// decryption of the block xor the vector, which is how CBC mode is defined,
/// and that AES-256 encryption of the result xor the vector gives the block
/// back (the cipher is a permutation of blocks under each key).
#[verifier::external_body]
pub(crate) fn cbc_decrypt_block(key: &[u8; 32], iv: &[u8; 16], block: &[u8; 16]) -> (out: [u8; 16])
    ensures
        out@ == xor_block(aes256_decrypt_block(key@, block@), iv@),
        fit_block(aes256_encrypt_block(key@, xor_block(out@, iv@))) == block@,
{
    let mut buf = cipher::Array::from(*block);
    cbc::Decryptor::<aes::Aes256>::new(key.into(), &(*iv).into()).decrypt_block(&mut buf);
    buf.into()
}

/// Calls `cbc::Decryptor::<aes::Aes256>::decrypt_blocks` on the blocks of
/// `data` with a fresh decryptor made from `key` and `iv`. Trusted to return
/// the CBC decryption of the blocks, chained from `iv`, and that CBC
/// encryption of the result with the same key and vector gives the blocks
/// back (AES encryption inverts AES decryption under one key).
#[verifier::external_body]
pub(crate) fn cbc_decrypt_blocks(key: &[u8; 32], iv: &[u8; 16], data: &[u8]) -> (out: Vec<u8>)
    requires
        data@.len() % 16 == 0,
    ensures
        out@ == cbc_decrypt(key@, iv@, data@),
        cbc_encrypt(key@, iv@, out@) == data@,
{
    let mut buf = data.to_vec();
    let (blocks, _) = cipher::Array::slice_as_chunks_mut(&mut buf);
    cbc::Decryptor::<aes::Aes256>::new(key.into(), &(*iv).into()).decrypt_blocks(blocks);
    buf
}

/// Calls `cbc::Encryptor::<aes::Aes256>::encrypt_padded_vec::<Pkcs7>` with a
/// fresh encryptor made from `key` and `iv`. Trusted to return the CBC
/// encryption of the PKCS#7-padded message, and that CBC decryption with the
/// same key and vector gives the padded message back (AES decryption inverts
/// AES encryption under one key).
#[verifier::external_body]
pub(crate) fn cbc_encrypt_padded(key: &[u8; 32], iv: &[u8; 16], msg: &[u8]) -> (out: Vec<u8>)
    ensures
        out@ == cbc_encrypt(key@, iv@, pkcs7_pad(msg@)),
        out@.take(16) == fit_block(aes256_encrypt_block(key@, xor_block(pkcs7_pad(msg@).take(16), iv@))),
        cbc_decrypt(key@, iv@, out@) == pkcs7_pad(msg@),
{
    cbc::Encryptor::<aes::Aes256>::new(key.into(), &(*iv).into()).encrypt_padded_vec::<Pkcs7>(msg)
}

/// Calls `block_padding::Pkcs7::unpad` (through `cipher`) on one block and
/// returns the length of the unpadded data. The crate's source checks that
/// the last byte `n` is 1 to 16 and that the `n - 1` bytes before it equal
/// `n`; the contract states exactly that.
#[verifier::external_body]
pub(crate) fn pkcs7_unpad(block: &[u8; 16]) -> (len: Option<usize>)
    ensures
        match len {
            Some(s) => pkcs7_unpadded_len(block@) == Some(s as int),
            None => pkcs7_unpadded_len(block@) is None,
        },
{
    Pkcs7::unpad(&cipher::Array::<u8, cipher::consts::U16>::from(*block)).ok().map(<[u8]>::len)
}

/// Calls `std::str::from_utf8`. Its documentation: the bytes are accepted
/// when they are valid UTF-8, and `Utf8Error::error_len` is `None` when the
/// end of the input cut off a character. Validity is vstd's `valid_utf8`.
#[verifier::external_body]
pub(crate) fn utf8_status(bytes: &[u8]) -> (status: Utf8Status)
    ensures
        status == utf8_status_of(bytes@),
{
    match std::str::from_utf8(bytes) {
        Ok(_) => Utf8Status::Valid,
        Err(error) => match error.error_len() {
            None => Utf8Status::Truncated,
            Some(_) => Utf8Status::Invalid,
        },
    }
}

} // verus!
