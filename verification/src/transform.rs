//! Recognising, decrypting and encrypting game scripts: AES-256-CBC with a
//! zero initialisation vector and PKCS#7 padding, optionally around a
//! single-file 7z archive.

use vstd::prelude::*;
use vstd::utf8::valid_utf8;
use crate::archive::{
    sevenz_copy_archive, sevenz_extract_first, sevenz_kept_data, sevenz_pack_single,
    SEVENZIP_HEADER,
};
use crate::bytes::{append_bytes, block_at, bytes_range, bytes_start_with, starts_with};
use crate::crypto::{
    aes256_decrypt_block, cbc_decrypt, cbc_decrypt_block, cbc_decrypt_blocks, cbc_encrypt,
    cbc_encrypt_padded, chain_iv, enc_chain_iv, fit_block, lemma_cbc_decrypt_append, lemma_utf8_prefix,
    lemma_cbc_decrypt_len, lemma_cbc_encrypt_append, lemma_cbc_encrypt_one_block,
    lemma_cbc_decrypt_one_block, lemma_cbc_encrypt_len, pkcs7_pad, pkcs7_unpad,
    pkcs7_unpadded_len, utf8_status, utf8_status_of, xor_block, zero_block, Utf8Status,
    aes256_encrypt_block,
};

verus! {

/// The header of a compiled Lua 5.1 chunk.
pub const LUAC_HEADER: [u8; 6] = [0x1B, 0x4C, 0x75, 0x61, 0x51, 0x00];

/// Why a script could not be transformed.
pub enum TransformError {
    /// The 7z archive does not contain any files.
    EmptyArchive,
    /// Reading or writing the 7z archive failed.
    SevenZip(sevenz_rust2::Error),
}

/// What `decrypt` found in a file.
pub enum DecryptionState {
    /// The file is not encrypted; its bytes and their number are handed back.
    Unencrypted(Vec<u8>, u64),
    /// The file was encrypted, but its plaintext is not a 7z archive although
    /// compression is on.
    Uncompressed(Vec<u8>),
    /// The file was encrypted; this is its plaintext.
    Encrypted(Vec<u8>),
}

/// The outcome of `decrypt`, over byte sequences.
pub enum DecryptOutcome {
    Unencrypted(Seq<u8>),
    Uncompressed(Seq<u8>),
    Encrypted(Seq<u8>),
    EmptyArchive,
    SevenZipFailed,
}

/// The outcome that a result of `decrypt` stands for.
pub open spec fn outcome_of(res: Result<DecryptionState, TransformError>) -> DecryptOutcome {
    match res {
        Ok(DecryptionState::Unencrypted(data, _)) => DecryptOutcome::Unencrypted(data@),
        Ok(DecryptionState::Uncompressed(data)) => DecryptOutcome::Uncompressed(data@),
        Ok(DecryptionState::Encrypted(data)) => DecryptOutcome::Encrypted(data@),
        Err(TransformError::EmptyArchive) => DecryptOutcome::EmptyArchive,
        Err(TransformError::SevenZip(_)) => DecryptOutcome::SevenZipFailed,
    }
}

/// The first decrypted block can start a script: it opens with the 7z
/// signature or the compiled-Lua header, or it is UTF-8 text, where a last
/// character cut off by the block's end is allowed when the plaintext goes
/// on past the first block.
pub open spec fn plausible_plaintext(first: Seq<u8>, plain_len: int) -> bool {
    ||| starts_with(first, SEVENZIP_HEADER@)
    ||| starts_with(first, LUAC_HEADER@)
    ||| utf8_status_of(first) == Utf8Status::Valid
    ||| (plain_len > 16 && utf8_status_of(first) == Utf8Status::Truncated)
}

/// What is done with a decrypted plaintext: without compression it is the
/// script; with compression, a plaintext that is no 7z archive is reported as
/// such, and an archive gives the data that reading it keeps (see
/// `sevenz_kept_data`).
pub open spec fn unpack_spec(plain: Seq<u8>, compression: bool) -> DecryptOutcome {
    if !compression {
        DecryptOutcome::Encrypted(plain)
    } else if !starts_with(plain, SEVENZIP_HEADER@) {
        DecryptOutcome::Uncompressed(plain)
    } else {
        match sevenz_kept_data(plain) {
            None => DecryptOutcome::SevenZipFailed,
            Some(None) => DecryptOutcome::EmptyArchive,
            Some(Some(file)) => DecryptOutcome::Encrypted(file),
        }
    }
}

/// The file is a script as the game has them: UTF-8 text, a compiled Lua
/// chunk, or a 7z archive.
pub open spec fn is_script(data: Seq<u8>) -> bool {
    ||| valid_utf8(data)
    ||| starts_with(data, LUAC_HEADER@)
    ||| starts_with(data, SEVENZIP_HEADER@)
}

/// The smaller of `a` and `b`.
pub open spec fn min_int(a: int, b: int) -> int {
    if a < b {
        a
    } else {
        b
    }
}

/// What `decrypt` makes of the file `data` under `key`. A file counts as
/// encrypted when it is a non-empty run of whole blocks whose CBC decryption
/// (zero vector) ends in valid PKCS#7 padding and whose plaintext is empty or
/// starts plausibly; any other file is unencrypted.
pub open spec fn decrypt_spec(key: Seq<u8>, data: Seq<u8>, compression: bool) -> DecryptOutcome {
    let len = data.len() as int;
    if len == 0 || len % 16 != 0 {
        DecryptOutcome::Unencrypted(data)
    } else {
        let plain = cbc_decrypt(key, zero_block(), data);
        match pkcs7_unpadded_len(plain.subrange(len - 16, len)) {
            None => DecryptOutcome::Unencrypted(data),
            Some(kept) => {
                let n = len - 16 + kept;
                if n == 0 {
                    DecryptOutcome::Encrypted(Seq::empty())
                } else if !plausible_plaintext(plain.take(min_int(n, 16)), n) {
                    DecryptOutcome::Unencrypted(data)
                } else {
                    unpack_spec(plain.take(n), compression)
                }
            }
        }
    }
}

/// The plaintext of the file `data` when `decrypt` counts it as encrypted
/// (see `decrypt_spec`), before any 7z unpacking; `None` otherwise.
pub open spec fn file_plaintext(key: Seq<u8>, data: Seq<u8>) -> Option<Seq<u8>> {
    let len = data.len() as int;
    if len == 0 || len % 16 != 0 {
        None
    } else {
        let plain = cbc_decrypt(key, zero_block(), data);
        match pkcs7_unpadded_len(plain.subrange(len - 16, len)) {
            None => None,
            Some(kept) => {
                let n = len - 16 + kept;
                if n == 0 || plausible_plaintext(plain.take(min_int(n, 16)), n) {
                    Some(plain.take(n))
                } else {
                    None
                }
            },
        }
    }
}

/// A block whose PKCS#7 padding is valid ends a padded message: padding what
/// it keeps gives the whole back.
proof fn lemma_unpad_pad(plain: Seq<u8>, kept: int)
    requires
        plain.len() >= 16,
        plain.len() % 16 == 0,
        pkcs7_unpadded_len(plain.subrange(plain.len() - 16, plain.len() as int)) == Some(kept),
    ensures
        pkcs7_pad(plain.take(plain.len() - 16 + kept)) == plain,
{
    let len = plain.len() as int;
    let last = plain.subrange(len - 16, len);
    let n = len - 16 + kept;
    let m = plain.take(n);
    let pad = 16 - kept;
    assert(last[15] == pad);
    assert(16 - m.len() % 16 == pad);
    let padded = pkcs7_pad(m);
    assert forall|i: int| 0 <= i < len implies padded[i] == plain[i] by {
        if i >= n {
            let j = i - (len - 16);
            assert(last[j] == plain[i]);
            if j < 15 {
                assert(last[j] == pad);
            }
        }
    }
    assert(padded =~= plain);
}

/// Encrypting the decrypted pieces of a file of more than one block gives
/// the file back, given that each piece re-encrypts to its ciphertext.
proof fn lemma_reencrypt_pieces(
    key: Seq<u8>,
    data: Seq<u8>,
    first: Seq<u8>,
    middle: Seq<u8>,
    last_plain: Seq<u8>,
)
    requires
        data.len() > 16,
        data.len() % 16 == 0,
        first.len() == 16,
        middle.len() == data.len() - 32,
        last_plain.len() == 16,
        fit_block(aes256_encrypt_block(key, xor_block(first, zero_block()))) == data.take(16),
        cbc_encrypt(key, data.take(16), middle) == data.subrange(16, data.len() - 16),
        fit_block(aes256_encrypt_block(key, xor_block(last_plain, prev_block(data))))
            == data.subrange(data.len() - 16, data.len() as int),
    ensures
        cbc_encrypt(key, zero_block(), first + middle + last_plain) == data,
{
    let len = data.len() as int;
    let f = data.take(16);
    let whole = first + middle + last_plain;
    assert(whole.take(16) =~= first);
    assert(whole.skip(16) =~= middle + last_plain);
    assert(cbc_encrypt(key, zero_block(), whole) == f + cbc_encrypt(key, f, middle + last_plain));
    lemma_cbc_encrypt_append(key, f, middle, last_plain);
    lemma_cbc_encrypt_len(key, f, middle);
    let chain = enc_chain_iv(key, f, middle);
    if middle.len() == 0 {
        assert(data.subrange(len - 32, len - 16) =~= f);
    } else {
        let c = cbc_encrypt(key, f, middle);
        assert(c.subrange(c.len() - 16, c.len() as int) =~= data.subrange(len - 32, len - 16));
    }
    assert(chain == prev_block(data));
    lemma_cbc_encrypt_one_block(key, chain, last_plain);
    assert(data =~= f + data.subrange(16, len - 16) + data.subrange(len - 16, len));
    assert(cbc_encrypt(key, zero_block(), whole) =~= data);
}

/// Without compression, a file that `decrypt` finds encrypted has the
/// plaintext it gives back.
pub proof fn lemma_encrypted_outcome_plaintext(key: Seq<u8>, data: Seq<u8>, plain: Seq<u8>)
    requires
        decrypt_spec(key, data, false) == DecryptOutcome::Encrypted(plain),
    ensures
        file_plaintext(key, data) == Some(plain),
{
    let len = data.len() as int;
    if len > 0 && len % 16 == 0 {
        lemma_plain_pieces(key, data);
        let p = cbc_decrypt(key, zero_block(), data);
        if let Some(kept) = pkcs7_unpadded_len(p.subrange(len - 16, len)) {
            if len - 16 + kept == 0 {
                assert(p.take(0) =~= Seq::<u8>::empty());
            }
        }
    }
}

/// The block that the last ciphertext block of `data` is chained to.
pub open spec fn prev_block(data: Seq<u8>) -> Seq<u8> {
    if data.len() > 16 {
        data.subrange(data.len() - 32, data.len() - 16)
    } else {
        zero_block()
    }
}

/// How the CBC plaintext of a file splits into its first block, the blocks
/// in between and its last block.
proof fn lemma_plain_pieces(key: Seq<u8>, data: Seq<u8>)
    requires
        data.len() >= 16,
        data.len() % 16 == 0,
    ensures
        ({
            let len = data.len() as int;
            let plain = cbc_decrypt(key, zero_block(), data);
            &&& plain.len() == len
            &&& plain.subrange(len - 16, len) == xor_block(
                aes256_decrypt_block(key, data.subrange(len - 16, len)),
                prev_block(data),
            )
            &&& len > 16 ==> plain.take(16) == xor_block(
                aes256_decrypt_block(key, data.take(16)),
                zero_block(),
            )
            &&& len > 16 ==> plain.subrange(16, len - 16) == cbc_decrypt(
                key,
                data.take(16),
                data.subrange(16, len - 16),
            )
        }),
{
    let len = data.len() as int;
    let z = zero_block();
    let a = data.take(len - 16);
    let b = data.skip(len - 16);
    assert(data =~= a + b);
    lemma_cbc_decrypt_append(key, z, a, b);
    lemma_cbc_decrypt_len(key, z, a);
    lemma_cbc_decrypt_one_block(key, chain_iv(z, a), b);
    assert(b =~= data.subrange(len - 16, len));
    assert(chain_iv(z, a) =~= prev_block(data));
    let plain = cbc_decrypt(key, z, data);
    assert(plain.subrange(len - 16, len) =~= cbc_decrypt(key, chain_iv(z, a), b));
    if len > 16 {
        let f = data.take(16);
        let m = data.subrange(16, len - 16);
        assert(a =~= f + m);
        lemma_cbc_decrypt_append(key, z, f, m);
        lemma_cbc_decrypt_one_block(key, z, f);
        assert(chain_iv(z, f) =~= f);
        assert(plain.take(16) =~= cbc_decrypt(key, z, f));
        lemma_cbc_decrypt_len(key, f, m);
        assert(plain.subrange(16, len - 16) =~= cbc_decrypt(key, f, m));
    }
}

/// Whether the first decrypted block can start a script.
pub fn plausible_first_block(first: &[u8], plain_len: usize) -> (res: bool)
    ensures
        res == plausible_plaintext(first@, plain_len as int),
{
    if bytes_start_with(first, &SEVENZIP_HEADER) || bytes_start_with(first, &LUAC_HEADER) {
        return true;
    }
    match utf8_status(first) {
        Utf8Status::Valid => true,
        Utf8Status::Truncated => plain_len > 16,
        Utf8Status::Invalid => false,
    }
}

/// The outcome for a decrypted plaintext.
fn unpack(plain: Vec<u8>, compression: bool) -> (res: Result<DecryptionState, TransformError>)
    ensures
        outcome_of(res) == unpack_spec(plain@, compression),
{
    if !compression {
        Ok(DecryptionState::Encrypted(plain))
    } else if !bytes_start_with(&plain, &SEVENZIP_HEADER) {
        Ok(DecryptionState::Uncompressed(plain))
    } else {
        match sevenz_extract_first(plain) {
            Ok(Some(file)) => Ok(DecryptionState::Encrypted(file)),
            Ok(None) => Err(TransformError::EmptyArchive),
            Err(error) => Err(TransformError::SevenZip(error)),
        }
    }
}

/// Decides whether the file `data` is encrypted under `key` and, when it is,
/// decrypts it (and, with `compression`, unpacks the 7z archive inside). The
/// padding and the first block are checked before the whole file is
/// decrypted, since random data may end in valid padding.
pub fn decrypt(data: Vec<u8>, key: &[u8; 32], compression: bool) -> (res: Result<
    DecryptionState,
    TransformError,
>)
    ensures
        outcome_of(res) == decrypt_spec(key@, data@, compression),
        res matches Ok(DecryptionState::Unencrypted(d, n)) ==> n == d@.len(),
        res matches Ok(DecryptionState::Unencrypted(d, n)) ==> d@ == data@ && n == data@.len(),
        file_plaintext(key@, data@) matches Some(plain) ==> data@ == cbc_encrypt(
            key@,
            zero_block(),
            pkcs7_pad(plain),
        ),
{
    let len = data.len();
    if len == 0 || len % 16 != 0 {
        return Ok(DecryptionState::Unencrypted(data, len as u64));
    }
    proof {
        lemma_plain_pieces(key@, data@);
    }
    let ghost plain = cbc_decrypt(key@, zero_block(), data@);
    let zero = [0u8; 16];
    assert(zero@ =~= zero_block());
    let prev = if len > 16 {
        block_at(&data, len - 32)
    } else {
        zero
    };
    assert(prev@ == prev_block(data@));
    let last = block_at(&data, len - 16);
    let padding_block = cbc_decrypt_block(key, &prev, &last);
    assert(padding_block@ == plain.subrange(len - 16, len as int));
    let kept = match pkcs7_unpad(&padding_block) {
        Some(kept) => kept,
        None => return Ok(DecryptionState::Unencrypted(data, len as u64)),
    };
    let actual_len = len - (16 - kept);
    if actual_len == 0 {
        proof {
            lemma_unpad_pad(plain, kept as int);
            assert(plain =~= padding_block@);
            lemma_cbc_encrypt_one_block(key@, zero_block(), padding_block@);
            assert(last@ =~= data@);
        }
        return Ok(DecryptionState::Encrypted(Vec::new()));
    }
    let first_block = if len > 16 {
        let head = block_at(&data, 0);
        assert(head@ =~= data@.take(16));
        cbc_decrypt_block(key, &zero, &head)
    } else {
        padding_block
    };
    assert(len > 16 ==> fit_block(aes256_encrypt_block(key@, xor_block(first_block@, zero_block())))
        == data@.take(16));
    assert(first_block@ =~= plain.take(16));
    let first_len = if actual_len < 16 {
        actual_len
    } else {
        16
    };
    let mut buf = bytes_range(&first_block, 0, first_len);
    assert(buf@ =~= plain.take(first_len as int));
    if !plausible_first_block(&buf, actual_len) {
        return Ok(DecryptionState::Unencrypted(data, len as u64));
    }
    if len > 16 {
        let iv = block_at(&data, 0);
        assert(iv@ =~= data@.take(16));
        let middle_ct = bytes_range(&data, 16, len - 16);
        let middle = cbc_decrypt_blocks(key, &iv, &middle_ct);
        proof {
            lemma_cbc_decrypt_len(key@, iv@, middle_ct@);
            assert(plain =~= first_block@ + middle@ + padding_block@);
            lemma_reencrypt_pieces(key@, data@, first_block@, middle@, padding_block@);
        }
        append_bytes(&mut buf, &middle);
        let tail = bytes_range(&padding_block, 0, kept);
        append_bytes(&mut buf, &tail);
        assert(buf@ =~= plain.take(actual_len as int));
    } else {
        proof {
            assert(plain =~= padding_block@);
            lemma_cbc_encrypt_one_block(key@, zero_block(), padding_block@);
            assert(last@ =~= data@);
        }
    }
    proof {
        lemma_unpad_pad(plain, kept as int);
    }
    assert(buf@ =~= plain.take(actual_len as int));
    unpack(buf, compression)
}


/// The bytes that `encrypt` encrypts: the input itself, or with compression
/// the single-file 7z archive of it.
pub open spec fn encrypted_payload(input: Seq<u8>, name: Seq<u8>, compression: bool) -> Seq<u8> {
    if compression {
        sevenz_copy_archive(name, input)
    } else {
        input
    }
}

/// `out` is the ciphertext that `encrypt` returns for `input`: the CBC
/// encryption (zero vector) of the padded payload, whose CBC decryption
/// under the same key gives the padded payload back; with compression the
/// payload is an archive that starts with the 7z signature and that reads
/// back as `input`.
pub open spec fn encrypt_result_ok(
    key: Seq<u8>,
    input: Seq<u8>,
    name: Seq<u8>,
    compression: bool,
    out: Seq<u8>,
) -> bool {
    let payload = encrypted_payload(input, name, compression);
    &&& out == cbc_encrypt(key, zero_block(), pkcs7_pad(payload))
    &&& cbc_decrypt(key, zero_block(), out) == pkcs7_pad(payload)
    &&& compression ==> {
        &&& payload.len() >= 32
        &&& payload.take(6) == SEVENZIP_HEADER@
        &&& sevenz_kept_data(payload) == Some(Some(input))
    }
}

/// Encrypts a script with `key`: with `compression` the script is first put
/// into a single-file 7z archive whose entry is named `name`; the bytes are
/// padded with PKCS#7 and encrypted with AES-256-CBC under a zero vector.
/// Writing the archive into memory does not fail, so neither does this.
pub fn encrypt(input: &[u8], name: &[u8], key: &[u8; 32], compression: bool) -> (res: Result<
    Vec<u8>,
    TransformError,
>)
    ensures
        res matches Ok(out) && encrypt_result_ok(key@, input@, name@, compression, out@),
{
    let zero = [0u8; 16];
    assert(zero@ =~= zero_block());
    if compression {
        match sevenz_pack_single(name, input) {
            Ok(archive) => Ok(cbc_encrypt_padded(key, &zero, &archive)),
            Err(error) => Err(TransformError::SevenZip(error)),
        }
    } else {
        Ok(cbc_encrypt_padded(key, &zero, input))
    }
}

/// A file that `decrypt` does not find encrypted is handed back whole:
/// whatever the key and the compression setting, an unencrypted outcome
/// holds exactly the file's bytes.
pub proof fn law_unencrypted_is_unchanged(key: Seq<u8>, data: Seq<u8>, compression: bool)
    ensures
        decrypt_spec(key, data, compression) matches DecryptOutcome::Unencrypted(d) ==> d == data,
{
}

/// Only compression makes a plaintext count as no archive: without it a
/// decrypted file is never reported as uncompressed.
pub proof fn lemma_uncompressed_needs_compression(key: Seq<u8>, data: Seq<u8>)
    ensures
        !(decrypt_spec(key, data, false) is Uncompressed),
{
}

/// A script starts plausibly: its first block (or the whole of a shorter
/// script) passes the check that `decrypt` makes on a first block. A cut
/// off last character is only met when the script goes on past the block.
pub proof fn lemma_script_start_plausible(data: Seq<u8>)
    requires
        is_script(data),
    ensures
        data.len() == 0 || plausible_plaintext(
            data.take(min_int(data.len() as int, 16)),
            data.len() as int,
        ),
{
    let n = min_int(data.len() as int, 16);
    let first = data.take(n);
    if starts_with(data, LUAC_HEADER@) {
        assert(first.take(6) =~= data.take(6));
    } else if starts_with(data, SEVENZIP_HEADER@) {
        assert(first.take(6) =~= data.take(6));
    } else if data.len() > 0 {
        lemma_utf8_prefix(data, n);
        if data.len() <= 16 {
            assert(first =~= data);
        }
    }
}

/// The padded payload is a non-empty run of whole blocks whose last block
/// carries valid padding that keeps exactly the payload's bytes.
proof fn lemma_pad_unpad(payload: Seq<u8>)
    ensures
        ({
            let padded = pkcs7_pad(payload);
            let len = padded.len() as int;
            &&& len >= 16
            &&& len % 16 == 0
            &&& padded.take(payload.len() as int) == payload
            &&& pkcs7_unpadded_len(padded.subrange(len - 16, len)) == Some(
                16 - (len - payload.len()),
            )
        }),
{
    let padded = pkcs7_pad(payload);
    let len = padded.len() as int;
    let n = 16 - payload.len() % 16;
    assert(len == payload.len() + n);
    assert(len % 16 == 0);
    assert(padded.take(payload.len() as int) =~= payload);
    let last = padded.subrange(len - 16, len);
    assert(last[15] == n as u8);
    assert forall|i: int| 16 - n <= i < 15 implies last[i] == n as u8 by {
        assert(last[i] == padded[len - 16 + i]);
    }
    assert(pkcs7_unpadded_len(last) == Some(16 - n));
}

/// Decryption undoes encryption: a ciphertext that `encrypt` returns for a
/// script without compression is found encrypted by `decrypt`, which gives
/// the script back, when the script is empty or starts as a script may
/// (see `plausible_plaintext`).
pub proof fn law_decrypt_inverts_encrypt(key: Seq<u8>, input: Seq<u8>, name: Seq<u8>, out: Seq<u8>)
    requires
        encrypt_result_ok(key, input, name, false, out),
        input.len() == 0 || plausible_plaintext(
            input.take(min_int(input.len() as int, 16)),
            input.len() as int,
        ),
    ensures
        decrypt_spec(key, out, false) == DecryptOutcome::Encrypted(input),
{
    lemma_decrypt_of_padded(key, input, out);
}

/// A script of any kind (UTF-8 text, compiled Lua or a 7z archive)
/// encrypted without compression is decrypted back to itself.
pub proof fn law_script_round_trip(key: Seq<u8>, input: Seq<u8>, name: Seq<u8>, out: Seq<u8>)
    requires
        encrypt_result_ok(key, input, name, false, out),
        is_script(input),
    ensures
        decrypt_spec(key, out, false) == DecryptOutcome::Encrypted(input),
{
    lemma_script_start_plausible(input);
    lemma_decrypt_of_padded(key, input, out);
}

/// A script encrypted without compression and met with compression on is
/// handed back as a plaintext that is no archive, to be encrypted again,
/// when it is a non-empty script that is not itself a 7z archive.
pub proof fn law_uncompressed_script_met_with_compression(
    key: Seq<u8>,
    input: Seq<u8>,
    name: Seq<u8>,
    out: Seq<u8>,
)
    requires
        encrypt_result_ok(key, input, name, false, out),
        is_script(input),
        input.len() > 0,
        !starts_with(input, SEVENZIP_HEADER@),
    ensures
        decrypt_spec(key, out, true) == DecryptOutcome::Uncompressed(input),
{
    lemma_script_start_plausible(input);
    lemma_decrypt_of_padded(key, input, out);
    assert(decrypt_spec(key, out, true) == unpack_spec(input, true));
}

/// Decryption undoes compressed encryption: a ciphertext that `encrypt`
/// returns for a script with compression is found encrypted by `decrypt`
/// with compression, which unpacks the archive and gives the script back.
pub proof fn law_decrypt_inverts_compressed_encrypt(
    key: Seq<u8>,
    input: Seq<u8>,
    name: Seq<u8>,
    out: Seq<u8>,
)
    requires
        encrypt_result_ok(key, input, name, true, out),
    ensures
        decrypt_spec(key, out, true) == DecryptOutcome::Encrypted(input),
{
    let archive = sevenz_copy_archive(name, input);
    assert(archive.take(16).take(6) =~= archive.take(6));
    lemma_decrypt_of_padded(key, archive, out);
}

/// Encryption undoes decryption: for a file that `decrypt` (without
/// compression) finds encrypted, and so re-encrypts to the file as its
/// contract states, the ciphertext `encrypt` returns for the plaintext
/// (without compression) is the file itself.
pub proof fn law_encrypt_inverts_decrypt(
    key: Seq<u8>,
    data: Seq<u8>,
    plain: Seq<u8>,
    name: Seq<u8>,
    out: Seq<u8>,
)
    requires
        decrypt_spec(key, data, false) == DecryptOutcome::Encrypted(plain),
        file_plaintext(key, data) matches Some(p) ==> data == cbc_encrypt(
            key,
            zero_block(),
            pkcs7_pad(p),
        ),
        encrypt_result_ok(key, plain, name, false, out),
    ensures
        out == data,
{
    lemma_encrypted_outcome_plaintext(key, data, plain);
}

/// What `decrypt` makes of a ciphertext of a padded payload.
proof fn lemma_decrypt_of_padded(key: Seq<u8>, payload: Seq<u8>, out: Seq<u8>)
    requires
        out == cbc_encrypt(key, zero_block(), pkcs7_pad(payload)),
        cbc_decrypt(key, zero_block(), out) == pkcs7_pad(payload),
    ensures
        payload.len() == 0 ==> decrypt_spec(key, out, false) == DecryptOutcome::Encrypted(payload)
            && decrypt_spec(key, out, true) == DecryptOutcome::Encrypted(payload),
        payload.len() > 0 && plausible_plaintext(
            payload.take(min_int(payload.len() as int, 16)),
            payload.len() as int,
        ) ==> forall|c: bool| #[trigger]
            decrypt_spec(key, out, c) == unpack_spec(payload, c),
        payload.len() > 0 && !plausible_plaintext(
            payload.take(min_int(payload.len() as int, 16)),
            payload.len() as int,
        ) ==> forall|c: bool| #[trigger]
            decrypt_spec(key, out, c) == DecryptOutcome::Unencrypted(out),
{
    lemma_pad_unpad(payload);
    let padded = pkcs7_pad(payload);
    lemma_cbc_encrypt_len(key, zero_block(), padded);
    let len = out.len() as int;
    assert(len == padded.len());
    let n = len - 16 + (16 - (len - payload.len()));
    assert(n == payload.len());
    assert(padded.take(n) =~= payload);
    assert(padded.take(min_int(n, 16)) =~= payload.take(min_int(payload.len() as int, 16)));
    if payload.len() == 0 {
        assert(payload =~= Seq::<u8>::empty());
    }
}

} // verus!
