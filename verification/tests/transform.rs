use std::io::Cursor;

use autoenc::transform::{decrypt, encrypt, DecryptionState, TransformError};

fn key() -> [u8; 32] {
    let mut key = [0u8; 32];
    for (i, b) in key.iter_mut().enumerate() {
        *b = i as u8;
    }
    key
}

fn other_key() -> [u8; 32] {
    [0x5Au8; 32]
}

fn expect_encrypted(res: Result<DecryptionState, TransformError>) -> Vec<u8> {
    match res {
        Ok(DecryptionState::Encrypted(data)) => data,
        Ok(DecryptionState::Unencrypted(_, _)) => panic!("found unencrypted"),
        Ok(DecryptionState::Uncompressed(_)) => panic!("found uncompressed"),
        Err(_) => panic!("error"),
    }
}

fn expect_unencrypted(res: Result<DecryptionState, TransformError>) -> (Vec<u8>, u64) {
    match res {
        Ok(DecryptionState::Unencrypted(data, len)) => (data, len),
        Ok(DecryptionState::Encrypted(_)) => panic!("found encrypted"),
        Ok(DecryptionState::Uncompressed(_)) => panic!("found uncompressed"),
        Err(_) => panic!("error"),
    }
}

#[test]
fn round_trip_plain_text() {
    let script = b"print(\"hello from a level script\")\nreturn 42\n".to_vec();
    let ct = encrypt(&script, b"scripts/a.lua", &key(), false).ok().unwrap();
    assert_eq!(ct.len() % 16, 0);
    assert!(ct.len() > script.len());
    assert_ne!(&ct[..16], &script[..16]);
    let plain = expect_encrypted(decrypt(ct, &key(), false));
    assert_eq!(plain, script);
}

#[test]
fn round_trip_exact_block_multiple() {
    let script = b"0123456789abcdef0123456789abcdef".to_vec();
    let ct = encrypt(&script, b"x.lua", &key(), false).ok().unwrap();
    assert_eq!(ct.len(), 48);
    assert_eq!(expect_encrypted(decrypt(ct, &key(), false)), script);
}

#[test]
fn round_trip_short_text() {
    let script = b"x=1".to_vec();
    let ct = encrypt(&script, b"x.lua", &key(), false).ok().unwrap();
    assert_eq!(ct.len(), 16);
    assert_eq!(expect_encrypted(decrypt(ct, &key(), false)), script);
}

#[test]
fn round_trip_empty_script() {
    let ct = encrypt(&[], b"empty.lua", &key(), false).ok().unwrap();
    assert_eq!(ct.len(), 16);
    assert_eq!(expect_encrypted(decrypt(ct.clone(), &key(), false)), Vec::<u8>::new());
    // An empty plaintext is reported as decrypted even with compression on.
    assert_eq!(expect_encrypted(decrypt(ct, &key(), true)), Vec::<u8>::new());
}

#[test]
fn round_trip_compiled_lua() {
    let mut script = vec![0x1B, 0x4C, 0x75, 0x61, 0x51, 0x00];
    script.extend((0u8..=255).collect::<Vec<u8>>());
    let ct = encrypt(&script, b"compiled.lua", &key(), false).ok().unwrap();
    assert_eq!(expect_encrypted(decrypt(ct, &key(), false)), script);
}

#[test]
fn round_trip_compressed() {
    let script = b"levels = { 'a', 'b', 'c' }\n".repeat(20);
    let ct = encrypt(&script, b"data/levels.lua", &key(), true).ok().unwrap();
    assert_eq!(expect_encrypted(decrypt(ct, &key(), true)), script);
}

#[test]
fn compressed_plaintext_is_the_archive_without_compression() {
    let script = b"return 1\n".to_vec();
    let ct = encrypt(&script, b"a.lua", &key(), true).ok().unwrap();
    let archive = expect_encrypted(decrypt(ct, &key(), false));
    assert_eq!(&archive[..6], &[0x37, 0x7A, 0xBC, 0xAF, 0x27, 0x1C]);
    assert!(archive.len() >= 32);
}

#[test]
fn uncompressed_plaintext_with_compression_on() {
    let script = b"return 'not an archive'\n".to_vec();
    let ct = encrypt(&script, b"a.lua", &key(), false).ok().unwrap();
    match decrypt(ct, &key(), true) {
        Ok(DecryptionState::Uncompressed(data)) => assert_eq!(data, script),
        _ => panic!("expected an uncompressed plaintext"),
    }
}

#[test]
fn aes256_known_answer_first_block() {
    // FIPS-197 appendix C.3: AES-256 with key 00..1f on 00112233..ff.
    // With a zero vector the first CBC block is the block cipher's output.
    let plain: Vec<u8> = vec![
        0x00, 0x11, 0x22, 0x33, 0x44, 0x55, 0x66, 0x77, 0x88, 0x99, 0xaa, 0xbb, 0xcc, 0xdd, 0xee,
        0xff,
    ];
    let expected: [u8; 16] = [
        0x8e, 0xa2, 0xb7, 0xca, 0x51, 0x67, 0x45, 0xbf, 0xea, 0xfc, 0x49, 0x90, 0x4b, 0x49, 0x60,
        0x89,
    ];
    let ct = encrypt(&plain, b"k.lua", &key(), false).ok().unwrap();
    assert_eq!(ct.len(), 32);
    assert_eq!(&ct[..16], &expected);
}

#[test]
fn misaligned_file_is_unencrypted() {
    let data = b"-- a plain lua script\nprint(1)\n".to_vec();
    let (back, len) = expect_unencrypted(decrypt(data.clone(), &key(), false));
    assert_eq!(back, data);
    assert_eq!(len, data.len() as u64);
}

#[test]
fn empty_file_is_unencrypted() {
    let (back, len) = expect_unencrypted(decrypt(Vec::new(), &key(), false));
    assert!(back.is_empty());
    assert_eq!(len, 0);
}

#[test]
fn binary_plaintext_is_not_recognised() {
    // Encrypted, but its first block is neither a known header nor UTF-8.
    let script = vec![0xFFu8; 20];
    let ct = encrypt(&script, b"bin.lua", &key(), false).ok().unwrap();
    let (back, len) = expect_unencrypted(decrypt(ct.clone(), &key(), false));
    assert_eq!(back, ct);
    assert_eq!(len, ct.len() as u64);
}

#[test]
fn character_cut_by_first_block_is_accepted_when_text_goes_on() {
    // 15 ASCII bytes, then the two bytes of 'é': the first block ends inside it.
    let mut script = b"abcdefghijklmno".to_vec();
    script.extend_from_slice(&[0xC3, 0xA9]);
    script.extend_from_slice(b" more text");
    let ct = encrypt(&script, b"t.lua", &key(), false).ok().unwrap();
    assert_eq!(expect_encrypted(decrypt(ct, &key(), false)), script);
}

#[test]
fn character_cut_at_end_of_short_text_is_rejected() {
    // 15 ASCII bytes and the first byte of a two-byte character: 16 bytes in
    // all, so the cut character is the end of the text.
    let mut script = b"abcdefghijklmno".to_vec();
    script.push(0xC3);
    let ct = encrypt(&script, b"t.lua", &key(), false).ok().unwrap();
    let (back, _) = expect_unencrypted(decrypt(ct.clone(), &key(), false));
    assert_eq!(back, ct);
}

#[test]
fn ciphertext_of_other_key_with_odd_length_stays_unencrypted() {
    let data = vec![7u8; 33];
    let (back, _) = expect_unencrypted(decrypt(data.clone(), &other_key(), false));
    assert_eq!(back, data);
}

#[test]
fn archive_without_files_is_an_error() {
    let mut writer = sevenz_rust2::ArchiveWriter::new(Cursor::new(Vec::new())).unwrap();
    writer
        .push_archive_entry(sevenz_rust2::ArchiveEntry::new_directory("dir"), None::<&[u8]>)
        .unwrap();
    let archive = writer.finish().unwrap().into_inner();
    let ct = encrypt(&archive, b"dir.lua", &key(), false).ok().unwrap();
    assert!(matches!(decrypt(ct, &key(), true), Err(TransformError::EmptyArchive)));
}

#[test]
fn broken_archive_is_an_error() {
    // The 7z signature, version 0.4, a start-header checksum that does not
    // match the start header that follows.
    let mut script = vec![0x37, 0x7A, 0xBC, 0xAF, 0x27, 0x1C, 0x00, 0x04, 0xEF, 0xBE, 0xAD, 0xDE];
    script.extend_from_slice(&[1u8; 40]);
    let ct = encrypt(&script, b"broken.lua", &key(), false).ok().unwrap();
    assert!(matches!(decrypt(ct, &key(), true), Err(TransformError::SevenZip(_))));
}

#[test]
fn round_trip_compressed_empty_script() {
    let ct = encrypt(&[], b"empty.lua", &key(), true).ok().unwrap();
    assert_eq!(expect_encrypted(decrypt(ct, &key(), true)), Vec::<u8>::new());
}

#[test]
fn round_trip_compressed_binary_with_odd_name() {
    let script: Vec<u8> = (0..5000u32).map(|i| (i * 7 % 251) as u8).collect();
    let ct = encrypt(&script, &[0x61, 0xFF, 0x2F, 0x62], &key(), true).ok().unwrap();
    assert_eq!(expect_encrypted(decrypt(ct, &key(), true)), script);
}

#[test]
fn reencrypting_a_decrypted_file_gives_its_bytes() {
    let script = b"-- level data\nreturn { 1, 2, 3 }\n".to_vec();
    let ct = encrypt(&script, b"l.lua", &key(), false).ok().unwrap();
    let plain = expect_encrypted(decrypt(ct.clone(), &key(), false));
    let again = encrypt(&plain, b"other name", &key(), false).ok().unwrap();
    assert_eq!(again, ct);
}

#[test]
fn compiled_lua_met_with_compression_on_is_uncompressed() {
    let mut script = vec![0x1B, 0x4C, 0x75, 0x61, 0x51, 0x00];
    script.extend_from_slice(&[0x80, 0xFF, 0x00, 0x10]);
    let ct = encrypt(&script, b"c.lua", &key(), false).ok().unwrap();
    match decrypt(ct, &key(), true) {
        Ok(DecryptionState::Uncompressed(data)) => assert_eq!(data, script),
        _ => panic!("expected an uncompressed plaintext"),
    }
}

#[test]
fn seven_zip_script_round_trips_without_compression() {
    let mut script = vec![0x37, 0x7A, 0xBC, 0xAF, 0x27, 0x1C];
    script.extend_from_slice(&[0xFE; 30]);
    let ct = encrypt(&script, b"z.lua", &key(), false).ok().unwrap();
    assert_eq!(expect_encrypted(decrypt(ct, &key(), false)), script);
}

#[test]
fn multibyte_text_round_trips_with_and_without_compression() {
    // Four-byte characters that the first block's end cuts through.
    let script = "-- 🐦🐦🐦🐦🐦 birds\nreturn 1\n".as_bytes().to_vec();
    let ct = encrypt(&script, b"m.lua", &key(), false).ok().unwrap();
    assert_eq!(expect_encrypted(decrypt(ct, &key(), false)), script);
    let ct = encrypt(&script, b"m.lua", &key(), true).ok().unwrap();
    assert_eq!(expect_encrypted(decrypt(ct, &key(), true)), script);
}

#[test]
fn encryption_never_fails() {
    let script = b"x".to_vec();
    assert!(encrypt(&script, b"", &key(), true).is_ok());
    assert!(encrypt(&script, b"", &key(), false).is_ok());
}
