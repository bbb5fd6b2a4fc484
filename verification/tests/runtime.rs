use std::io::Cursor;

use autoenc::cache::Cache;
use autoenc::config::{Cache as CacheConfig, Compression, Config, Logging};
use autoenc::path::{PathComponent, ScriptPath};
use autoenc::runtime::{
    level_header_bytes, slashed_bytes, FileMeta, FileRouting, HandleState, InitError, PathText,
    Reply, Request, RouteMode, Runtime,
};
use autoenc::transform::{decrypt, encrypt, DecryptionState};

const KEY: &str = "0123456789abcdef0123456789ABCDEF";

fn part(p: &str) -> PathComponent {
    match p {
        "." => PathComponent::CurDir,
        ".." => PathComponent::ParentDir,
        _ => PathComponent::Normal(p.as_bytes().to_vec()),
    }
}

fn rel(parts: &[&str]) -> ScriptPath {
    ScriptPath { components: parts.iter().map(|p| part(p)).collect() }
}

fn abs(parts: &[&str]) -> ScriptPath {
    let mut components = vec![PathComponent::Prefix(b"C:".to_vec(), false), PathComponent::RootDir];
    components.extend(parts.iter().map(|p| part(p)));
    ScriptPath { components }
}

/// The text of a path as Windows writes it, and of each rest of it.
fn text_of(path: &ScriptPath) -> PathText {
    let piece = |c: &PathComponent| -> Vec<u8> {
        match c {
            PathComponent::Prefix(t, _) => t.clone(),
            PathComponent::RootDir => b"\\".to_vec(),
            PathComponent::CurDir => b".".to_vec(),
            PathComponent::ParentDir => b"..".to_vec(),
            PathComponent::Normal(n) => n.clone(),
        }
    };
    let render = |comps: &[PathComponent]| -> Vec<u8> {
        let mut out = Vec::new();
        for (i, c) in comps.iter().enumerate() {
            if i > 0 {
                let previous = &comps[i - 1];
                if !matches!(previous, PathComponent::Prefix(_, _) | PathComponent::RootDir) {
                    out.push(b'\\');
                }
            }
            out.extend(piece(c));
        }
        out
    };
    let comps = &path.components;
    PathText {
        whole: render(comps),
        rests: (0..=comps.len()).map(|k| render(&comps[k..])).collect(),
    }
}

fn start(rt: &Runtime, file: ScriptPath, mode: &[u8]) -> (HandleState, Request) {
    let text = text_of(&file);
    rt.handle_file(file, text, mode)
}

fn config(inject: bool, compression: Compression, cache: bool) -> Config {
    Config {
        enabled: true,
        key: KEY.to_string(),
        encryption_output: rel(&["enc"]),
        decryption_output: rel(&["dec"]),
        inject_level_filename: inject,
        compression,
        cache: CacheConfig { enabled: cache, cache_file: "autoenc.cache".to_string() },
        logging: Logging { enabled: false, log_file: "autoenc.log".to_string(), max_level: None },
    }
}

fn runtime(inject: bool, compression: Compression, cache: bool) -> Runtime {
    let loaded = Some(Cache::new("autoenc.cache".to_string()));
    match Runtime::initialize(config(inject, compression, cache), loaded, abs(&["Games", "Birds"])) {
        Ok(Some(rt)) => rt,
        _ => panic!("runtime expected"),
    }
}

fn key() -> [u8; 32] {
    KEY.as_bytes().try_into().unwrap()
}

fn meta(size: u64) -> FileMeta {
    FileMeta { is_file: true, mtime: 1000, size }
}

fn script_path() -> ScriptPath {
    abs(&["Games", "Birds", "data", "scripts", "a.lua"])
}

fn finished_original(step: (HandleState, Request)) -> bool {
    matches!(step, (HandleState::Finished, Request::Finish(FileRouting::Original)))
}

fn step(rt: &mut Runtime, state: HandleState, reply: Reply) -> (HandleState, Request) {
    match rt.resume(state, reply) {
        Ok(next) => next,
        Err(_) => panic!("transformation failed"),
    }
}

#[test]
fn disabled_configuration_gives_no_runtime() {
    let mut c = config(false, Compression::NoCompression, false);
    c.enabled = false;
    assert!(matches!(Runtime::initialize(c, None, abs(&[])), Ok(None)));
}

#[test]
fn key_must_be_32_bytes() {
    let mut c = config(false, Compression::NoCompression, false);
    c.key = "too short".to_string();
    assert!(matches!(Runtime::initialize(c, None, abs(&[])), Err(InitError::KeyLength)));
}

#[test]
fn initialize_copies_configuration() {
    let rt = runtime(true, Compression::SevenZip, false);
    assert_eq!(rt.key, key());
    assert!(rt.compression);
    assert!(rt.inject_level_filename);
    assert!(rt.cache.is_none());
    assert!(rt.encryption_path.same(&rel(&["enc"])));
    let rt = runtime(false, Compression::NoCompression, true);
    assert!(!rt.compression);
    assert!(rt.cache.is_some());
}

#[test]
fn default_compression_is_none() {
    assert_eq!(Compression::default(), Compression::NoCompression);
}

#[test]
fn other_files_are_left_alone() {
    let rt = runtime(true, Compression::NoCompression, true);
    let file = abs(&["Games", "Birds", "data", "image.png"]);
    assert!(finished_original(start(&rt, file, b"rb")));
}

#[test]
fn scripts_without_directory_are_skipped() {
    let rt = runtime(true, Compression::NoCompression, true);
    assert!(finished_original(start(&rt, abs(&["Games", "Birds", "settings.lua"]), b"rb")));
    assert!(finished_original(start(&rt, rel(&["settings.lua"]), b"wb")));
}

#[test]
fn absolute_scripts_elsewhere_are_skipped() {
    let rt = runtime(true, Compression::NoCompression, true);
    assert!(finished_original(start(&rt, abs(&["Users", "me", "save", "a.lua"]), b"rb")));
}

#[test]
fn plain_script_is_encrypted_and_routed() {
    let mut rt = runtime(false, Compression::NoCompression, true);
    let script = b"print('plain script')\n".to_vec();
    let target = abs(&["Games", "Birds", "enc", "data", "scripts", "a.lua"]);

    let (state, request) = start(&rt, script_path(), b"rb");
    match &request {
        Request::Metadata(p) => assert!(p.same(&script_path())),
        _ => panic!("metadata request expected"),
    }
    let (state, request) = step(&mut rt, state, Reply::Metadata(Some(meta(script.len() as u64))));
    match &request {
        Request::Read(p) => assert!(p.same(&script_path())),
        _ => panic!("read request expected"),
    }
    let (state, request) = step(&mut rt, state, Reply::Contents(script.clone()));
    let written = match request {
        Request::Write(p, data) => {
            assert!(p.same(&target));
            data
        },
        _ => panic!("write request expected"),
    };
    match decrypt(written, &key(), false) {
        Ok(DecryptionState::Encrypted(plain)) => assert_eq!(plain, script),
        _ => panic!("the written file must decrypt to the script"),
    }
    let (state, request) = step(&mut rt, state, Reply::Done);
    assert!(matches!(request, Request::SaveCache));
    let (state, request) = step(&mut rt, state, Reply::Done);
    assert!(matches!(state, HandleState::Finished));
    match request {
        Request::Finish(FileRouting::Route(p, RouteMode::Requested)) => assert!(p.same(&target)),
        _ => panic!("route expected"),
    }
    let cache = rt.cache.as_ref().unwrap();
    let entry = cache.get_and_check(&rel(&["data", "scripts", "a.lua"]), 1000, script.len() as u64);
    assert!(entry.unwrap().encrypt);
}

#[test]
fn handled_script_is_served_from_cache() {
    let mut rt = runtime(false, Compression::NoCompression, true);
    let script = b"print('cached')\n".to_vec();
    let target = abs(&["Games", "Birds", "enc", "data", "scripts", "a.lua"]);
    let (state, _) = start(&rt, script_path(), b"r");
    let (state, _) = step(&mut rt, state, Reply::Metadata(Some(meta(script.len() as u64))));
    let (state, _) = step(&mut rt, state, Reply::Contents(script.clone()));
    let (state, _) = step(&mut rt, state, Reply::Done);
    let _ = step(&mut rt, state, Reply::Done);

    let (state, _) = start(&rt, script_path(), b"r");
    let (state, request) = step(&mut rt, state, Reply::Metadata(Some(meta(script.len() as u64))));
    match &request {
        Request::Exists(p) => assert!(p.same(&target)),
        _ => panic!("existence check expected"),
    }
    let (_, request) = step(&mut rt, state, Reply::Exists(true));
    match request {
        Request::Finish(FileRouting::Route(p, RouteMode::Requested)) => assert!(p.same(&target)),
        _ => panic!("route to the cached copy expected"),
    }
}

#[test]
fn missing_cached_copy_is_made_again() {
    let mut rt = runtime(false, Compression::NoCompression, true);
    rt.cache.as_mut().unwrap().update(rel(&["data", "scripts", "a.lua"]), 1000, 5, true);
    let (state, _) = start(&rt, script_path(), b"r");
    let (state, _) = step(&mut rt, state, Reply::Metadata(Some(meta(5))));
    let (_, request) = step(&mut rt, state, Reply::Exists(false));
    assert!(matches!(request, Request::Read(_)));
}

#[test]
fn encrypted_script_is_decrypted_to_dec() {
    let mut rt = runtime(false, Compression::NoCompression, false);
    let script = b"return { level = 1 }\n".to_vec();
    let ct = encrypt(&script, b"data/scripts/a.lua", &key(), false).ok().unwrap();
    let target = abs(&["Games", "Birds", "dec", "data", "scripts", "a.lua"]);
    let (state, _) = start(&rt, script_path(), b"rb");
    let (state, _) = step(&mut rt, state, Reply::Metadata(Some(meta(ct.len() as u64))));
    let (state, request) = step(&mut rt, state, Reply::Contents(ct));
    match request {
        Request::Write(p, data) => {
            assert!(p.same(&target));
            assert_eq!(data, script);
        },
        _ => panic!("write of the plaintext expected"),
    }
    assert!(finished_original(step(&mut rt, state, Reply::Done)));
}

#[test]
fn relative_script_goes_below_output_directory() {
    let mut rt = runtime(false, Compression::NoCompression, false);
    let file = rel(&["data", "a.lua"]);
    let (state, _) = start(&rt, file.copy(), b"rb");
    let (state, _) = step(&mut rt, state, Reply::Metadata(Some(meta(3))));
    let (_, request) = step(&mut rt, state, Reply::Contents(b"x=1".to_vec()));
    match request {
        Request::Write(p, _) => assert!(p.same(&rel(&["enc", "data", "a.lua"]))),
        _ => panic!("write expected"),
    }
}

#[test]
fn compressed_encryption_holds_an_archive() {
    let mut rt = runtime(false, Compression::SevenZip, false);
    let script = b"print('compressed')\n".to_vec();
    let (state, _) = start(&rt, script_path(), b"rb");
    let (state, _) = step(&mut rt, state, Reply::Metadata(Some(meta(script.len() as u64))));
    let (_, request) = step(&mut rt, state, Reply::Contents(script.clone()));
    let written = match request {
        Request::Write(_, data) => data,
        _ => panic!("write expected"),
    };
    match decrypt(written.clone(), &key(), false) {
        Ok(DecryptionState::Encrypted(archive)) => {
            assert_eq!(&archive[..6], &[0x37, 0x7A, 0xBC, 0xAF, 0x27, 0x1C])
        },
        _ => panic!("archive expected"),
    }
    match decrypt(written, &key(), true) {
        Ok(DecryptionState::Encrypted(plain)) => assert_eq!(plain, script),
        _ => panic!("script expected"),
    }
}

#[test]
fn broken_archive_stops_the_call() {
    let mut rt = runtime(false, Compression::SevenZip, false);
    let mut junk = vec![0x37, 0x7A, 0xBC, 0xAF, 0x27, 0x1C, 0x00, 0x04, 0xEF, 0xBE, 0xAD, 0xDE];
    junk.extend_from_slice(&[1u8; 40]);
    let ct = encrypt(&junk, b"x", &key(), false).ok().unwrap();
    let (state, _) = start(&rt, script_path(), b"rb");
    let (state, _) = step(&mut rt, state, Reply::Metadata(Some(meta(ct.len() as u64))));
    assert!(rt.resume(state, Reply::Contents(ct)).is_err());
}

#[test]
fn level_files_get_their_name_injected() {
    let mut rt = runtime(true, Compression::NoCompression, false);
    let level = abs(&["Games", "Birds", "levels", "level1.lua"]);
    let (state, request) = start(&rt, level.copy(), b"wb");
    match request {
        Request::Create(p, data) => {
            assert!(p.same(&level));
            assert_eq!(data, b"filename = \"level1.lua\"\n".to_vec());
        },
        _ => panic!("creation expected"),
    }
    let (state, request) = step(&mut rt, state, Reply::Done);
    assert!(matches!(state, HandleState::Finished));
    match request {
        Request::Finish(FileRouting::Route(p, RouteMode::Append)) => assert!(p.same(&level)),
        _ => panic!("append route expected"),
    }
}

#[test]
fn writes_are_left_alone_without_injection() {
    let rt = runtime(false, Compression::NoCompression, false);
    let level = abs(&["Games", "Birds", "levels", "level1.lua"]);
    assert!(finished_original(start(&rt, level, b"wb")));
}

#[test]
fn read_of_missing_file_goes_on_as_write() {
    let mut rt = runtime(true, Compression::NoCompression, false);
    let level = abs(&["Games", "Birds", "levels", "level1.lua"]);
    let (state, _) = start(&rt, level.copy(), b"r+w");
    let (_, request) = step(&mut rt, state, Reply::Metadata(None));
    assert!(matches!(request, Request::Create(_, _)));
    let (state, _) = start(&rt, level, b"r");
    assert!(finished_original(step(&mut rt, state, Reply::Metadata(None))));
}

#[test]
fn unexpected_reply_ends_the_call() {
    let mut rt = runtime(false, Compression::NoCompression, false);
    let (state, _) = start(&rt, script_path(), b"rb");
    assert!(finished_original(step(&mut rt, state, Reply::Done)));
}

#[test]
fn level_header_text() {
    assert_eq!(level_header_bytes(b"a.lua"), b"filename = \"a.lua\"\n".to_vec());
}

#[test]
fn archive_entry_is_named_by_the_path_text() {
    let mut rt = runtime(false, Compression::SevenZip, false);
    let file = abs(&["Games", "Birds", "data", "scripts", "a.lua"]);
    let mut text = text_of(&file);
    // The game wrote the path with a `.` part, which the components drop.
    text.whole = b"C:\\Games\\Birds\\data\\.\\scripts\\a.lua".to_vec();
    text.rests[4] = b"data\\.\\scripts\\a.lua".to_vec();
    let (state, _) = rt.handle_file(file, text, b"rb");
    let (state, _) = step(&mut rt, state, Reply::Metadata(Some(meta(3))));
    let (_, request) = step(&mut rt, state, Reply::Contents(b"x=1".to_vec()));
    let written = match request {
        Request::Write(_, data) => data,
        _ => panic!("write expected"),
    };
    let archive = match decrypt(written, &key(), false) {
        Ok(DecryptionState::Encrypted(archive)) => archive,
        _ => panic!("archive expected"),
    };
    let reader = sevenz_rust2::ArchiveReader::new(Cursor::new(archive), sevenz_rust2::Password::empty())
        .unwrap();
    assert_eq!(reader.archive().files[0].name(), "data/./scripts/a.lua");
}

#[test]
fn outside_current_directory_the_whole_text_names_the_entry() {
    let mut rt = runtime(false, Compression::SevenZip, false);
    let file = rel(&["data", "a.lua"]);
    let (state, _) = start(&rt, file, b"rb");
    let (state, _) = step(&mut rt, state, Reply::Metadata(Some(meta(3))));
    let (_, request) = step(&mut rt, state, Reply::Contents(b"x=1".to_vec()));
    let written = match request {
        Request::Write(_, data) => data,
        _ => panic!("write expected"),
    };
    let archive = match decrypt(written, &key(), false) {
        Ok(DecryptionState::Encrypted(archive)) => archive,
        _ => panic!("archive expected"),
    };
    let reader = sevenz_rust2::ArchiveReader::new(Cursor::new(archive), sevenz_rust2::Password::empty())
        .unwrap();
    assert_eq!(reader.archive().files[0].name(), "data/a.lua");
}

#[test]
fn backslashes_become_slashes() {
    assert_eq!(slashed_bytes(b"a\\b\\c.lua"), b"a/b/c.lua".to_vec());
    assert_eq!(slashed_bytes(b"a/b"), b"a/b".to_vec());
}

#[test]
fn decrypted_script_is_served_from_cache_left_to_the_game() {
    let mut rt = runtime(false, Compression::NoCompression, true);
    let script = b"return { level = 2 }\n".to_vec();
    let ct = encrypt(&script, b"data/scripts/a.lua", &key(), false).ok().unwrap();
    let target = abs(&["Games", "Birds", "dec", "data", "scripts", "a.lua"]);
    let (state, _) = start(&rt, script_path(), b"rb");
    let (state, _) = step(&mut rt, state, Reply::Metadata(Some(meta(ct.len() as u64))));
    let (state, _) = step(&mut rt, state, Reply::Contents(ct.clone()));
    let (state, request) = step(&mut rt, state, Reply::Done);
    assert!(matches!(request, Request::SaveCache));
    assert!(finished_original(step(&mut rt, state, Reply::Done)));

    let (state, _) = start(&rt, script_path(), b"rb");
    let (state, request) = step(&mut rt, state, Reply::Metadata(Some(meta(ct.len() as u64))));
    match &request {
        Request::Exists(p) => assert!(p.same(&target)),
        _ => panic!("existence check expected"),
    }
    assert!(finished_original(step(&mut rt, state, Reply::Exists(true))));
}

#[test]
fn write_of_a_non_script_is_never_routed() {
    let rt = runtime(true, Compression::NoCompression, false);
    let file = abs(&["Games", "Birds", "data", "levels", "a.txt"]);
    assert!(finished_original(start(&rt, file, b"w")));
}

#[test]
fn cache_file_and_version_stay_through_a_call() {
    let mut rt = runtime(false, Compression::NoCompression, true);
    let script = b"print(1)\n".to_vec();
    let (state, _) = start(&rt, script_path(), b"r");
    let (state, _) = step(&mut rt, state, Reply::Metadata(Some(meta(script.len() as u64))));
    let (state, _) = step(&mut rt, state, Reply::Contents(script));
    let _ = step(&mut rt, state, Reply::Done);
    let cache = rt.cache.as_ref().unwrap();
    assert_eq!(cache.version(), 1);
    assert_eq!(cache.cache_path(), "autoenc.cache");
}
