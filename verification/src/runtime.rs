//! What the plugin does with each file the game opens: the decisions of the
//! `fopen` hook, as a machine that asks its caller for each piece of outside
//! work (file metadata, existence, contents, writes) and is told the answer.

use vstd::prelude::*;
use vstd::utf8::encode_utf8;
use crate::bytes::bytes_copy;
use crate::cache::{cache_lookup, Cache, FileCache};
use crate::config::{Compression, Config};
use crate::crypto::{cbc_encrypt, pkcs7_pad, zero_block};
use crate::path::{
    file_name, has_no_parent_dir, is_absolute, is_lua_script, strip_prefix, Comp,
    ScriptPath,
};
use crate::transform::{
    decrypt, decrypt_spec, encrypt, encrypt_result_ok, encrypted_payload,
    law_decrypt_inverts_compressed_encrypt, lemma_uncompressed_needs_compression, DecryptOutcome,
    DecryptionState, TransformError,
};

verus! {

/// The state the hook works with, made from the configuration.
pub struct Runtime {
    /// The cache of handled scripts, when caching is on.
    pub cache: Option<Cache>,
    /// The AES-256 key.
    pub key: [u8; 32],
    /// Where encrypted scripts are written.
    pub encryption_path: ScriptPath,
    /// Where decrypted scripts are written.
    pub decryption_path: ScriptPath,
    /// Whether saved levels get a `filename = "..."` line.
    pub inject_level_filename: bool,
    /// Whether scripts are packed in 7z archives.
    pub compression: bool,
    /// The game's current directory when the runtime was made.
    pub current_path: ScriptPath,
}

/// Why the configuration cannot be used.
#[derive(Clone, Copy, Debug, PartialEq, Eq, Structural)]
pub enum InitError {
    /// The key is not 32 bytes long.
    KeyLength,
}

/// The mode in which a routed file is opened.
#[derive(Clone, Copy, Debug, PartialEq, Eq, Structural)]
pub enum RouteMode {
    /// The mode the game asked for.
    Requested,
    /// Append, binary (`ab`).
    Append,
}

/// Which file the game's `fopen` call opens.
pub enum FileRouting {
    /// The file the game named, in the mode it asked for.
    Original,
    /// Another file, in the given mode.
    Route(ScriptPath, RouteMode),
}

/// A routing, over paths as component sequences.
pub enum RoutingView {
    Original,
    Route(Seq<Comp>, RouteMode),
}

impl View for FileRouting {
    type V = RoutingView;

    open spec fn view(&self) -> RoutingView {
        match self {
            FileRouting::Original => RoutingView::Original,
            FileRouting::Route(path, mode) => RoutingView::Route(path@, *mode),
        }
    }
}

/// What the file system says of a file.
#[derive(Clone, Copy, Debug, PartialEq, Eq, Structural)]
pub struct FileMeta {
    /// The path names a regular file.
    pub is_file: bool,
    /// Its last write time.
    pub mtime: u64,
    /// Its size in bytes.
    pub size: u64,
}

/// What the runtime asks its caller to do next.
pub enum Request {
    /// Open the file as routed; the call is handled.
    Finish(FileRouting),
    /// Report the metadata of this file, if it can be read.
    Metadata(ScriptPath),
    /// Report whether this path exists.
    Exists(ScriptPath),
    /// Read the whole file.
    Read(ScriptPath),
    /// Write these bytes to this file, creating its directories.
    Write(ScriptPath, Vec<u8>),
    /// Create (or truncate) this file with these bytes.
    Create(ScriptPath, Vec<u8>),
    /// Store the cache in its file.
    SaveCache,
}

/// A request, over sequences.
pub enum RequestView {
    Finish(RoutingView),
    Metadata(Seq<Comp>),
    Exists(Seq<Comp>),
    Read(Seq<Comp>),
    Write(Seq<Comp>, Seq<u8>),
    Create(Seq<Comp>, Seq<u8>),
    SaveCache,
}

impl View for Request {
    type V = RequestView;

    open spec fn view(&self) -> RequestView {
        match self {
            Request::Finish(routing) => RequestView::Finish(routing@),
            Request::Metadata(path) => RequestView::Metadata(path@),
            Request::Exists(path) => RequestView::Exists(path@),
            Request::Read(path) => RequestView::Read(path@),
            Request::Write(path, data) => RequestView::Write(path@, data@),
            Request::Create(path, data) => RequestView::Create(path@, data@),
            Request::SaveCache => RequestView::SaveCache,
        }
    }
}

/// The caller's answer to a request.
pub enum Reply {
    /// The metadata, or `None` when it could not be read.
    Metadata(Option<FileMeta>),
    /// Whether the path exists.
    Exists(bool),
    /// The file's contents.
    Contents(Vec<u8>),
    /// The write, creation or save is done.
    Done,
}

/// A reply, over sequences.
pub enum ReplyView {
    Metadata(Option<FileMeta>),
    Exists(bool),
    Contents(Seq<u8>),
    Done,
}

impl View for Reply {
    type V = ReplyView;

    open spec fn view(&self) -> ReplyView {
        match self {
            Reply::Metadata(meta) => ReplyView::Metadata(*meta),
            Reply::Exists(exists) => ReplyView::Exists(*exists),
            Reply::Contents(data) => ReplyView::Contents(data@),
            Reply::Done => ReplyView::Done,
        }
    }
}

/// The text of a path the game named, as `to_string_lossy` writes it:
/// `whole` is the text of the whole path; `rests[k]` is the text of what
/// remains after its first `k` components, as `Components::as_path` gives it
/// after `k` steps (the text that `Path::strip_prefix` returns when the
/// prefix has `k` components).
pub struct PathText {
    pub whole: Vec<u8>,
    pub rests: Vec<Vec<u8>>,
}

/// A path's text, over sequences.
pub struct PathTextView {
    pub whole: Seq<u8>,
    pub rests: Seq<Seq<u8>>,
}

impl View for PathText {
    type V = PathTextView;

    open spec fn view(&self) -> PathTextView {
        PathTextView { whole: self.whole@, rests: self.rests.deep_view() }
    }
}

/// The text with every `\` replaced by `/`.
pub open spec fn slashed(text: Seq<u8>) -> Seq<u8> {
    text.map_values(|b: u8| if b == 0x5C { 0x2Fu8 } else { b })
}

/// The text of what remains of a path after its first `k` components
/// (empty when the text does not go that far).
pub open spec fn rest_text(text: PathTextView, k: int) -> Seq<u8> {
    if 0 <= k < text.rests.len() {
        text.rests[k]
    } else {
        Seq::empty()
    }
}

/// The name under which a script is stored in a 7z archive: the text of the
/// path it is known by (what remains after the current directory, or the
/// whole path), with `\` replaced by `/`.
pub open spec fn entry_name(text: PathTextView, below_current: bool, current_len: int) -> Seq<u8> {
    if below_current {
        slashed(rest_text(text, current_len))
    } else {
        slashed(text.whole)
    }
}

/// The `fopen` call being handled: the path the game gave, that path
/// relative to the current directory when it lies below it, the name its
/// script gets in a 7z archive, and the mode.
pub struct FileCall {
    original: ScriptPath,
    rel: Option<ScriptPath>,
    name: Vec<u8>,
    mode: Vec<u8>,
}

/// A call, over sequences.
pub struct CallView {
    pub original: Seq<Comp>,
    pub rel: Option<Seq<Comp>>,
    pub name: Seq<u8>,
    pub mode: Seq<u8>,
}

impl View for FileCall {
    type V = CallView;

    closed spec fn view(&self) -> CallView {
        CallView {
            original: self.original@,
            rel: match self.rel {
                Some(rel) => Some(rel@),
                None => None,
            },
            name: self.name@,
            mode: self.mode@,
        }
    }
}

/// Where the handling of a call stands.
pub enum HandleState {
    /// Waiting for the metadata of the file.
    AwaitMetadata(FileCall),
    /// Waiting to learn whether the cached output (encrypted or not) exists.
    AwaitExists(FileCall, FileMeta, bool, ScriptPath),
    /// Waiting for the file's contents.
    AwaitContents(FileCall, FileMeta),
    /// Waiting for an output file to be written; the routing and whether the
    /// script was encrypted are kept for the end.
    AwaitWrite(FileCall, FileMeta, FileRouting, bool),
    /// Waiting for the cache to be stored.
    AwaitSave(FileRouting),
    /// Waiting for the level file to be created.
    AwaitCreate(FileRouting),
    /// Nothing more to do.
    Finished,
}

/// A state, over sequences.
pub enum StateView {
    AwaitMetadata(CallView),
    AwaitExists(CallView, FileMeta, bool, Seq<Comp>),
    AwaitContents(CallView, FileMeta),
    AwaitWrite(CallView, FileMeta, RoutingView, bool),
    AwaitSave(RoutingView),
    AwaitCreate(RoutingView),
    Finished,
}

impl View for HandleState {
    type V = StateView;

    open spec fn view(&self) -> StateView {
        match self {
            HandleState::AwaitMetadata(call) => StateView::AwaitMetadata(call@),
            HandleState::AwaitExists(call, meta, encrypt, target) => StateView::AwaitExists(
                call@,
                *meta,
                *encrypt,
                target@,
            ),
            HandleState::AwaitContents(call, meta) => StateView::AwaitContents(call@, *meta),
            HandleState::AwaitWrite(call, meta, routing, encrypt) => StateView::AwaitWrite(
                call@,
                *meta,
                routing@,
                *encrypt,
            ),
            HandleState::AwaitSave(routing) => StateView::AwaitSave(routing@),
            HandleState::AwaitCreate(routing) => StateView::AwaitCreate(routing@),
            HandleState::Finished => StateView::Finished,
        }
    }
}

/// The kind of a transformation error.
pub enum StepError {
    EmptyArchive,
    SevenZip,
}

/// The kind of a transformation error.
pub open spec fn error_kind(error: TransformError) -> StepError {
    match error {
        TransformError::EmptyArchive => StepError::EmptyArchive,
        TransformError::SevenZip(_) => StepError::SevenZip,
    }
}

/// The text `filename = "` that opens the line written into a saved level.
pub const LEVEL_HEADER_START: [u8; 12] = [
    0x66,
    0x69,
    0x6C,
    0x65,
    0x6E,
    0x61,
    0x6D,
    0x65,
    0x20,
    0x3D,
    0x20,
    0x22,
];

/// The line written at the head of a saved level: `filename = "<name>"` and
/// a newline; the name is not escaped.
pub open spec fn level_header(name: Seq<u8>) -> Seq<u8> {
    LEVEL_HEADER_START@ + name + seq![0x22u8, 0x0Au8]
}

/// The path a script is known by: relative to the current directory when it
/// lies below it, else as given.
pub open spec fn call_path(call: CallView) -> Seq<Comp> {
    match call.rel {
        Some(rel) => rel,
        None => call.original,
    }
}

/// The finished state with the given routing.
pub open spec fn finish(routing: RoutingView) -> (StateView, RequestView) {
    (StateView::Finished, RequestView::Finish(routing))
}

/// Asking for the file's contents.
pub open spec fn read_step(call: CallView, meta: FileMeta) -> (StateView, RequestView) {
    (StateView::AwaitContents(call, meta), RequestView::Read(call.original))
}

impl Runtime {
    /// The current directory when the runtime was made.
    pub open spec fn spec_current_path(&self) -> Seq<Comp> {
        self.current_path@
    }

    /// The cache's contents, when caching is on.
    pub open spec fn cache_view(&self) -> Option<Map<Seq<Comp>, FileCache>> {
        match self.cache {
            Some(cache) => Some(cache@),
            None => None,
        }
    }

    /// The format version and the file of the cache, when caching is on.
    pub open spec fn cache_store(&self) -> Option<(u32, Seq<char>)> {
        match self.cache {
            Some(cache) => Some((cache.spec_version(), cache.spec_cache_path())),
            None => None,
        }
    }

    /// Where the output for a call goes in the output directory `dir`: below
    /// the current directory when the file lies below it, else `dir` joined
    /// with the path as given.
    pub open spec fn output_path_spec(&self, call: CallView, dir: Seq<Comp>) -> Seq<Comp> {
        match call.rel {
            Some(rel) => self.spec_current_path() + dir + rel,
            None => dir + call.original,
        }
    }

    /// When a file is not read: a level opened for writing gets its header
    /// line and is then opened for appending, when injection is on and the
    /// path has a file name; anything else is left to the game.
    pub open spec fn write_or_original_spec(&self, call: CallView) -> (StateView, RequestView) {
        if call.mode.contains(0x77u8) && self.inject_level_filename {
            match file_name(call.original) {
                Some(name) => (
                    StateView::AwaitCreate(RoutingView::Route(call.original, RouteMode::Append)),
                    RequestView::Create(call.original, level_header(name)),
                ),
                None => finish(RoutingView::Original),
            }
        } else {
            finish(RoutingView::Original)
        }
    }

    /// The first step for an `fopen` of `file` (whose text is `text`) in
    /// mode `mode`: only Lua scripts with a directory part, relative to the
    /// current directory or given relative, are handled; a read asks for the
    /// file's metadata.
    pub open spec fn begin_spec(&self, file: Seq<Comp>, text: PathTextView, mode: Seq<u8>) -> (
        StateView,
        RequestView,
    ) {
        let rel = strip_prefix(file, self.spec_current_path());
        let call = CallView {
            original: file,
            rel,
            name: entry_name(text, rel is Some, self.spec_current_path().len() as int),
            mode,
        };
        let path = call_path(call);
        if !is_lua_script(file) || is_absolute(path) || has_no_parent_dir(path) {
            finish(RoutingView::Original)
        } else if mode.contains(0x72u8) {
            (StateView::AwaitMetadata(call), RequestView::Metadata(file))
        } else {
            self.write_or_original_spec(call)
        }
    }

    /// After the metadata: a file with a matching cache entry is checked for
    /// its cached output; another file is read; when there is no file the
    /// call goes on as a write.
    pub open spec fn after_metadata_spec(&self, call: CallView, meta: Option<FileMeta>) -> (
        StateView,
        RequestView,
    ) {
        match meta {
            Some(m) => if m.is_file {
                match self.cache_view() {
                    Some(map) => match cache_lookup(map, call_path(call), m.mtime, m.size) {
                        Some(entry) => {
                            let target = self.output_path_spec(
                                call,
                                if entry.encrypt {
                                    self.encryption_path@
                                } else {
                                    self.decryption_path@
                                },
                            );
                            (
                                StateView::AwaitExists(call, m, entry.encrypt, target),
                                RequestView::Exists(target),
                            )
                        },
                        None => read_step(call, m),
                    },
                    None => read_step(call, m),
                }
            } else {
                self.write_or_original_spec(call)
            },
            None => self.write_or_original_spec(call),
        }
    }

    /// After the check for a cached output: when it exists, an encrypted
    /// output is opened in place of the file and a decrypted one leaves the
    /// file to the game; otherwise the file is read.
    pub open spec fn after_exists_spec(
        &self,
        call: CallView,
        meta: FileMeta,
        encrypt: bool,
        target: Seq<Comp>,
        exists: bool,
    ) -> (StateView, RequestView) {
        if exists {
            if encrypt {
                finish(RoutingView::Route(target, RouteMode::Requested))
            } else {
                finish(RoutingView::Original)
            }
        } else {
            read_step(call, meta)
        }
    }

    /// Encrypting a plain script: its encryption is written to the
    /// encryption directory and the game is routed to it.
    pub open spec fn encrypt_step_spec(&self, call: CallView, meta: FileMeta, plain: Seq<u8>) -> (
        StateView,
        RequestView,
    ) {
        let target = self.output_path_spec(call, self.encryption_path@);
        let payload = encrypted_payload(plain, call.name, self.compression);
        (
            StateView::AwaitWrite(call, meta, RoutingView::Route(target, RouteMode::Requested), true),
            RequestView::Write(target, cbc_encrypt(self.key@, zero_block(), pkcs7_pad(payload))),
        )
    }

    /// After the contents: an encrypted script is decrypted into the
    /// decryption directory and the game opens its file as it is; any other
    /// script is encrypted.
    pub open spec fn after_contents_spec(&self, call: CallView, meta: FileMeta, data: Seq<u8>) -> Result<
        (StateView, RequestView),
        StepError,
    > {
        match decrypt_spec(self.key@, data, self.compression) {
            DecryptOutcome::Encrypted(plain) => Ok(
                (
                    StateView::AwaitWrite(call, meta, RoutingView::Original, false),
                    RequestView::Write(self.output_path_spec(call, self.decryption_path@), plain),
                ),
            ),
            DecryptOutcome::Unencrypted(plain) => Ok(self.encrypt_step_spec(call, meta, plain)),
            DecryptOutcome::Uncompressed(plain) => Ok(self.encrypt_step_spec(call, meta, plain)),
            DecryptOutcome::EmptyArchive => Err(StepError::EmptyArchive),
            DecryptOutcome::SevenZipFailed => Err(StepError::SevenZip),
        }
    }

    /// After an output was written: the cache, when on, records the script
    /// and is stored; then the call is done.
    pub open spec fn after_write_spec(&self, routing: RoutingView) -> (StateView, RequestView) {
        if self.cache is Some {
            (StateView::AwaitSave(routing), RequestView::SaveCache)
        } else {
            finish(routing)
        }
    }

    /// The next step from `state` on the reply `reply`; a reply that does not
    /// answer the pending request ends the call, leaving the file to the game.
    pub open spec fn resume_spec(&self, state: StateView, reply: ReplyView) -> Result<
        (StateView, RequestView),
        StepError,
    > {
        match (state, reply) {
            (StateView::AwaitMetadata(call), ReplyView::Metadata(meta)) => Ok(
                self.after_metadata_spec(call, meta),
            ),
            (StateView::AwaitExists(call, meta, encrypt, target), ReplyView::Exists(exists)) => Ok(
                self.after_exists_spec(call, meta, encrypt, target, exists),
            ),
            (StateView::AwaitContents(call, meta), ReplyView::Contents(data)) => self.after_contents_spec(
                call,
                meta,
                data,
            ),
            (StateView::AwaitWrite(_, _, routing, _), ReplyView::Done) => Ok(
                self.after_write_spec(routing),
            ),
            (StateView::AwaitSave(routing), ReplyView::Done) => Ok(finish(routing)),
            (StateView::AwaitCreate(routing), ReplyView::Done) => Ok(finish(routing)),
            _ => Ok(finish(RoutingView::Original)),
        }
    }

    /// The cache after the step from `state` on `reply`: an answered write
    /// records the script, with the file's time and size and whether it was
    /// encrypted.
    pub open spec fn cache_after_spec(&self, state: StateView, reply: ReplyView) -> Option<
        Map<Seq<Comp>, FileCache>,
    > {
        match (state, reply, self.cache_view()) {
            (StateView::AwaitWrite(call, meta, _, encrypt), ReplyView::Done, Some(map)) => Some(
                map.insert(
                    call_path(call),
                    FileCache { mtime: meta.mtime, size: meta.size, encrypt },
                ),
            ),
            _ => self.cache_view(),
        }
    }

    /// Makes the runtime from the configuration, the cache loaded from its
    /// file (used when caching is on) and the current directory. A disabled
    /// configuration gives no runtime; the key must be 32 bytes long.
    pub fn initialize(config: Config, cache: Option<Cache>, current_path: ScriptPath) -> (res: Result<
        Option<Runtime>,
        InitError,
    >)
        ensures
            !config.enabled ==> res matches Ok(None),
            config.enabled && encode_utf8(config.key@).len() != 32 ==> res matches Err(
                InitError::KeyLength,
            ),
            config.enabled && encode_utf8(config.key@).len() == 32 ==> (res matches Ok(Some(rt)) && {
                &&& rt.key@ == encode_utf8(config.key@)
                &&& rt.cache == (if config.cache.enabled {
                    cache
                } else {
                    None
                })
                &&& rt.encryption_path@ == config.encryption_output@
                &&& rt.decryption_path@ == config.decryption_output@
                &&& rt.inject_level_filename == config.inject_level_filename
                &&& rt.compression == (config.compression == Compression::SevenZip)
                &&& rt.spec_current_path() == current_path@
            }),
    {
        if !config.enabled {
            return Ok(None);
        }
        let bytes = config.key.as_str().as_bytes();
        if bytes.len() != 32 {
            return Err(InitError::KeyLength);
        }
        let mut key = [0u8; 32];
        let mut i: usize = 0;
        while i < 32
            invariant
                bytes@.len() == 32,
                i <= 32,
                key@.len() == 32,
                forall|j: int| 0 <= j < i ==> key@[j] == bytes@[j],
            decreases 32 - i,
        {
            key[i] = bytes[i];
            i = i + 1;
        }
        assert(key@ =~= bytes@);
        let cache = if config.cache.enabled {
            cache
        } else {
            None
        };
        Ok(
            Some(
                Runtime {
                    cache,
                    key,
                    encryption_path: config.encryption_output,
                    decryption_path: config.decryption_output,
                    inject_level_filename: config.inject_level_filename,
                    compression: config.compression == Compression::SevenZip,
                    current_path,
                },
            ),
        )
    }

    /// Where the output for a call goes in the output directory `dir`.
    fn output_path(&self, call: &FileCall, dir: &ScriptPath) -> (path: ScriptPath)
        ensures
            path@ == self.output_path_spec(call@, dir@),
    {
        match &call.rel {
            Some(rel) => self.current_path.join(dir).join(rel),
            None => dir.join(&call.original),
        }
    }

    /// The step taken when a file is not read.
    fn write_or_original(&self, call: FileCall) -> (res: (HandleState, Request))
        ensures
            (res.0@, res.1@) == self.write_or_original_spec(call@),
    {
        if has_byte(&call.mode, 0x77) && self.inject_level_filename {
            match call.original.file_name() {
                Some(name) => {
                    let header = level_header_bytes(&name);
                    let request = Request::Create(call.original.copy(), header);
                    (
                        HandleState::AwaitCreate(FileRouting::Route(call.original, RouteMode::Append)),
                        request,
                    )
                },
                None => (HandleState::Finished, Request::Finish(FileRouting::Original)),
            }
        } else {
            (HandleState::Finished, Request::Finish(FileRouting::Original))
        }
    }

    /// Starts handling the game's `fopen` of `file`, whose text is `text`, in
    /// the mode whose bytes are `mode`.
    pub fn handle_file(&self, file: ScriptPath, text: PathText, mode: &[u8]) -> (res: (
        HandleState,
        Request,
    ))
        ensures
            (res.0@, res.1@) == self.begin_spec(file@, text@, mode@),
    {
        let rel = file.strip_prefix(&self.current_path);
        let name = match &rel {
            Some(_) => slashed_bytes(rest_text_of(&text, self.current_path.components.len())),
            None => slashed_bytes(&text.whole),
        };
        proof {
            assert(self.current_path@.len() == self.current_path.components@.len());
        }
        let call = FileCall { original: file, rel, name, mode: bytes_copy(mode) };
        let skip = match &call.rel {
            Some(rel) => rel.is_absolute() || rel.has_no_parent_dir(),
            None => call.original.is_absolute() || call.original.has_no_parent_dir(),
        };
        if !call.original.is_lua_script() || skip {
            return (HandleState::Finished, Request::Finish(FileRouting::Original));
        }
        if has_byte(mode, 0x72) {
            let request = Request::Metadata(call.original.copy());
            (HandleState::AwaitMetadata(call), request)
        } else {
            self.write_or_original(call)
        }
    }

    /// The step after the metadata.
    fn after_metadata(&self, call: FileCall, meta: Option<FileMeta>) -> (res: (HandleState, Request))
        ensures
            (res.0@, res.1@) == self.after_metadata_spec(call@, meta),
    {
        match meta {
            Some(m) => {
                if !m.is_file {
                    return self.write_or_original(call);
                }
                let hit = match &self.cache {
                    Some(cache) => cache.get_and_check(call_path_of(&call), m.mtime, m.size),
                    None => None,
                };
                match hit {
                    Some(entry) => {
                        let target = if entry.encrypt {
                            self.output_path(&call, &self.encryption_path)
                        } else {
                            self.output_path(&call, &self.decryption_path)
                        };
                        let request = Request::Exists(target.copy());
                        (HandleState::AwaitExists(call, m, entry.encrypt, target), request)
                    },
                    None => {
                        let request = Request::Read(call.original.copy());
                        (HandleState::AwaitContents(call, m), request)
                    },
                }
            },
            None => self.write_or_original(call),
        }
    }

    /// The step that encrypts a plain script.
    fn encrypt_step(&self, call: FileCall, meta: FileMeta, plain: &[u8]) -> (res: Result<
        (HandleState, Request),
        TransformError,
    >)
        ensures
            res matches Ok((state, request)) && (state@, request@) == self.encrypt_step_spec(
                call@,
                meta,
                plain@,
            ),
    {
        match encrypt(plain, &call.name, &self.key, self.compression) {
            Ok(data) => {
                let target = self.output_path(&call, &self.encryption_path);
                let request = Request::Write(target.copy(), data);
                Ok(
                    (
                        HandleState::AwaitWrite(
                            call,
                            meta,
                            FileRouting::Route(target, RouteMode::Requested),
                            true,
                        ),
                        request,
                    ),
                )
            },
            Err(error) => Err(error),
        }
    }

    /// The step after the contents.
    fn after_contents(&self, call: FileCall, meta: FileMeta, data: Vec<u8>) -> (res: Result<
        (HandleState, Request),
        TransformError,
    >)
        ensures
            match res {
                Ok((state, request)) => self.after_contents_spec(call@, meta, data@) == Ok::<
                    (StateView, RequestView),
                    StepError,
                >((state@, request@)),
                Err(error) => self.after_contents_spec(call@, meta, data@) == Err::<
                    (StateView, RequestView),
                    StepError,
                >(error_kind(error)),
            },
    {
        match decrypt(data, &self.key, self.compression) {
            Ok(DecryptionState::Encrypted(plain)) => {
                let target = self.output_path(&call, &self.decryption_path);
                Ok(
                    (
                        HandleState::AwaitWrite(call, meta, FileRouting::Original, false),
                        Request::Write(target, plain),
                    ),
                )
            },
            Ok(DecryptionState::Unencrypted(plain, _)) => self.encrypt_step(call, meta, &plain),
            Ok(DecryptionState::Uncompressed(plain)) => self.encrypt_step(call, meta, &plain),
            Err(error) => Err(error),
        }
    }

    /// Goes on with the call in `state`, given the caller's `reply` to the
    /// pending request.
    pub fn resume(&mut self, state: HandleState, reply: Reply) -> (res: Result<
        (HandleState, Request),
        TransformError,
    >)
        ensures
            match res {
                Ok((next, request)) => old(self).resume_spec(state@, reply@) == Ok::<
                    (StateView, RequestView),
                    StepError,
                >((next@, request@)),
                Err(error) => old(self).resume_spec(state@, reply@) == Err::<
                    (StateView, RequestView),
                    StepError,
                >(error_kind(error)),
            },
            final(self).cache_view() == old(self).cache_after_spec(state@, reply@),
            final(self).cache_store() == old(self).cache_store(),
            final(self).key == old(self).key,
            final(self).encryption_path == old(self).encryption_path,
            final(self).decryption_path == old(self).decryption_path,
            final(self).inject_level_filename == old(self).inject_level_filename,
            final(self).compression == old(self).compression,
            final(self).spec_current_path() == old(self).spec_current_path(),
    {
        match state {
            HandleState::AwaitMetadata(call) => match reply {
                Reply::Metadata(meta) => Ok(self.after_metadata(call, meta)),
                _ => Ok((HandleState::Finished, Request::Finish(FileRouting::Original))),
            },
            HandleState::AwaitExists(call, meta, encrypt, target) => match reply {
                Reply::Exists(exists) => {
                    if !exists {
                        let request = Request::Read(call.original.copy());
                        Ok((HandleState::AwaitContents(call, meta), request))
                    } else if encrypt {
                        Ok(
                            (
                                HandleState::Finished,
                                Request::Finish(FileRouting::Route(target, RouteMode::Requested)),
                            ),
                        )
                    } else {
                        Ok((HandleState::Finished, Request::Finish(FileRouting::Original)))
                    }
                },
                _ => Ok((HandleState::Finished, Request::Finish(FileRouting::Original))),
            },
            HandleState::AwaitContents(call, meta) => match reply {
                Reply::Contents(data) => self.after_contents(call, meta, data),
                _ => Ok((HandleState::Finished, Request::Finish(FileRouting::Original))),
            },
            HandleState::AwaitWrite(call, meta, routing, encrypt) => match reply {
                Reply::Done => {
                    let mut cache: Option<Cache> = None;
                    std::mem::swap(&mut cache, &mut self.cache);
                    match cache {
                        Some(mut c) => {
                            let path = call_path_of(&call).copy();
                            c.update(path, meta.mtime, meta.size, encrypt);
                            self.cache = Some(c);
                            Ok((HandleState::AwaitSave(routing), Request::SaveCache))
                        },
                        None => Ok((HandleState::Finished, Request::Finish(routing))),
                    }
                },
                _ => Ok((HandleState::Finished, Request::Finish(FileRouting::Original))),
            },
            HandleState::AwaitSave(routing) => match reply {
                Reply::Done => Ok((HandleState::Finished, Request::Finish(routing))),
                _ => Ok((HandleState::Finished, Request::Finish(FileRouting::Original))),
            },
            HandleState::AwaitCreate(routing) => match reply {
                Reply::Done => Ok((HandleState::Finished, Request::Finish(routing))),
                _ => Ok((HandleState::Finished, Request::Finish(FileRouting::Original))),
            },
            HandleState::Finished => Ok((HandleState::Finished, Request::Finish(FileRouting::Original))),
        }
    }
}

/// The path by which the runtime knows the file `file`: relative to the
/// current directory when it lies below it, else as given.
pub open spec fn known_path(rt: Runtime, file: Seq<Comp>) -> Seq<Comp> {
    match strip_prefix(file, rt.spec_current_path()) {
        Some(rel) => rel,
        None => file,
    }
}

/// The runtime handles the file `file`: it is a Lua script, and the path it
/// is known by is relative and has a directory part.
pub open spec fn handles(rt: Runtime, file: Seq<Comp>) -> bool {
    &&& is_lua_script(file)
    &&& !is_absolute(known_path(rt, file))
    &&& !has_no_parent_dir(known_path(rt, file))
}

/// Where the encrypted copy of the file `file` is written.
pub open spec fn encrypted_copy(rt: Runtime, file: Seq<Comp>) -> Seq<Comp> {
    match strip_prefix(file, rt.spec_current_path()) {
        Some(rel) => rt.spec_current_path() + rt.encryption_path@ + rel,
        None => rt.encryption_path@ + file,
    }
}

/// A routing that an `fopen` of `file` in mode `mode` may end with: the
/// file as the game named it; the encrypted copy of a handled script, in the
/// requested mode, for a read; or the level file itself in append mode,
/// for a write of a handled script when the file name is injected.
pub open spec fn routing_allowed(rt: Runtime, file: Seq<Comp>, mode: Seq<u8>, routing: RoutingView) -> bool {
    match routing {
        RoutingView::Original => true,
        RoutingView::Route(target, RouteMode::Requested) => {
            &&& handles(rt, file)
            &&& mode.contains(0x72u8)
            &&& target == encrypted_copy(rt, file)
        },
        RoutingView::Route(target, RouteMode::Append) => {
            &&& handles(rt, file)
            &&& mode.contains(0x77u8)
            &&& rt.inject_level_filename
            &&& target == file
        },
    }
}

/// A request that ends a call of `file` in mode `mode` with an allowed
/// routing, or one that does not end it.
pub open spec fn request_allowed(rt: Runtime, file: Seq<Comp>, mode: Seq<u8>, request: RequestView) -> bool {
    request matches RequestView::Finish(routing) ==> routing_allowed(rt, file, mode, routing)
}

/// The call is the one made for `file` in mode `mode`, for a handled file.
pub open spec fn call_of(rt: Runtime, file: Seq<Comp>, mode: Seq<u8>, call: CallView) -> bool {
    &&& call.original == file
    &&& call.rel == strip_prefix(file, rt.spec_current_path())
    &&& call.mode == mode
    &&& handles(rt, file)
}

/// The state is one that handling an `fopen` of `file` in mode `mode` can
/// be in: its call is that call, a read is pending unless a write or a save
/// is, a cached encrypted output is the file's encrypted copy, and the
/// routing kept for the end is allowed.
pub open spec fn state_allowed(rt: Runtime, file: Seq<Comp>, mode: Seq<u8>, state: StateView) -> bool {
    match state {
        StateView::AwaitMetadata(call) => call_of(rt, file, mode, call) && mode.contains(0x72u8),
        StateView::AwaitExists(call, _, encrypt, target) => {
            &&& call_of(rt, file, mode, call)
            &&& mode.contains(0x72u8)
            &&& encrypt ==> target == encrypted_copy(rt, file)
        },
        StateView::AwaitContents(call, _) => call_of(rt, file, mode, call) && mode.contains(0x72u8),
        StateView::AwaitWrite(call, _, routing, _) => {
            &&& call_of(rt, file, mode, call)
            &&& routing_allowed(rt, file, mode, routing)
        },
        StateView::AwaitSave(routing) => routing_allowed(rt, file, mode, routing),
        StateView::AwaitCreate(routing) => routing_allowed(rt, file, mode, routing),
        StateView::Finished => true,
    }
}

/// The step for a file that is not read keeps to the routing rule.
proof fn lemma_write_or_original_allowed(rt: Runtime, file: Seq<Comp>, mode: Seq<u8>, call: CallView)
    requires
        call_of(rt, file, mode, call),
    ensures
        state_allowed(rt, file, mode, rt.write_or_original_spec(call).0),
        request_allowed(rt, file, mode, rt.write_or_original_spec(call).1),
{
}

/// A route is only ever taken for a handled Lua script: the first step for
/// an `fopen` of `file` in mode `mode` ends, if it ends the call, with an
/// allowed routing (see `routing_allowed`), and leaves the call in a state
/// from which only allowed routings follow.
pub proof fn law_begin_routes_only_scripts(rt: Runtime, file: Seq<Comp>, text: PathTextView, mode: Seq<u8>)
    ensures
        state_allowed(rt, file, mode, rt.begin_spec(file, text, mode).0),
        request_allowed(rt, file, mode, rt.begin_spec(file, text, mode).1),
{
    let rel = strip_prefix(file, rt.spec_current_path());
    let call = CallView {
        original: file,
        rel,
        name: entry_name(text, rel is Some, rt.spec_current_path().len() as int),
        mode,
    };
    assert(call_path(call) == known_path(rt, file));
    if handles(rt, file) && !mode.contains(0x72u8) {
        lemma_write_or_original_allowed(rt, file, mode, call);
    }
}

/// Each later step keeps to the routing rule: from a state that handling an
/// `fopen` of `file` in mode `mode` can be in, any reply leads to such a
/// state, and a request that ends the call carries an allowed routing. The
/// runtime that takes the step keeps its current directory, output
/// directories and injection flag (see `Runtime::resume`), so the rule is
/// the same at every step.
pub proof fn law_resume_routes_only_scripts(
    rt: Runtime,
    file: Seq<Comp>,
    mode: Seq<u8>,
    state: StateView,
    reply: ReplyView,
)
    requires
        state_allowed(rt, file, mode, state),
    ensures
        rt.resume_spec(state, reply) matches Ok((next, request)) ==> {
            &&& state_allowed(rt, file, mode, next)
            &&& request_allowed(rt, file, mode, request)
        },
{
    match (state, reply) {
        (StateView::AwaitMetadata(call), ReplyView::Metadata(meta)) => {
            lemma_write_or_original_allowed(rt, file, mode, call);
        },
        (StateView::AwaitContents(call, meta), ReplyView::Contents(data)) => {
            assert(rt.output_path_spec(call, rt.encryption_path@) == encrypted_copy(rt, file));
        },
        _ => {},
    }
}

/// A script handled once is found in the cache the next time the game opens
/// it unchanged: after the output for a read call is written and recorded,
/// the metadata step for the same call asks whether that recorded output
/// exists (the encrypted copy, for an encrypted script) instead of reading
/// the file again.
pub proof fn law_handled_script_is_cached(
    before: Runtime,
    after: Runtime,
    call: CallView,
    meta: FileMeta,
    routing: RoutingView,
    encrypt: bool,
)
    requires
        before.cache is Some,
        meta.is_file,
        after.cache_view() == before.cache_after_spec(
            StateView::AwaitWrite(call, meta, routing, encrypt),
            ReplyView::Done,
        ),
        after.encryption_path == before.encryption_path,
        after.decryption_path == before.decryption_path,
        after.spec_current_path() == before.spec_current_path(),
    ensures
        ({
            let target = after.output_path_spec(
                call,
                if encrypt {
                    before.encryption_path@
                } else {
                    before.decryption_path@
                },
            );
            after.after_metadata_spec(call, Some(meta)) == (
                StateView::AwaitExists(call, meta, encrypt, target),
                RequestView::Exists(target),
            )
        }),
{
    let map = before.cache_view()->0;
    let entry = FileCache { mtime: meta.mtime, size: meta.size, encrypt };
    crate::cache::law_lookup_after_update(map, call_path(call), meta.mtime, meta.size, encrypt);
    assert(after.cache_view() == Some(map.insert(call_path(call), entry)));
}

/// A read of a handled plain script ends with the game routed to the
/// encrypted copy just written, whether or not caching is on. When the
/// contents of `file` (read in a mode with `r`) are not found encrypted, or
/// are a plaintext that is no archive while compression is on, the step on
/// the contents writes to the file's encrypted copy; the step on the end of
/// that write finishes the call with a route to that copy in the requested
/// mode (without a cache), or first stores the cache and then finishes so
/// (with one).
pub proof fn law_plain_script_is_served_encrypted(
    rt: Runtime,
    file: Seq<Comp>,
    mode: Seq<u8>,
    call: CallView,
    meta: FileMeta,
    data: Seq<u8>,
)
    requires
        call_of(rt, file, mode, call),
        decrypt_spec(rt.key@, data, rt.compression) is Unencrypted || decrypt_spec(
            rt.key@,
            data,
            rt.compression,
        ) is Uncompressed,
    ensures
        ({
            let copy = encrypted_copy(rt, file);
            let routed = RoutingView::Route(copy, RouteMode::Requested);
            let step = rt.resume_spec(StateView::AwaitContents(call, meta), ReplyView::Contents(data));
            &&& step is Ok
            &&& step->Ok_0.1 matches RequestView::Write(target, _) && target == copy
            &&& rt.cache is None ==> rt.resume_spec(step->Ok_0.0, ReplyView::Done) == Ok::<
                (StateView, RequestView),
                StepError,
            >((StateView::Finished, RequestView::Finish(routed)))
            &&& rt.cache is Some ==> rt.resume_spec(step->Ok_0.0, ReplyView::Done) == Ok::<
                (StateView, RequestView),
                StepError,
            >((StateView::AwaitSave(routed), RequestView::SaveCache))
            &&& rt.resume_spec(StateView::AwaitSave(routed), ReplyView::Done) == Ok::<
                (StateView, RequestView),
                StepError,
            >((StateView::Finished, RequestView::Finish(routed)))
        }),
{
    assert(rt.output_path_spec(call, rt.encryption_path@) == encrypted_copy(rt, file));
}

/// What is written for a script that is not found encrypted is what
/// `encrypt` returns for its plaintext: given `out`, the ciphertext that
/// `encrypt` gives for the plaintext `p` under the runtime's key and
/// compression (with the call's archive name), the step on the contents
/// writes exactly `out`. With compression on, decrypting what is written
/// gives the plaintext back.
pub proof fn law_plain_script_is_reencrypted(
    rt: Runtime,
    call: CallView,
    meta: FileMeta,
    data: Seq<u8>,
    p: Seq<u8>,
    out: Seq<u8>,
)
    requires
        decrypt_spec(rt.key@, data, rt.compression) == DecryptOutcome::Unencrypted(p)
            || decrypt_spec(rt.key@, data, rt.compression) == DecryptOutcome::Uncompressed(p),
        encrypt_result_ok(rt.key@, p, call.name, rt.compression, out),
    ensures
        rt.after_contents_spec(call, meta, data) matches Ok((_, RequestView::Write(_, written)))
            && written == out,
        rt.compression ==> decrypt_spec(rt.key@, out, rt.compression)
            == DecryptOutcome::Encrypted(p),
        decrypt_spec(rt.key@, data, rt.compression) is Uncompressed ==> decrypt_spec(
            rt.key@,
            out,
            rt.compression,
        ) == DecryptOutcome::Encrypted(p),
{
    lemma_uncompressed_needs_compression(rt.key@, data);
    if rt.compression {
        law_decrypt_inverts_compressed_encrypt(rt.key@, p, call.name, out);
    }
}

/// The line injected into a saved level holds the file name byte for byte:
/// `filename = "`, then each byte of the name unchanged (no case mapping, no
/// escaping), then `"` and a newline.
pub proof fn law_level_header_holds_name(name: Seq<u8>)
    ensures
        level_header(name).len() == name.len() + 14,
        level_header(name).take(12) == LEVEL_HEADER_START@,
        forall|i: int| 0 <= i < name.len() ==> #[trigger] level_header(name)[12 + i] == name[i],
        level_header(name)[12 + name.len() as int] == 0x22u8,
        level_header(name)[13 + name.len() as int] == 0x0Au8,
{
    let h = level_header(name);
    assert(h.take(12) =~= LEVEL_HEADER_START@);
    assert forall|i: int| 0 <= i < name.len() implies #[trigger] h[12 + i] == name[i] by {}
}

/// Writing a handled level with injection on creates the level file itself
/// with a first line that names it: the request is `Create(file, header)`
/// where the header holds the file's name unchanged after `filename = "`,
/// and the game then appends to that file.
pub proof fn law_level_write_names_its_file(
    rt: Runtime,
    file: Seq<Comp>,
    text: PathTextView,
    mode: Seq<u8>,
    name: Seq<u8>,
)
    requires
        handles(rt, file),
        !mode.contains(0x72u8),
        mode.contains(0x77u8),
        rt.inject_level_filename,
        file_name(file) == Some(name),
    ensures
        rt.begin_spec(file, text, mode).0 == StateView::AwaitCreate(
            RoutingView::Route(file, RouteMode::Append),
        ),
        rt.begin_spec(file, text, mode).1 matches RequestView::Create(target, header) && {
            &&& target == file
            &&& header.len() == name.len() + 14
            &&& header.subrange(12, 12 + name.len() as int) == name
        },
{
    let rel = strip_prefix(file, rt.spec_current_path());
    let call = CallView {
        original: file,
        rel,
        name: entry_name(text, rel is Some, rt.spec_current_path().len() as int),
        mode,
    };
    assert(call_path(call) == known_path(rt, file));
    law_level_header_holds_name(name);
    assert(level_header(name).subrange(12, 12 + name.len() as int) =~= name);
}

/// A second open of a handled script that has not changed is a cache hit
/// with the same routing. The first open of `file` asked for its metadata,
/// found a regular file (`meta`), read it (`data`) and wrote its output,
/// which the cache recorded; that call ends, once the cache is stored, with
/// `routing`. Opening the same file again, with the same metadata and the
/// output still there, asks for the metadata, then whether the output
/// exists, and ends with the same routing: nothing is read, decrypted,
/// encrypted or written.
pub proof fn law_second_open_hits_cache(
    first: Runtime,
    second: Runtime,
    file: Seq<Comp>,
    text: PathTextView,
    mode: Seq<u8>,
    call: CallView,
    meta: FileMeta,
    data: Seq<u8>,
    routing: RoutingView,
    encrypt: bool,
    output: Seq<Comp>,
    written: Seq<u8>,
)
    requires
        first.cache is Some,
        first.begin_spec(file, text, mode) == (
            StateView::AwaitMetadata(call),
            RequestView::Metadata(file),
        ),
        meta.is_file,
        first.after_contents_spec(call, meta, data) == Ok::<(StateView, RequestView), StepError>(
            (
                StateView::AwaitWrite(call, meta, routing, encrypt),
                RequestView::Write(output, written),
            ),
        ),
        second.cache_view() == first.cache_after_spec(
            StateView::AwaitWrite(call, meta, routing, encrypt),
            ReplyView::Done,
        ),
        second.encryption_path == first.encryption_path,
        second.decryption_path == first.decryption_path,
        second.spec_current_path() == first.spec_current_path(),
    ensures
        first.after_write_spec(routing) == (StateView::AwaitSave(routing), RequestView::SaveCache),
        second.begin_spec(file, text, mode) == first.begin_spec(file, text, mode),
        second.after_metadata_spec(call, Some(meta)) == (
            StateView::AwaitExists(call, meta, encrypt, output),
            RequestView::Exists(output),
        ),
        second.after_exists_spec(call, meta, encrypt, output, true) == finish(routing),
{
    law_handled_script_is_cached(first, second, call, meta, routing, encrypt);
}

/// The path a script is known by.
fn call_path_of(call: &FileCall) -> (path: &ScriptPath)
    ensures
        path@ == call_path(call@),
{
    match &call.rel {
        Some(rel) => rel,
        None => &call.original,
    }
}

/// The text of what remains of a path after its first `k` components.
fn rest_text_of(text: &PathText, k: usize) -> (rest: &[u8])
    ensures
        rest@ == rest_text(text@, k as int),
{
    if k < text.rests.len() {
        text.rests[k].as_slice()
    } else {
        &[]
    }
}

/// The text with every `\` replaced by `/`.
pub fn slashed_bytes(text: &[u8]) -> (out: Vec<u8>)
    ensures
        out@ == slashed(text@),
{
    let mut out: Vec<u8> = Vec::new();
    let mut i: usize = 0;
    while i < text.len()
        invariant
            i <= text@.len(),
            out@ =~= slashed(text@.take(i as int)),
        decreases text@.len() - i,
    {
        let b = text[i];
        out.push(if b == 0x5C { 0x2F } else { b });
        i = i + 1;
    }
    assert(text@.take(text@.len() as int) =~= text@);
    out
}

/// Whether `bytes` holds the byte `b`.
pub fn has_byte(bytes: &[u8], b: u8) -> (res: bool)
    ensures
        res == bytes@.contains(b),
{
    let mut i: usize = 0;
    while i < bytes.len()
        invariant
            i <= bytes@.len(),
            forall|j: int| 0 <= j < i ==> bytes@[j] != b,
        decreases bytes@.len() - i,
    {
        if bytes[i] == b {
            assert(bytes@[i as int] == b);
            return true;
        }
        i = i + 1;
    }
    false
}

/// The line written at the head of a saved level named `name`.
pub fn level_header_bytes(name: &[u8]) -> (header: Vec<u8>)
    ensures
        header@ == level_header(name@),
{
    let mut header: Vec<u8> = Vec::new();
    let mut i: usize = 0;
    while i < 12
        invariant
            i <= 12,
            header@ =~= LEVEL_HEADER_START@.take(i as int),
        decreases 12 - i,
    {
        header.push(LEVEL_HEADER_START[i]);
        i = i + 1;
    }
    crate::bytes::append_bytes(&mut header, name);
    header.push(0x22);
    header.push(0x0A);
    assert(header@ =~= level_header(name@));
    header
}

} // verus!
