# autoenc

A plugin for Angry Birds modding that lets the game load unencrypted Lua
scripts. It hooks the game's `fopen` calls and:

1. decrypts encrypted scripts into the decryption directory (`dec/`);
2. encrypts plain scripts into the encryption directory (`enc/`) and lets the
   game load the encrypted copy;
3. when a level file is saved, writes `filename = "...lua"` at its head.

Scripts may be packed in a single-file 7z archive before encryption.

## Layout

- `src/` is the verified library (Verus):
  - `crypto.rs`: AES-256-CBC and PKCS#7 over byte sequences, and the trusted
    calls into `cbc`/`aes`/`cipher` and `std::str::from_utf8`;
  - `archive.rs`: the trusted calls into `sevenz_rust2`;
  - `transform.rs`: recognising, decrypting and encrypting scripts, and the
    laws that decryption undoes encryption;
  - `path.rs`: paths as sequences of components and the operations routing needs;
  - `cache.rs`: the cache of handled scripts;
  - `config.rs`: the configuration;
  - `runtime.rs`: the decisions of the `fopen` hook, as a step machine that
    asks its caller for each piece of file work;
  - `hook.rs`: finding the import-address-table entry to patch;
  - `utils.rs`, `bytes.rs`: small decisions and byte-string operations.
- `app/` is the DLL around it: the hooks and proxy exports (Windows only),
  reading `autoenc.toml`, storing the cache, logging, and the file I/O.
- `tests/` runs the library.
