//! Verified core of a plugin that lets a game load unencrypted Lua scripts:
//! it recognises AES-256-CBC encrypted scripts, decrypts them, encrypts plain
//! ones, keeps a cache of what it has done and decides where each `fopen`
//! call is routed.

pub mod archive;
pub mod bytes;
pub mod cache;
pub mod config;
pub mod crypto;
pub mod hook;
pub mod path;
pub mod runtime;
pub mod transform;
pub mod utils;
