//! Tools for obfuscated script bytecode: the reversible byte-shift transform,
//! a structural decoder for the bytecode container, and the reattachment of
//! recovered debug information onto decompiled text.

/// Reattaching decoded debug information onto decompiled text.
pub mod annotate;
/// Byte-level reads, searches and edits as a trait on `Vec<u8>`.
pub mod buffer;
/// Searching, replacing and inserting byte strings.
pub mod bytes;
/// Executable patch patterns, platforms, hex text and indent text.
pub mod catalog;
/// Identifying and de-obfuscating structural bytecode files.
pub mod container;
/// The structural bytecode grammar and its decoder.
pub mod decoder;
/// Errors of identification and decoding.
pub mod error;
/// Finding where a function is defined in decompiled text.
pub mod locate;
/// Identifying and de-obfuscating the older bytecode format.
pub mod luajit;
/// A located function definition and its rewrites.
pub mod parser;
/// Locating and applying executable patches.
pub mod patch;
/// The decoded model of a function.
pub mod prototype;
/// Locking state of shapes files.
pub mod shapes;
/// The reversible byte-shift transform and its key tables.
pub mod shift;
/// Trimming, splitting, joining and small text patterns.
pub mod text;
/// UTF-8 validity.
pub mod utf8;
