//! A local file-inventory engine: ignore rules, directory listings,
//! per-extension statistics and text decoding with legacy fallbacks.

pub mod text;
pub mod language;
pub mod ignore;
pub mod scanner;
pub mod aggregate;
pub mod decode;
pub mod commands;
