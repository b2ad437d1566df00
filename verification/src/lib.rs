//! Per-executable isolated runtime environments for a Windows compatibility
//! layer: a persistent identity map from executable paths to environment
//! directories, detection of executables that already live inside an
//! environment's runtime prefix, and idempotent, crash-safe tracking of
//! one-time setup actions ("tricks") applied to each environment.
pub mod codec;
pub mod detect;
pub mod envmgr;
pub mod errors;
pub mod identity;
pub mod path;
pub mod strutil;
pub mod tricks;
