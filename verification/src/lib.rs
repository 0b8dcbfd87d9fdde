//! Package-archive handling and OS-version compatibility resolution for an
//! embedded device's package manager: a version comparator, an index decoder
//! for the signed multi-segment archive format, a compatibility resolver, and
//! builders for signed package and index archives.

pub mod apk;
pub mod archive;
pub mod chars;
pub mod commands;
pub mod compat;
pub mod device;
pub mod errors;
pub mod index;
pub mod outside;
pub mod pkgmeta;
pub mod state;
pub mod util;
pub mod version;

pub use errors::ApkError;
