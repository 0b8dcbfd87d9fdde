//! Error kinds surfaced by the archive builders, the index signer and the
//! index decoder.

use vstd::prelude::*;

verus! {

/// The distinct failure kinds of this library.
///
/// `Format` covers a required entry missing from an archive or a corrupt
/// compressed stream; `Key` a private key that neither supported encoding
/// can parse; `Sign` a signing primitive that rejects its input.
#[derive(Clone, Copy, Debug, PartialEq, Eq, Structural)]
pub enum ApkError {
    Format,
    Key,
    Sign,
}

} // verus!
