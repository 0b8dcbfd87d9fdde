//! The trusted boundary to the outside crates: compression, tar archive
//! reading and writing, digests, and RSA key parsing and signing. Each
//! wrapper's contract states only what the crate's source shows; results
//! that are functions of the arguments alone are given uninterpreted
//! names.

use vstd::prelude::*;

use crate::errors::ApkError;
use pkcs1::DecodeRsaPrivateKey;
use pkcs8::DecodePrivateKey;
use vstd::utf8::{decode_utf8, valid_utf8};

verus! {

/// The gzip stream that flate2 writes for `data` at compression `level`.
pub uninterp spec fn gzip_of(level: int, data: Seq<u8>) -> Seq<u8>;

/// Relies on flate2's `write::GzEncoder`: with a fixed level the stream
/// written for given bytes is always the same (the header carries mtime 0
/// and the unknown-OS byte), and writing into a `Vec` cannot fail.
#[verifier::external_body]
pub(crate) fn gzip_compress(data: &[u8], level: u32) -> (r: Vec<u8>)
    requires
        level <= 9,
    ensures
        r@ == gzip_of(level as int, data@),
{
    let mut gz = flate2::write::GzEncoder::new(Vec::new(), flate2::Compression::new(level));
    std::io::Write::write_all(&mut gz, data).unwrap();
    gz.finish().unwrap()
}

/// What decompressing `data` as a sequence of concatenated gzip members
/// yields, or `None` where the stream is not valid.
pub uninterp spec fn gunzip_concat_of(data: Seq<u8>) -> Option<Seq<u8>>;

/// Relies on flate2's `MultiGzDecoder`, which reads past each member's
/// end-of-stream marker into the next concatenated member instead of
/// stopping at the first; success and output are functions of the bytes
/// alone.
#[verifier::external_body]
pub(crate) fn gunzip_concat(data: &[u8]) -> (r: Result<Vec<u8>, ()>)
    ensures
        r is Ok <==> gunzip_concat_of(data@) is Some,
        r matches Ok(v) ==> gunzip_concat_of(data@) == Some(v@),
{
    let mut out = Vec::new();
    let mut gz = flate2::bufread::MultiGzDecoder::new(data);
    match std::io::Read::read_to_end(&mut gz, &mut out) {
        Ok(_) => Ok(out),
        Err(_) => Err(()),
    }
}

/// A name that can stand in a tar header: short, graphic ASCII, no
/// separator, and not a relative-path component.
pub open spec fn entry_name_ok(name: Seq<char>) -> bool {
    &&& 1 <= name.len() <= 100
    &&& forall|i: int|
        0 <= i < name.len() ==> 0x21 <= #[trigger] name[i] as u32 <= 0x7E && name[i] != '/'
    &&& name != "."@
    &&& name != ".."@
}

/// The tar archive holding one regular entry `name` with mode 0644 and
/// contents `data`, in ustar format.
pub uninterp spec fn ustar_archive_of(name: Seq<char>, data: Seq<u8>) -> Seq<u8>;

/// Relies on tar's `Header::new_ustar` and `Builder`: with all other
/// metadata zeroed the archive bytes are determined by name and contents;
/// the entry's data is padded to a 512-byte block and the archive ends
/// with two zero blocks; writing into a `Vec` cannot fail, and a short
/// plain name cannot make `set_path` fail.
#[verifier::external_body]
pub(crate) fn tar_single_ustar(name: &str, data: &[u8]) -> (r: Vec<u8>)
    requires
        entry_name_ok(name@),
    ensures
        r@ == ustar_archive_of(name@, data@),
        r@.len() == 1536 + ((data@.len() + 511) / 512) * 512,
{
    let mut header = tar::Header::new_ustar();
    header.set_path(name).unwrap();
    header.set_mode(0o644);
    header.set_size(data.len() as u64);
    header.set_entry_type(tar::EntryType::Regular);
    header.set_cksum();
    let mut buf = Vec::new();
    let mut tarball = tar::Builder::new(&mut buf);
    tarball.append(&header, data).unwrap();
    tarball.finish().unwrap();
    drop(tarball);
    buf
}

/// As `ustar_archive_of`, in GNU header format.
pub uninterp spec fn gnu_archive_of(name: Seq<char>, data: Seq<u8>) -> Seq<u8>;

/// Relies on tar's `Header::new_gnu` and `Builder`, as the ustar wrapper
/// does.
#[verifier::external_body]
pub(crate) fn tar_single_gnu(name: &str, data: &[u8]) -> (r: Vec<u8>)
    requires
        entry_name_ok(name@),
    ensures
        r@ == gnu_archive_of(name@, data@),
        r@.len() == 1536 + ((data@.len() + 511) / 512) * 512,
{
    let mut header = tar::Header::new_gnu();
    header.set_path(name).unwrap();
    header.set_mode(0o644);
    header.set_size(data.len() as u64);
    header.set_entry_type(tar::EntryType::Regular);
    header.set_cksum();
    let mut buf = Vec::new();
    let mut tarball = tar::Builder::new(&mut buf);
    tarball.append(&header, data).unwrap();
    tarball.finish().unwrap();
    drop(tarball);
    buf
}

/// The entries of the tar byte image `data`, each as its path text and
/// contents, or `None` where reading the archive fails.
pub uninterp spec fn tar_entries_of(data: Seq<u8>) -> Option<Seq<(Seq<char>, Seq<u8>)>>;

/// Relies on tar's `Archive`: iterating the entries of an in-memory image
/// and reading each one's raw path bytes (decoded lossily, the same on
/// every target) and contents is a function of the bytes alone.
#[verifier::external_body]
pub(crate) fn tar_list_entries(data: &[u8]) -> (r: Result<Vec<(String, Vec<u8>)>, ()>)
    ensures
        r is Ok <==> tar_entries_of(data@) is Some,
        r matches Ok(v) ==> tar_entries_of(data@) == Some(v.deep_view()),
{
    let mut archive = tar::Archive::new(data);
    let mut out: Vec<(String, Vec<u8>)> = Vec::new();
    for entry in archive.entries().map_err(|_| ())? {
        let mut entry = entry.map_err(|_| ())?;
        let name = String::from_utf8_lossy(&entry.path_bytes()).into_owned();
        let mut buf = Vec::new();
        std::io::Read::read_to_end(&mut entry, &mut buf).map_err(|_| ())?;
        out.push((name, buf));
    }
    Ok(out)
}

/// Relies on `core::str::from_utf8`: it accepts exactly the valid UTF-8
/// byte sequences, viewing the same bytes, so the text is the decoding of
/// the input.
#[verifier::external_body]
pub(crate) fn utf8_checked(data: &[u8]) -> (r: Option<&str>)
    ensures
        r is Some <==> valid_utf8(data@),
        r matches Some(s) ==> s@ == decode_utf8(data@),
{
    std::str::from_utf8(data).ok()
}

/// The SHA-256 digest of `data` as lowercase hex.
pub uninterp spec fn sha256_hex_of(data: Seq<u8>) -> Seq<char>;

/// Relies on sha2's `Sha256` and lowercase-hex formatting: 64 hex digits
/// determined by the bytes alone.
#[verifier::external_body]
pub(crate) fn sha256_hex(data: &[u8]) -> (r: String)
    ensures
        r@ == sha256_hex_of(data@),
        r@.len() == 64,
{
    format!("{:x}", <sha2::Sha256 as sha2::Digest>::digest(data))
}

/// The SHA-1 digest of `data`.
pub uninterp spec fn sha1_of(data: Seq<u8>) -> Seq<u8>;

/// Relies on sha1's `Sha1`: a 20-byte digest determined by the bytes
/// alone.
#[verifier::external_body]
pub(crate) fn sha1_digest(data: &[u8]) -> (r: Vec<u8>)
    ensures
        r@ == sha1_of(data@),
        r@.len() == 20,
{
    <sha1::Sha1 as sha1::Digest>::digest(data).to_vec()
}

/// Whether `pem` parses as a PKCS#1 private key.
pub uninterp spec fn pkcs1_parse_ok(pem: Seq<char>) -> bool;

/// Whether `pem` parses as a PKCS#8 private key.
pub uninterp spec fn pkcs8_parse_ok(pem: Seq<char>) -> bool;

/// Whether the key in `pem` accepts `digest` for PKCS#1 v1.5 signing —
/// it rejects a digest of the wrong length, or a key too small for the
/// padded digest.
pub uninterp spec fn rsa_sign_ok(pem: Seq<char>, digest: Seq<u8>) -> bool;

/// The PKCS#1 v1.5 signature that the key in `pem` yields over `digest`.
pub uninterp spec fn rsa_sig_of(pem: Seq<char>, digest: Seq<u8>) -> Seq<u8>;

/// Relies on rsa's `RsaPrivateKey::{from_pkcs1_pem, from_pkcs8_pem}` and
/// `RsaPrivateKey::sign` with `Pkcs1v15Sign` over a SHA-1 digest: parsing
/// under each encoding is a function of the text, and v1.5 padding uses
/// no randomness, so with the fallback order fixed both success and the
/// signature bytes are functions of the key text and the digest alone.
#[verifier::external_body]
pub(crate) fn rsa_sign_sha1(pem: &str, digest: &[u8]) -> (r: Result<Vec<u8>, ApkError>)
    ensures
        r is Ok <==> ((pkcs1_parse_ok(pem@) || pkcs8_parse_ok(pem@)) && rsa_sign_ok(
            pem@,
            digest@,
        )),
        r matches Ok(v) ==> v@ == rsa_sig_of(pem@, digest@),
        r matches Err(e) ==> ((e == ApkError::Key) <==> !(pkcs1_parse_ok(pem@)
            || pkcs8_parse_ok(pem@))),
        r matches Err(e) ==> e == ApkError::Key || e == ApkError::Sign,
{
    let key = rsa::RsaPrivateKey::from_pkcs1_pem(pem)
        .or_else(|_| rsa::RsaPrivateKey::from_pkcs8_pem(pem))
        .map_err(|_| ApkError::Key)?;
    key.sign(rsa::pkcs1v15::Pkcs1v15Sign::new::<sha1::Sha1>(), digest).map_err(
        |_| ApkError::Sign,
    )
}

} // verus!
