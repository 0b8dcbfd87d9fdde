//! The archive builder and the index signer: a signed package is three
//! concatenated gzip streams — a truncated signature archive, a control
//! archive whose metadata carries a hash of the data segment, and the data
//! archive — and a signed index is a truncated signature archive prepended
//! to an unsigned index blob.

use vstd::prelude::*;

use crate::errors::ApkError;
use crate::outside::{
    entry_name_ok, gnu_archive_of, gzip_of, gzip_compress, pkcs1_parse_ok, pkcs8_parse_ok,
    rsa_sig_of, rsa_sign_ok, rsa_sign_sha1, sha1_digest, sha1_of, sha256_hex, sha256_hex_of,
    tar_single_gnu, tar_single_ustar, ustar_archive_of,
};
use vstd::utf8::encode_utf8;

verus! {

broadcast use vstd::string::group_string_axioms;

/// The name under which a signature is stored in its archive segment.
pub open spec fn signature_entry_name() -> Seq<char> {
    ".SIGN.RSA.local.rsa.pub"@
}

/// The name under which control metadata is stored in its archive segment.
pub open spec fn control_entry_name() -> Seq<char> {
    ".PKGINFO"@
}

/// The two 512-byte zero blocks a tar writer appends after the last
/// entry.
pub open spec fn end_of_archive_blocks() -> Seq<u8> {
    Seq::new(1024, |i: int| 0u8)
}

/// An archive with no entries at all: only the end-of-archive blocks.
pub fn empty_archive_bytes() -> (r: Vec<u8>)
    ensures
        r@ == end_of_archive_blocks(),
{
    let mut r: Vec<u8> = Vec::new();
    let mut i: usize = 0;
    while i < 1024
        invariant
            0 <= i <= 1024,
            r@.len() == i,
            forall|j: int| 0 <= j < i ==> r@[j] == 0u8,
        decreases 1024 - i,
    {
        r.push(0u8);
        i += 1;
    }
    assert(r@ =~= end_of_archive_blocks());
    r
}

/// `s` with its trailing end-of-archive blocks removed, so that another
/// stream can follow it without an intervening logical end of archive.
pub open spec fn trunc_padding(s: Seq<u8>) -> Seq<u8> {
    if s.len() > 1024 {
        s.take(s.len() - 1024)
    } else {
        s
    }
}

/// Removes the trailing end-of-archive blocks, per `trunc_padding`.
fn truncate_archive_padding(v: Vec<u8>) -> (r: Vec<u8>)
    ensures
        r@ == trunc_padding(v@),
{
    let mut r = v;
    if r.len() > 1024 {
        let mut i: usize = 0;
        while i < 1024
            invariant
                0 <= i <= 1024,
                v@.len() > 1024,
                r@ == v@.take(v@.len() - i),
            decreases 1024 - i,
        {
            proof {
                assert(r@.drop_last() =~= v@.take(v@.len() - (i + 1)));
            }
            r.pop();
            i += 1;
        }
        r
    } else {
        proof {
            assert(r@ == v@);
        }
        r
    }
}

/// Appends the bytes of `src` to `dst`.
fn append_bytes(dst: &mut Vec<u8>, src: &[u8])
    ensures
        final(dst)@ == old(dst)@ + src@,
{
    let n = src.len();
    let mut i: usize = 0;
    proof {
        assert(old(dst)@ + src@.take(0) =~= old(dst)@);
    }
    while i < n
        invariant
            0 <= i <= n,
            n == src@.len(),
            dst@ == old(dst)@ + src@.take(i as int),
        decreases n - i,
    {
        dst.push(src[i]);
        proof {
            assert(old(dst)@ + src@.take(i + 1) =~= (old(dst)@ + src@.take(i as int)).push(
                src@[i as int],
            ));
        }
        i += 1;
    }
    proof {
        assert(src@.take(n as int) =~= src@);
    }
}

/// One file carried in a package's data segment.
pub struct PayloadEntry {
    pub name: String,
    pub data: Vec<u8>,
}

/// The mathematical reading of a `PayloadEntry`.
pub struct PayloadModel {
    pub name: Seq<char>,
    pub data: Seq<u8>,
}

impl View for PayloadEntry {
    type V = PayloadModel;

    open spec fn view(&self) -> PayloadModel {
        PayloadModel { name: self.name@, data: self.data@ }
    }
}

impl DeepView for PayloadEntry {
    type V = PayloadModel;

    open spec fn deep_view(&self) -> PayloadModel {
        self.view()
    }
}

/// Every payload entry's name fits a tar header.
pub open spec fn payload_names_ok(es: Seq<PayloadModel>) -> bool {
    forall|i: int| 0 <= i < es.len() ==> entry_name_ok(#[trigger] es[i].name)
}

/// The tar image of a data segment: each entry's single-entry archive
/// with its end-of-archive blocks removed, concatenated, and the blocks
/// restored once at the end.
pub open spec fn payload_tar(es: Seq<PayloadModel>) -> Seq<u8>
    decreases es.len(),
{
    if es.len() == 0 {
        end_of_archive_blocks()
    } else {
        trunc_padding(ustar_archive_of(es[0].name, es[0].data)) + payload_tar(es.drop_first())
    }
}

/// Builds and compresses the data segment from the payload entries; with
/// no entries it is an empty archive.
pub fn build_data_segment(entries: &Vec<PayloadEntry>) -> (r: Vec<u8>)
    requires
        payload_names_ok(entries.deep_view()),
    ensures
        r@ == gzip_of(6, payload_tar(entries.deep_view())),
{
    let ghost es = entries.deep_view();
    let n = entries.len();
    let mut tar: Vec<u8> = Vec::new();
    let mut i: usize = 0;
    proof {
        assert(es.skip(0) =~= es);
        assert(tar@ + payload_tar(es) =~= payload_tar(es));
    }
    while i < n
        invariant
            0 <= i <= n,
            n == entries.len(),
            es == entries.deep_view(),
            payload_names_ok(es),
            payload_tar(es) =~= tar@ + payload_tar(es.skip(i as int)),
        decreases n - i,
    {
        let entry = &entries[i];
        proof {
            assert(es.skip(i as int)[0] == es[i as int]);
            assert(es.skip(i as int).drop_first() =~= es.skip(i + 1int));
        }
        let single = tar_single_ustar(entry.name.as_str(), entry.data.as_slice());
        let mut piece = truncate_archive_padding(single);
        tar.append(&mut piece);
        i += 1;
    }
    proof {
        assert(es.skip(n as int) =~= Seq::<PayloadModel>::empty());
    }
    let mut blocks = empty_archive_bytes();
    tar.append(&mut blocks);
    gzip_compress(tar.as_slice(), 6)
}

/// The control metadata text: the template with the hash of the
/// compressed data segment appended as its `datahash` field.
pub open spec fn control_text(pkginfo: Seq<char>, data_gz: Seq<u8>) -> Seq<char> {
    pkginfo + "datahash = "@ + sha256_hex_of(data_gz) + "\n"@
}

/// The compressed control segment: a single-entry archive holding the
/// control text.
pub open spec fn control_segment(pkginfo: Seq<char>, data_gz: Seq<u8>) -> Seq<u8> {
    gzip_of(6, ustar_archive_of(control_entry_name(), encode_utf8(control_text(pkginfo, data_gz))))
}

proof fn lemma_control_name_ok()
    ensures
        entry_name_ok(control_entry_name()),
{
    reveal_strlit(".PKGINFO");
    reveal_strlit(".");
    reveal_strlit("..");
    assert(control_entry_name().len() == 8);
    assert(("."@).len() == 1);
    assert((".."@).len() == 2);
}

proof fn lemma_signature_name_ok()
    ensures
        entry_name_ok(signature_entry_name()),
{
    reveal_strlit(".SIGN.RSA.local.rsa.pub");
    reveal_strlit(".");
    reveal_strlit("..");
    assert(signature_entry_name().len() == 23);
    assert(("."@).len() == 1);
    assert((".."@).len() == 2);
}

/// Builds and compresses the control segment for a metadata template,
/// hashing the already-compressed data segment into it.
pub fn build_control_segment(pkginfo: &str, data_gz: &[u8]) -> (r: Vec<u8>)
    ensures
        r@ == control_segment(pkginfo@, data_gz@),
{
    let hex = sha256_hex(data_gz);
    let mut text = pkginfo.to_owned();
    text.append("datahash = ");
    text.append(hex.as_str());
    text.append("\n");
    assert(text@ == control_text(pkginfo@, data_gz@));
    proof {
        lemma_control_name_ok();
    }
    let tarred = tar_single_ustar(".PKGINFO", text.as_str().as_bytes());
    gzip_compress(tarred.as_slice(), 6)
}

/// The compressed, truncated signature segment of a package archive.
pub open spec fn package_signature_segment(sig: Seq<u8>) -> Seq<u8> {
    gzip_of(6, trunc_padding(ustar_archive_of(signature_entry_name(), sig)))
}

/// The compressed, truncated signature segment of a signed index.
pub open spec fn index_signature_segment(sig: Seq<u8>) -> Seq<u8> {
    gzip_of(9, trunc_padding(gnu_archive_of(signature_entry_name(), sig)))
}

/// The complete signed package for a given signature value.
pub open spec fn signed_package_bytes(
    pkginfo: Seq<char>,
    payload: Seq<PayloadModel>,
    sig: Seq<u8>,
) -> Seq<u8> {
    let data_gz = gzip_of(6, payload_tar(payload));
    package_signature_segment(sig) + control_segment(pkginfo, data_gz) + data_gz
}

/// A signed index: the signature segment prepended to the unsigned blob.
pub open spec fn signed_index_bytes(unsigned: Seq<u8>, sig: Seq<u8>) -> Seq<u8> {
    index_signature_segment(sig) + unsigned
}

/// The digest a package's signature covers: the SHA-1 of the compressed
/// control segment.
pub open spec fn package_digest(pkginfo: Seq<char>, payload: Seq<PayloadModel>) -> Seq<u8> {
    sha1_of(control_segment(pkginfo, gzip_of(6, payload_tar(payload))))
}

/// The key in `pem` parses under one of the two supported encodings and
/// accepts the digest, so signing with it succeeds.
pub open spec fn key_signs(pem: Seq<char>, digest: Seq<u8>) -> bool {
    (pkcs1_parse_ok(pem) || pkcs8_parse_ok(pem)) && rsa_sign_ok(pem, digest)
}

/// Concatenates the three segments of a signed package around an
/// already-computed signature: whatever bytes the signing primitive
/// returned, the output is exactly the truncated signature segment, the
/// control segment, then the data segment.
pub fn seal_package(signature: &[u8], control_gz: &[u8], data_gz: &[u8]) -> (r: Vec<u8>)
    ensures
        r@ == package_signature_segment(signature@) + control_gz@ + data_gz@,
{
    proof {
        lemma_signature_name_ok();
    }
    let tarred = tar_single_ustar(".SIGN.RSA.local.rsa.pub", signature);
    let trimmed = truncate_archive_padding(tarred);
    let mut out = gzip_compress(trimmed.as_slice(), 6);
    append_bytes(&mut out, control_gz);
    append_bytes(&mut out, data_gz);
    proof {
        assert(out@ =~= package_signature_segment(signature@) + control_gz@ + data_gz@);
    }
    out
}

/// Builds a complete signed package archive: the data segment is built
/// and hashed first, the control segment carries that hash, a SHA-1
/// digest of the compressed control segment is signed with the key, and
/// the three segments are concatenated. Succeeds exactly when the key
/// signs that digest, and the output is then the signed layout around
/// that key's signature; fails with `Key` exactly when the key text
/// parses under neither supported encoding, and with `Sign` when the
/// signing primitive rejects its input.
pub fn build_signed_package(pkginfo: &str, payload: &Vec<PayloadEntry>, key_pem: &str) -> (r:
    Result<Vec<u8>, ApkError>)
    requires
        payload_names_ok(payload.deep_view()),
    ensures
        r is Ok <==> key_signs(key_pem@, package_digest(pkginfo@, payload.deep_view())),
        r matches Ok(out) ==> out@ == signed_package_bytes(
            pkginfo@,
            payload.deep_view(),
            rsa_sig_of(key_pem@, package_digest(pkginfo@, payload.deep_view())),
        ),
        (r matches Err(e) && e == ApkError::Key) <==> !(pkcs1_parse_ok(key_pem@)
            || pkcs8_parse_ok(key_pem@)),
        r matches Err(e) ==> e == ApkError::Key || e == ApkError::Sign,
{
    let data_gz = build_data_segment(payload);
    let control_gz = build_control_segment(pkginfo, data_gz.as_slice());
    let digest = sha1_digest(control_gz.as_slice());
    proof {
        assert(digest@ == package_digest(pkginfo@, payload.deep_view()));
    }
    let signature = match rsa_sign_sha1(key_pem, digest.as_slice()) {
        Ok(s) => s,
        Err(e) => {
            return Err(e);
        },
    };
    let out = seal_package(signature.as_slice(), control_gz.as_slice(), data_gz.as_slice());
    proof {
        assert(out@ == signed_package_bytes(pkginfo@, payload.deep_view(), signature@));
    }
    Ok(out)
}

/// Prepends the index signature segment for an already-computed signature
/// to the unsigned index bytes.
pub fn seal_signed_index(signature: &[u8], unsigned: &[u8]) -> (r: Vec<u8>)
    ensures
        r@ == signed_index_bytes(unsigned@, signature@),
{
    proof {
        lemma_signature_name_ok();
    }
    let tarred = tar_single_gnu(".SIGN.RSA.local.rsa.pub", signature);
    let trimmed = truncate_archive_padding(tarred);
    let mut out = gzip_compress(trimmed.as_slice(), 9);
    append_bytes(&mut out, unsigned);
    out
}

/// Signs a previously assembled unsigned index blob: a SHA-1 digest over
/// the whole blob is signed and that key's signature segment is
/// prepended. With no key the unsigned bytes are returned unchanged;
/// with one, success is owed exactly when the key signs the digest, and
/// failure kinds are as for the package builder.
pub fn sign_index(unsigned: &[u8], key_pem: Option<&str>) -> (r: Result<Vec<u8>, ApkError>)
    ensures
        key_pem is None ==> (r matches Ok(v) && v@ == unsigned@),
        key_pem matches Some(pem) ==> {
            &&& (r is Ok <==> key_signs(pem@, sha1_of(unsigned@)))
            &&& (r matches Ok(v) ==> v@ == signed_index_bytes(
                unsigned@,
                rsa_sig_of(pem@, sha1_of(unsigned@)),
            ))
            &&& ((r matches Err(e) && e == ApkError::Key) <==> !(pkcs1_parse_ok(pem@)
                || pkcs8_parse_ok(pem@)))
            &&& (r matches Err(e) ==> e == ApkError::Key || e == ApkError::Sign)
        },
{
    let pem = match key_pem {
        None => {
            return Ok(vstd::slice::slice_to_vec(unsigned));
        },
        Some(p) => p,
    };
    let digest = sha1_digest(unsigned);
    let signature = match rsa_sign_sha1(pem, digest.as_slice()) {
        Ok(s) => s,
        Err(e) => {
            return Err(e);
        },
    };
    let out = seal_signed_index(signature.as_slice(), unsigned);
    proof {
        assert(out@ == signed_index_bytes(unsigned@, signature@));
    }
    Ok(out)
}

} // verus!
