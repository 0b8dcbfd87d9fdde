use std::io::{Read, Write};

use flate2::bufread::MultiGzDecoder;
use flate2::write::GzEncoder;
use flate2::Compression;
use rand::SeedableRng;
use rsa::pkcs1::EncodeRsaPrivateKey;
use rsa::pkcs1v15::Pkcs1v15Sign;
use rsa::pkcs8::EncodePrivateKey;
use rsa::RsaPrivateKey;
use sha1::{Digest as Sha1Digest, Sha1};
use sha2::{Digest as Sha256Digest, Sha256};

use vellum::archive::{build_signed_package, sign_index, PayloadEntry};
use vellum::errors::ApkError;
use vellum::index::parse_index_bytes;

fn test_key(bits: usize) -> RsaPrivateKey {
    let mut rng = rand::rngs::StdRng::seed_from_u64(7);
    RsaPrivateKey::new(&mut rng, bits).expect("key generation")
}

fn gzip_default(data: &[u8]) -> Vec<u8> {
    let mut gz = GzEncoder::new(Vec::new(), Compression::default());
    gz.write_all(data).unwrap();
    gz.finish().unwrap()
}

fn tar_single(name: &str, data: &[u8]) -> Vec<u8> {
    let mut header = tar::Header::new_ustar();
    header.set_path(name).unwrap();
    header.set_mode(0o644);
    header.set_size(data.len() as u64);
    header.set_entry_type(tar::EntryType::Regular);
    header.set_cksum();
    let mut buf = Vec::new();
    let mut builder = tar::Builder::new(&mut buf);
    builder.append(&header, data).unwrap();
    builder.finish().unwrap();
    drop(builder);
    buf
}

fn untar_all(data: &[u8]) -> Vec<(String, Vec<u8>)> {
    let mut archive = tar::Archive::new(data);
    let mut out = Vec::new();
    for entry in archive.entries().unwrap() {
        let mut entry = entry.unwrap();
        let name = entry.path().unwrap().to_string_lossy().into_owned();
        let mut buf = Vec::new();
        entry.read_to_end(&mut buf).unwrap();
        out.push((name, buf));
    }
    out
}

#[test]
fn signed_package_round_trip() {
    let key = test_key(512);
    let pem = key.to_pkcs1_pem(rsa::pkcs1::LineEnding::LF).unwrap();
    let pkginfo = "pkgname = demo\npkgver = 1.0-r0\n";

    let bytes = build_signed_package(pkginfo, &Vec::new(), &pem).unwrap();

    // all three concatenated streams decompress in one pass
    let mut gz = MultiGzDecoder::new(&bytes[..]);
    let mut all = Vec::new();
    gz.read_to_end(&mut all).unwrap();
    let entries = untar_all(&all);
    assert_eq!(entries.len(), 2);
    assert_eq!(entries[0].0, ".SIGN.RSA.local.rsa.pub");
    assert_eq!(entries[1].0, ".PKGINFO");

    // the control entry carries the hash of the compressed empty data segment
    let data_gz = gzip_default(&[0u8; 1024]);
    let datahash = format!("{:x}", Sha256::digest(&data_gz));
    let control_text = format!("{pkginfo}datahash = {datahash}\n");
    assert_eq!(entries[1].1, control_text.as_bytes());

    // the signature verifies over the compressed control segment
    let control_gz = gzip_default(&tar_single(".PKGINFO", control_text.as_bytes()));
    let digest = Sha1::digest(&control_gz);
    key.to_public_key()
        .verify(Pkcs1v15Sign::new::<Sha1>(), &digest, &entries[0].1)
        .expect("signature verifies");

    // the output ends with exactly the control and data segments
    let tail_len = control_gz.len() + data_gz.len();
    assert!(bytes.len() > tail_len);
    assert_eq!(&bytes[bytes.len() - tail_len..bytes.len() - data_gz.len()], &control_gz[..]);
    assert_eq!(&bytes[bytes.len() - data_gz.len()..], &data_gz[..]);
}

#[test]
fn signed_package_carries_payload() {
    let key = test_key(512);
    let pem = key.to_pkcs1_pem(rsa::pkcs1::LineEnding::LF).unwrap();
    let payload = vec![
        PayloadEntry { name: "hello.txt".to_string(), data: b"hello world".to_vec() },
        PayloadEntry { name: "empty.txt".to_string(), data: Vec::new() },
    ];

    let bytes = build_signed_package("pkgname = demo\n", &payload, &pem).unwrap();

    // the data segment concatenates each entry's truncated archive and
    // closes with one end-of-archive marker
    let mut data_tar = Vec::new();
    let one = tar_single("hello.txt", b"hello world");
    data_tar.extend_from_slice(&one[..one.len() - 1024]);
    let two = tar_single("empty.txt", b"");
    data_tar.extend_from_slice(&two[..two.len() - 1024]);
    data_tar.extend_from_slice(&[0u8; 1024]);
    let data_gz = gzip_default(&data_tar);
    assert!(bytes.len() > data_gz.len());
    assert_eq!(&bytes[bytes.len() - data_gz.len()..], &data_gz[..]);

    // and that concatenation reads back as one archive of both files
    let entries = untar_all(&data_tar);
    assert_eq!(entries.len(), 2);
    assert_eq!(entries[0].0, "hello.txt");
    assert_eq!(entries[0].1, b"hello world");
    assert_eq!(entries[1].0, "empty.txt");
    assert!(entries[1].1.is_empty());
}

#[test]
fn build_rejects_unparsable_key() {
    let result = build_signed_package("pkgname = demo\n", &Vec::new(), "not a pem at all");
    assert!(matches!(result, Err(ApkError::Key)));
}

#[test]
fn build_accepts_pkcs8_key() {
    let key = test_key(512);
    let pem = key.to_pkcs8_pem(rsa::pkcs8::LineEnding::LF).unwrap();
    assert!(build_signed_package("pkgname = demo\n", &Vec::new(), &pem).is_ok());
}

#[test]
fn build_rejects_too_small_key() {
    let key = test_key(256);
    let pem = key.to_pkcs1_pem(rsa::pkcs1::LineEnding::LF).unwrap();
    let result = build_signed_package("pkgname = demo\n", &Vec::new(), &pem);
    assert!(matches!(result, Err(ApkError::Sign)));
}

#[test]
fn sign_index_without_key_returns_input() {
    let unsigned = b"anything at all".to_vec();
    let out = sign_index(&unsigned, None).unwrap();
    assert_eq!(out, unsigned);
}

#[test]
fn sign_index_prepends_verifiable_signature() {
    let key = test_key(512);
    let pem = key.to_pkcs1_pem(rsa::pkcs1::LineEnding::LF).unwrap();
    let unsigned = gzip_default(&tar_single("APKINDEX", b"P:pkg1\nV:1.0\n"));

    let out = sign_index(&unsigned, Some(&pem)).unwrap();

    // the unsigned blob follows the signature segment unchanged
    assert!(out.len() > unsigned.len());
    assert_eq!(&out[out.len() - unsigned.len()..], &unsigned[..]);

    // the signature segment alone is a truncated archive holding a
    // signature over the whole unsigned blob
    let sig_gz = &out[..out.len() - unsigned.len()];
    let mut gz = MultiGzDecoder::new(sig_gz);
    let mut sig_tar = Vec::new();
    gz.read_to_end(&mut sig_tar).unwrap();
    sig_tar.extend_from_slice(&[0u8; 1024]);
    let entries = untar_all(&sig_tar);
    assert_eq!(entries.len(), 1);
    assert_eq!(entries[0].0, ".SIGN.RSA.local.rsa.pub");
    let digest = Sha1::digest(&unsigned);
    key.to_public_key()
        .verify(Pkcs1v15Sign::new::<Sha1>(), &digest, &entries[0].1)
        .expect("signature verifies");
}

#[test]
fn sign_index_rejects_unparsable_key() {
    let result = sign_index(b"blob", Some("garbage"));
    assert!(matches!(result, Err(ApkError::Key)));
}

#[test]
fn signed_index_decodes_back() {
    let key = test_key(512);
    let pem = key.to_pkcs1_pem(rsa::pkcs1::LineEnding::LF).unwrap();
    let index_text = "P:pkg1\nV:1.0\nD:remarkable-os>=3.0.0.0\n\nP:pkg2\nV:2.0\n";
    let unsigned = gzip_default(&tar_single("APKINDEX", index_text.as_bytes()));

    let signed = sign_index(&unsigned, Some(&pem)).unwrap();
    let packages = parse_index_bytes(&signed).unwrap();

    assert_eq!(packages.len(), 2);
    assert_eq!(packages[0].name, "pkg1");
    assert_eq!(packages[0].version, "1.0");
    assert_eq!(packages[0].depends, vec!["remarkable-os>=3.0.0.0"]);
    assert_eq!(packages[1].name, "pkg2");
    assert_eq!(packages[1].version, "2.0");
}

#[test]
fn decode_rejects_non_gzip_bytes() {
    let result = parse_index_bytes(b"certainly not gzip");
    assert!(matches!(result, Err(ApkError::Format)));
}

#[test]
fn decode_rejects_archive_without_index_entry() {
    let blob = gzip_default(&tar_single("OTHER", b"contents"));
    let result = parse_index_bytes(&blob);
    assert!(matches!(result, Err(ApkError::Format)));
}

#[test]
fn decode_rejects_index_entry_with_invalid_utf8() {
    let blob = gzip_default(&tar_single("APKINDEX", &[0xFF, 0xFE, 0x80]));
    let result = parse_index_bytes(&blob);
    assert!(matches!(result, Err(ApkError::Format)));
}

#[test]
fn decode_reads_plain_index_archive() {
    let blob = gzip_default(&tar_single("APKINDEX", b"P:solo\nV:3.4.5\n"));
    let packages = parse_index_bytes(&blob).unwrap();
    assert_eq!(packages.len(), 1);
    assert_eq!(packages[0].name, "solo");
    assert_eq!(packages[0].version, "3.4.5");
}
