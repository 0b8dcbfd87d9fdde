//! Metadata templates for the virtual packages the device repository
//! carries: one representing the OS version, one representing the device
//! type.

use vstd::prelude::*;

use crate::archive::{build_signed_package, key_signs, package_digest, signed_package_bytes,
    PayloadEntry};
use crate::errors::ApkError;
use crate::outside::{pkcs1_parse_ok, pkcs8_parse_ok, rsa_sig_of};
use vstd::string::StringExecFns;

verus! {

/// The control metadata template of the virtual OS package.
pub open spec fn remarkable_os_pkginfo_text(version: Seq<char>) -> Seq<char> {
    "pkgname = remarkable-os\npkgver = "@ + version
        + "-r0\npkgdesc = Virtual package representing reMarkable OS version\nurl = https://github.com/vellum-dev/vellum-cli\narch = noarch\nlicense = MIT\nprovides = /bin/sh\n"@
}

/// Renders the control metadata of the virtual OS package for a version.
pub fn remarkable_os_pkginfo(version: &str) -> (r: String)
    ensures
        r@ == remarkable_os_pkginfo_text(version@),
{
    let mut s = String::from_str("pkgname = remarkable-os\npkgver = ");
    s.append(version);
    s.append(
        "-r0\npkgdesc = Virtual package representing reMarkable OS version\nurl = https://github.com/vellum-dev/vellum-cli\narch = noarch\nlicense = MIT\nprovides = /bin/sh\n",
    );
    s
}

/// The human-readable description of a device code.
pub open spec fn device_description(device: Seq<char>) -> Seq<char> {
    if device == "rmpp"@ {
        "reMarkable Paper Pro"@
    } else if device == "rmppm"@ {
        "reMarkable Paper Pro Move"@
    } else if device == "rm2"@ {
        "reMarkable 2"@
    } else if device == "rm1"@ {
        "reMarkable 1"@
    } else {
        "reMarkable Device"@
    }
}

/// The control metadata template of the virtual device package.
pub open spec fn device_pkginfo_text(device: Seq<char>) -> Seq<char> {
    "pkgname = "@ + device + "\npkgver = 1.0.0-r0\npkgdesc = Virtual package for "@
        + device_description(device)
        + "\nurl = https://github.com/vellum-dev/vellum-cli\narch = noarch\nlicense = MIT\n"@
}

/// Renders the control metadata of the virtual device package.
pub fn device_pkginfo(device: &str) -> (r: String)
    ensures
        r@ == device_pkginfo_text(device@),
{
    let desc: &str = if crate::chars::str_eq(device, "rmpp") {
        "reMarkable Paper Pro"
    } else if crate::chars::str_eq(device, "rmppm") {
        "reMarkable Paper Pro Move"
    } else if crate::chars::str_eq(device, "rm2") {
        "reMarkable 2"
    } else if crate::chars::str_eq(device, "rm1") {
        "reMarkable 1"
    } else {
        "reMarkable Device"
    };
    assert(desc@ == device_description(device@));
    let mut s = String::from_str("pkgname = ");
    s.append(device);
    s.append("\npkgver = 1.0.0-r0\npkgdesc = Virtual package for ");
    s.append(desc);
    s.append("\nurl = https://github.com/vellum-dev/vellum-cli\narch = noarch\nlicense = MIT\n");
    s
}

/// The file name of the virtual OS package for a version.
pub fn remarkable_os_filename(version: &str) -> (r: String)
    ensures
        r@ == "remarkable-os-"@ + version@ + "-r0.apk"@,
{
    let mut s = String::from_str("remarkable-os-");
    s.append(version);
    s.append("-r0.apk");
    s
}

/// The file name of the virtual device package.
pub fn device_filename(device: &str) -> (r: String)
    ensures
        r@ == device@ + "-1.0.0-r0.apk"@,
{
    let mut s = String::from_str("");
    proof {
        reveal_strlit("");
        assert((""@).len() == 0);
        assert(""@ + device@ =~= device@);
    }
    s.append(device);
    s.append("-1.0.0-r0.apk");
    s
}

/// Builds the signed virtual OS package for a version: its metadata
/// template over an empty payload, signed with the given key.
pub fn build_remarkable_os_package(version: &str, key_pem: &str) -> (r: Result<Vec<u8>, ApkError>)
    ensures
        r is Ok <==> key_signs(
            key_pem@,
            package_digest(
                remarkable_os_pkginfo_text(version@),
                Seq::<crate::archive::PayloadModel>::empty(),
            ),
        ),
        r matches Ok(out) ==> out@ == signed_package_bytes(
            remarkable_os_pkginfo_text(version@),
            Seq::<crate::archive::PayloadModel>::empty(),
            rsa_sig_of(
                key_pem@,
                package_digest(
                    remarkable_os_pkginfo_text(version@),
                    Seq::<crate::archive::PayloadModel>::empty(),
                ),
            ),
        ),
        (r matches Err(e) && e == ApkError::Key) <==> !(pkcs1_parse_ok(key_pem@)
            || pkcs8_parse_ok(key_pem@)),
        r matches Err(e) ==> e == ApkError::Key || e == ApkError::Sign,
{
    let pkginfo = remarkable_os_pkginfo(version);
    let payload: Vec<PayloadEntry> = Vec::new();
    proof {
        assert(payload.deep_view() =~= Seq::<crate::archive::PayloadModel>::empty());
    }
    build_signed_package(pkginfo.as_str(), &payload, key_pem)
}

/// Builds the signed virtual device package: its metadata template over
/// an empty payload, signed with the given key.
pub fn build_device_package(device: &str, key_pem: &str) -> (r: Result<Vec<u8>, ApkError>)
    ensures
        r is Ok <==> key_signs(
            key_pem@,
            package_digest(
                device_pkginfo_text(device@),
                Seq::<crate::archive::PayloadModel>::empty(),
            ),
        ),
        r matches Ok(out) ==> out@ == signed_package_bytes(
            device_pkginfo_text(device@),
            Seq::<crate::archive::PayloadModel>::empty(),
            rsa_sig_of(
                key_pem@,
                package_digest(
                    device_pkginfo_text(device@),
                    Seq::<crate::archive::PayloadModel>::empty(),
                ),
            ),
        ),
        (r matches Err(e) && e == ApkError::Key) <==> !(pkcs1_parse_ok(key_pem@)
            || pkcs8_parse_ok(key_pem@)),
        r matches Err(e) ==> e == ApkError::Key || e == ApkError::Sign,
{
    let pkginfo = device_pkginfo(device);
    let payload: Vec<PayloadEntry> = Vec::new();
    proof {
        assert(payload.deep_view() =~= Seq::<crate::archive::PayloadModel>::empty());
    }
    build_signed_package(pkginfo.as_str(), &payload, key_pem)
}

} // verus!
