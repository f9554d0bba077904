//! Certificates for development and bootstrap.

use vstd::prelude::*;
use vstd::string::*;

use crate::apimachinery::error::Error;
use crate::outside::{
    certificate_contents, certificate_expiry, expires_at, new_authority_certificate,
    new_server_certificate, now_moment, read_expiry, CertificateView,
};
use crate::text::texts;

verus! {

/// How long a certificate of a server lasts, in days.
pub const LEAF_VALIDITY_DAYS: i64 = 365;

/// How long an authority lasts, in days.
pub const CA_VALIDITY_DAYS: i64 = 3650;

/// How far a certificate reaches back, in seconds, for clocks that are behind.
pub const CLOCK_SKEW: i64 = 300;

/// The first second that a certificate can say: that of the year 0.
pub const FIRST_SECOND: i64 = -62167219200;

/// The last second that a certificate can say: that of the year 9999.
pub const LAST_SECOND: i64 = 253402300799;

/// A certificate can be made at a time, for some days.
pub open spec fn makeable(now: i64, days: i64) -> bool {
    FIRST_SECOND + CLOCK_SKEW <= now <= LAST_SECOND - days * 86400
}

/// A certificate and its private key, as PEM.
pub struct CertificateAuthority {
    pub cert_pem: String,
    pub key_pem: String,
}

/// The span of a certificate that is made at a time, in seconds: from a little
/// before, for some days.
pub fn validity(now: i64, days: i64) -> (r: (i64, i64))
    requires
        0 <= days <= CA_VALIDITY_DAYS,
        makeable(now, days),
    ensures
        r.0 == now - CLOCK_SKEW,
        r.1 == now + days * 86400,
{
    (now - CLOCK_SKEW, now + days * 86400)
}

/// The second at which the first certificate of a PEM expires.
pub fn cert_not_after_unix(pem: &[u8]) -> (r: Option<i64>)
    ensures
        match r {
            Some(t) => certificate_expiry(pem@) == Some(t as int),
            None => certificate_expiry(pem@) is None,
        },
{
    read_expiry(pem)
}

/// A certificate was made at a time: for a common name and some names, from a
/// little before that time on, for some days.
pub open spec fn made_at(
    ca: CertificateAuthority,
    cn: Seq<char>,
    names: Seq<Seq<char>>,
    authority: bool,
    now: i64,
    days: i64,
) -> bool {
    &&& expires_at(ca.cert_pem@, now + days * 86400)
    &&& certificate_contents(ca.cert_pem@) == CertificateView {
        common_name: cn,
        names,
        authority,
        from: now - CLOCK_SKEW,
        to: now + days * 86400,
        key: ca.key_pem@,
    }
}

/// Makes a self-signed certificate of a server at a time, for some DNS names. The
/// key is a fresh one; the error is that of the maker.
pub fn server_cert_at(cn: &str, dns_sans: &Vec<String>, now: i64) -> (r: Result<
    CertificateAuthority,
    Error,
>)
    requires
        makeable(now, LEAF_VALIDITY_DAYS),
    ensures
        match r {
            Ok(ca) => made_at(ca, cn@, texts(dns_sans@), false, now, LEAF_VALIDITY_DAYS),
            Err(e) => e is Tls,
        },
{
    let (from, to) = validity(now, LEAF_VALIDITY_DAYS);
    match new_server_certificate(cn, dns_sans, from, to) {
        Ok((cert_pem, key_pem)) => Ok(CertificateAuthority { cert_pem, key_pem }),
        Err(e) => Err(Error::Tls(e)),
    }
}

/// Makes a self-signed authority at a time.
pub fn ca_at(cn: &str, now: i64) -> (r: Result<CertificateAuthority, Error>)
    requires
        makeable(now, CA_VALIDITY_DAYS),
    ensures
        match r {
            Ok(ca) => made_at(ca, cn@, Seq::empty(), true, now, CA_VALIDITY_DAYS),
            Err(e) => e is Tls,
        },
{
    let (from, to) = validity(now, CA_VALIDITY_DAYS);
    match new_authority_certificate(cn, from, to) {
        Ok((cert_pem, key_pem)) => Ok(CertificateAuthority { cert_pem, key_pem }),
        Err(e) => Err(Error::Tls(e)),
    }
}

/// A certificate was made at some time.
pub open spec fn made_some_time(
    ca: CertificateAuthority,
    cn: Seq<char>,
    names: Seq<Seq<char>>,
    authority: bool,
    days: i64,
) -> bool {
    exists|now: i64| makeable(now, days) && #[trigger] made_at(ca, cn, names, authority, now, days)
}

/// The time in seconds, where certificates can be made at it.
fn usable_now(days: i64) -> (r: Option<i64>)
    requires
        0 <= days <= CA_VALIDITY_DAYS,
    ensures
        match r {
            Some(now) => makeable(now, days),
            None => true,
        },
{
    let now: i64 = now_moment().secs;
    if FIRST_SECOND + CLOCK_SKEW <= now && now <= LAST_SECOND - days * 86400 {
        Some(now)
    } else {
        None
    }
}

/// Makes a self-signed certificate of a server, for some DNS names, that lasts
/// for [`LEAF_VALIDITY_DAYS`] from now on.
pub fn generate_server_cert(cn: &str, dns_sans: &Vec<String>) -> (r: Result<
    CertificateAuthority,
    Error,
>)
    ensures
        match r {
            Ok(ca) => made_some_time(ca, cn@, texts(dns_sans@), false, LEAF_VALIDITY_DAYS),
            Err(e) => e is Tls,
        },
{
    match usable_now(LEAF_VALIDITY_DAYS) {
        Some(now) => server_cert_at(cn, dns_sans, now),
        None => Err(Error::Tls("the clock is out of range".to_owned())),
    }
}

/// Makes a self-signed authority that lasts for [`CA_VALIDITY_DAYS`] from now on.
pub fn generate_ca(cn: &str) -> (r: Result<CertificateAuthority, Error>)
    ensures
        match r {
            Ok(ca) => made_some_time(ca, cn@, Seq::empty(), true, CA_VALIDITY_DAYS),
            Err(e) => e is Tls,
        },
{
    match usable_now(CA_VALIDITY_DAYS) {
        Some(now) => ca_at(cn, now),
        None => Err(Error::Tls("the clock is out of range".to_owned())),
    }
}

/// A certificate lasts for its days from when it was made, and is good from a little before, for
/// clocks that are behind.
pub proof fn law_a_certificate_lasts_its_days(
    ca: CertificateAuthority,
    cn: Seq<char>,
    names: Seq<Seq<char>>,
    authority: bool,
    now: i64,
    days: i64,
)
    requires
        made_at(ca, cn, names, authority, now, days),
    ensures
        certificate_contents(ca.cert_pem@).common_name == cn,
        certificate_contents(ca.cert_pem@).names == names,
        certificate_contents(ca.cert_pem@).authority == authority,
        certificate_contents(ca.cert_pem@).from + 300 == now,
        certificate_contents(ca.cert_pem@).to == now + days * 86400,
        certificate_contents(ca.cert_pem@).key == ca.key_pem@,
        expires_at(ca.cert_pem@, certificate_contents(ca.cert_pem@).to),
{
}

} // verus!
