//! The serving certificate: what its files hold, and when it is replaced.

use vstd::prelude::*;
use vstd::string::*;

use crate::apimachinery::watch::dup_bytes;
use crate::outside::{
    add_root, byte_rows, check_roots, check_signing_key, no_roots, pem_certificates,
    pem_private_key, private_key_view, read_certificates, read_private_key, section_views,
    signing_key_error, store_anchors, trust_anchor, AnchorView, PrivateKey, PrivateKeyView,
};
use crate::text::opt_text;

verus! {

/// How often the files are read again, in seconds.
pub const RELOAD_INTERVAL: u64 = 30;

// ---------------------------------------------------------------------------
// Files
// ---------------------------------------------------------------------------

/// The certificates and the key of a server, as DER.
pub struct Material {
    pub certs: Vec<Vec<u8>>,
    pub key: PrivateKey,
}

/// A [`Material`] as bytes.
pub ghost struct MaterialView {
    pub certs: Seq<Seq<u8>>,
    pub key: PrivateKeyView,
}

impl View for Material {
    type V = MaterialView;

    open spec fn view(&self) -> MaterialView {
        MaterialView { certs: byte_rows(self.certs@), key: self.key@ }
    }
}

/// All the certificates of some sections, or the error of the first that is none.
pub open spec fn all_read(sections: Seq<Result<Seq<u8>, Seq<char>>>) -> Result<
    Seq<Seq<u8>>,
    Seq<char>,
>
    decreases sections.len(),
{
    if sections.len() == 0 {
        Ok(Seq::empty())
    } else {
        match (all_read(sections.drop_last()), sections.last()) {
            (Err(e), _) => Err(e),
            (Ok(_), Err(e)) => Err(e),
            (Ok(certs), Ok(der)) => Ok(certs.push(der)),
        }
    }
}

/// What the files of a server hold, given what was found in them.
pub open spec fn found_in(
    sections: Seq<Result<Seq<u8>, Seq<char>>>,
    key: Result<Option<PrivateKeyView>, Seq<char>>,
) -> Result<MaterialView, Seq<char>> {
    match all_read(sections) {
        Err(e) => Err("parsing server cert: "@ + e),
        Ok(certs) => if certs.len() == 0 {
            Err("no certificates found in TLS cert PEM"@)
        } else {
            match key {
                Err(e) => Err("parsing server key: "@ + e),
                Ok(None) => Err("no private key found in TLS key PEM"@),
                Ok(Some(key)) => Ok(MaterialView { certs, key }),
            }
        },
    }
}

/// The material where its key can sign, given why it cannot.
pub open spec fn with_usable_key(m: MaterialView, fault: Option<Seq<char>>) -> Result<
    MaterialView,
    Seq<char>,
> {
    match fault {
        Some(e) => Err("unusable private key: "@ + e),
        None => Ok(m),
    }
}

/// What the files of a server hold, or why they cannot be used.
pub open spec fn material_in(cert_pem: Seq<u8>, key_pem: Seq<u8>) -> Result<
    MaterialView,
    Seq<char>,
> {
    match found_in(pem_certificates(cert_pem), pem_private_key(key_pem)) {
        Ok(m) => with_usable_key(m, signing_key_error(m.key)),
        Err(e) => Err(e),
    }
}

/// A result as a view.
pub open spec fn material_view(r: Result<Material, String>) -> Result<MaterialView, Seq<char>> {
    match r {
        Ok(m) => Ok(m@),
        Err(e) => Err(e@),
    }
}

proof fn lemma_read_error_stays(sections: Seq<Result<Seq<u8>, Seq<char>>>, n: int)
    requires
        0 <= n <= sections.len(),
        all_read(sections.take(n)) is Err,
    ensures
        all_read(sections) == all_read(sections.take(n)),
    decreases sections.len() - n,
{
    if n < sections.len() {
        assert(sections.take(n + 1).drop_last() =~= sections.take(n));
        lemma_read_error_stays(sections, n + 1);
    } else {
        assert(sections.take(n) =~= sections);
    }
}

fn collect_read(sections: Vec<Result<Vec<u8>, String>>) -> (r: Result<Vec<Vec<u8>>, String>)
    ensures
        match r {
            Ok(v) => all_read(section_views(sections@)) == Ok::<Seq<Seq<u8>>, Seq<char>>(
                byte_rows(v@),
            ),
            Err(e) => all_read(section_views(sections@)) == Err::<Seq<Seq<u8>>, Seq<char>>(e@),
        },
{
    let ghost ss = section_views(sections@);
    let mut out: Vec<Vec<u8>> = Vec::new();
    let mut i: usize = 0;
    assert(byte_rows(out@) =~= Seq::<Seq<u8>>::empty());
    while i < sections.len()
        invariant
            i <= sections.len(),
            ss == section_views(sections@),
            all_read(ss.take(i as int)) == Ok::<Seq<Seq<u8>>, Seq<char>>(byte_rows(out@)),
        decreases sections.len() - i,
    {
        proof {
            assert(ss.take(i + 1).drop_last() =~= ss.take(i as int));
            assert(ss.take(i + 1).last() == ss[i as int]);
        }
        match &sections[i] {
            Ok(der) => {
                let ghost was = byte_rows(out@);
                let copy = dup_bytes(der);
                out.push(copy);
                assert(byte_rows(out@) =~= was.push(der@));
            },
            Err(e) => {
                proof {
                    lemma_read_error_stays(ss, i + 1);
                }
                return Err(e.clone());
            },
        }
        i = i + 1;
    }
    assert(ss.take(i as int) =~= ss);
    Ok(out)
}

/// What the files of a server hold, given what was found in them.
pub fn use_material(
    sections: Vec<Result<Vec<u8>, String>>,
    key: Result<Option<PrivateKey>, String>,
) -> (r: Result<Material, String>)
    ensures
        material_view(r) == found_in(section_views(sections@), private_key_view(key)),
{
    let certs = match collect_read(sections) {
        Ok(c) => c,
        Err(e) => {
            return Err("parsing server cert: ".to_owned().concat(e.as_str()));
        },
    };
    assert(byte_rows(certs@).len() == certs@.len());
    if certs.len() == 0 {
        return Err("no certificates found in TLS cert PEM".to_owned());
    }
    match key {
        Ok(Some(key)) => Ok(Material { certs, key }),
        Ok(None) => Err("no private key found in TLS key PEM".to_owned()),
        Err(e) => Err("parsing server key: ".to_owned().concat(e.as_str())),
    }
}

/// The material where its key can sign, given why it cannot.
pub fn use_key(m: Material, fault: Option<String>) -> (r: Result<Material, String>)
    ensures
        material_view(r) == with_usable_key(m@, opt_text(fault)),
{
    match fault {
        Some(e) => Err("unusable private key: ".to_owned().concat(e.as_str())),
        None => Ok(m),
    }
}

/// Reads the files of a server: a chain of certificates, and a private key that can
/// sign.
pub fn certified_key(cert_pem: &[u8], key_pem: &[u8]) -> (r: Result<Material, String>)
    ensures
        material_view(r) == material_in(cert_pem@, key_pem@),
{
    let m = use_material(read_certificates(cert_pem), read_private_key(key_pem))?;
    let fault = check_signing_key(&m.key);
    use_key(m, fault)
}

// ---------------------------------------------------------------------------
// Client certificates
// ---------------------------------------------------------------------------

/// Why a section of the client CA is refused, given why its certificate is no trust
/// anchor; none where it is one.
pub open spec fn root_fault(
    section: Result<Seq<u8>, Seq<char>>,
    fault: Option<Seq<char>>,
) -> Option<Seq<char>> {
    match (section, fault) {
        (Err(e), _) => Some("client CA: "@ + e),
        (Ok(_), Some(e)) => Some("add client CA: "@ + e),
        (Ok(_), None) => None,
    }
}

/// Why a certificate is no trust anchor.
pub open spec fn anchor_error(section: Result<Seq<u8>, Seq<char>>) -> Option<Seq<char>> {
    match section {
        Ok(der) => match trust_anchor(der) {
            Ok(_) => None,
            Err(e) => Some(e),
        },
        Err(_) => None,
    }
}

/// The trust anchors of some sections, or why the first that is none is refused.
pub open spec fn anchors_in(sections: Seq<Result<Seq<u8>, Seq<char>>>) -> Result<
    Seq<AnchorView>,
    Seq<char>,
>
    decreases sections.len(),
{
    if sections.len() == 0 {
        Ok(Seq::empty())
    } else {
        match anchors_in(sections.drop_last()) {
            Err(e) => Err(e),
            Ok(anchors) => {
                let section = sections.last();
                match root_fault(section, anchor_error(section)) {
                    Some(e) => Err(e),
                    None => Ok(anchors.push(trust_anchor(section->Ok_0)->Ok_0)),
                }
            },
        }
    }
}

/// The trust anchors of a client CA: there is at least one.
pub open spec fn roots_in(ca_pem: Seq<u8>) -> Result<Seq<AnchorView>, Seq<char>> {
    match anchors_in(pem_certificates(ca_pem)) {
        Err(e) => Err(e),
        Ok(anchors) => if anchors.len() == 0 {
            Err("client verifier: no root trust anchors were provided"@)
        } else {
            Ok(anchors)
        },
    }
}

proof fn lemma_root_error_stays(sections: Seq<Result<Seq<u8>, Seq<char>>>, n: int)
    requires
        0 <= n <= sections.len(),
        anchors_in(sections.take(n)) is Err,
    ensures
        anchors_in(sections) == anchors_in(sections.take(n)),
    decreases sections.len() - n,
{
    if n < sections.len() {
        assert(sections.take(n + 1).drop_last() =~= sections.take(n));
        lemma_root_error_stays(sections, n + 1);
    } else {
        assert(sections.take(n) =~= sections);
    }
}

/// Why a section of the client CA is refused, given why its certificate is no trust
/// anchor.
pub fn refuse_root(section: &Result<Vec<u8>, String>, fault: Option<String>) -> (r: Option<
    String,
>)
    ensures
        opt_text(r) == root_fault(
            match section {
                Ok(der) => Ok(der@),
                Err(e) => Err(e@),
            },
            opt_text(fault),
        ),
{
    match (section, fault) {
        (Err(e), _) => Some("client CA: ".to_owned().concat(e.as_str())),
        (Ok(_), Some(e)) => Some("add client CA: ".to_owned().concat(e.as_str())),
        (Ok(_), None) => None,
    }
}

/// Reads the certificates that client certificates are verified against.
pub fn client_roots(ca_pem: &[u8]) -> (r: Result<rustls::RootCertStore, String>)
    ensures
        match r {
            Ok(store) => roots_in(ca_pem@) == Ok::<Seq<AnchorView>, Seq<char>>(
                store_anchors(store),
            ),
            Err(e) => roots_in(ca_pem@) == Err::<Seq<AnchorView>, Seq<char>>(e@),
        },
{
    let sections = read_certificates(ca_pem);
    let ghost ss = section_views(sections@);
    let mut store = no_roots();
    let mut i: usize = 0;
    while i < sections.len()
        invariant
            i <= sections.len(),
            ss == section_views(sections@),
            ss == pem_certificates(ca_pem@),
            anchors_in(ss.take(i as int)) == Ok::<Seq<AnchorView>, Seq<char>>(
                store_anchors(store),
            ),
        decreases sections.len() - i,
    {
        proof {
            assert(ss.take(i + 1).drop_last() =~= ss.take(i as int));
            assert(ss.take(i + 1).last() == ss[i as int]);
        }
        let section = &sections[i];
        let fault = match section {
            Ok(der) => match add_root(&mut store, der) {
                Ok(_) => None,
                Err(e) => Some(e),
            },
            Err(_) => None,
        };
        assert(opt_text(fault) == anchor_error(ss[i as int]));
        match refuse_root(section, fault) {
            Some(e) => {
                proof {
                    lemma_root_error_stays(ss, i + 1);
                }
                return Err(e);
            },
            None => {},
        }
        i = i + 1;
    }
    assert(ss.take(i as int) =~= ss);
    match check_roots(&store) {
        Some(e) => {
            let m = "client verifier: ".to_owned().concat(e.as_str());
            proof {
                reveal_strlit("client verifier: ");
                reveal_strlit("no root trust anchors were provided");
                reveal_strlit("client verifier: no root trust anchors were provided");
                assert(m@ =~= "client verifier: no root trust anchors were provided"@);
            }
            Err(m)
        },
        None => Ok(store),
    }
}

/// What a server serves with: its certificate, and what client certificates are
/// verified against, where they are asked for.
pub struct ServerMaterial {
    pub material: Material,
    pub roots: Option<rustls::RootCertStore>,
}

/// What the files of a server come to, in the order in which they are judged: what
/// the files hold, the client CA, and whether the key can sign.
pub open spec fn serving_in(
    cert_pem: Seq<u8>,
    key_pem: Seq<u8>,
    client_ca_pem: Option<Seq<u8>>,
) -> Result<(MaterialView, Option<Seq<AnchorView>>), Seq<char>> {
    match found_in(pem_certificates(cert_pem), pem_private_key(key_pem)) {
        Err(e) => Err(e),
        Ok(m) => match client_ca_pem {
            Some(ca) => match roots_in(ca) {
                Err(e) => Err(e),
                Ok(anchors) => match with_usable_key(m, signing_key_error(m.key)) {
                    Err(e) => Err(e),
                    Ok(m) => Ok((m, Some(anchors))),
                },
            },
            None => match with_usable_key(m, signing_key_error(m.key)) {
                Err(e) => Err(e),
                Ok(m) => Ok((m, None)),
            },
        },
    }
}

/// Reads what a server serves with. Client certificates are verified where there is
/// a CA for them, and never required.
pub fn server_config(cert_pem: &[u8], key_pem: &[u8], client_ca_pem: Option<&[u8]>) -> (r: Result<
    ServerMaterial,
    String,
>)
    ensures
        ({
            let want = serving_in(
                cert_pem@,
                key_pem@,
                match client_ca_pem {
                    Some(ca) => Some(ca@),
                    None => None,
                },
            );
            match r {
                Ok(s) => want is Ok && want->Ok_0 == (
                    s.material@,
                    match s.roots {
                        Some(store) => Some(store_anchors(store)),
                        None => None,
                    },
                ),
                Err(e) => want is Err && want->Err_0 == e@,
            }
        }),
{
    let m = use_material(read_certificates(cert_pem), read_private_key(key_pem))?;
    let roots = match client_ca_pem {
        Some(ca) => Some(client_roots(ca)?),
        None => None,
    };
    let fault = check_signing_key(&m.key);
    let material = use_key(m, fault)?;
    Ok(ServerMaterial { material, roots })
}

// ---------------------------------------------------------------------------
// Reloading
// ---------------------------------------------------------------------------

/// The contents of the files whose certificate is served.
pub struct CertWatch {
    cert: Vec<u8>,
    key: Vec<u8>,
}

fn same_bytes(a: &Vec<u8>, b: &Vec<u8>) -> (r: bool)
    ensures
        r == (a@ == b@),
{
    if a.len() != b.len() {
        return false;
    }
    let mut i: usize = 0;
    while i < a.len()
        invariant
            i <= a.len(),
            a.len() == b.len(),
            forall|j: int| 0 <= j < i ==> a@[j] == b@[j],
        decreases a.len() - i,
    {
        if a[i] != b[i] {
            return false;
        }
        i = i + 1;
    }
    assert(a@ =~= b@);
    true
}

impl CertWatch {
    /// The contents that are served: those of the certificate and of the key.
    pub closed spec fn served(&self) -> (Seq<u8>, Seq<u8>) {
        (self.cert@, self.key@)
    }

    /// The files as they were when the server started.
    pub fn new(cert: Vec<u8>, key: Vec<u8>) -> (r: CertWatch)
        ensures
            r.served() == (cert@, key@),
    {
        CertWatch { cert, key }
    }

    /// Whether the files are to be loaded: both were read, and one of them
    /// differs from what is served.
    pub fn changed(&self, cert: Option<&Vec<u8>>, key: Option<&Vec<u8>>) -> (r: bool)
        ensures
            r == (match (cert, key) {
                (Some(c), Some(k)) => (c@, k@) != self.served(),
                _ => false,
            }),
    {
        match (cert, key) {
            (Some(c), Some(k)) => !(same_bytes(c, &self.cert) && same_bytes(k, &self.key)),
            _ => false,
        }
    }

    /// Takes the files that were read, and hands out what to serve instead. Files
    /// that cannot be used are left: what is served goes on, and the error says
    /// why.
    pub fn reload(&mut self, cert: Vec<u8>, key: Vec<u8>) -> (r: Result<Material, String>)
        ensures
            material_view(r) == material_in(cert@, key@),
            final(self).served() == after_reload(old(self).served(), cert@, key@),
    {
        match certified_key(cert.as_slice(), key.as_slice()) {
            Ok(m) => {
                self.cert = cert;
                self.key = key;
                Ok(m)
            },
            Err(e) => Err(e),
        }
    }
}

/// The contents that are served after files were read: theirs, where they can be
/// used.
pub open spec fn after_reload(
    served: (Seq<u8>, Seq<u8>),
    cert: Seq<u8>,
    key: Seq<u8>,
) -> (Seq<u8>, Seq<u8>) {
    if material_in(cert, key) is Ok {
        (cert, key)
    } else {
        served
    }
}

/// Files that cannot be used are kept and not applied: what is served stays, and the
/// files are tried again as long as they differ from it. A key that cannot sign is
/// among them.
pub proof fn law_unusable_files_are_not_applied(
    served: (Seq<u8>, Seq<u8>),
    cert: Seq<u8>,
    key: Seq<u8>,
)
    requires
        served != (cert, key),
    ensures
        material_in(cert, key) is Err ==> after_reload(served, cert, key) == served
            && after_reload(served, cert, key) != (cert, key),
        match pem_private_key(key) {
            Ok(Some(k)) => signing_key_error(k) is Some ==> after_reload(served, cert, key)
                == served,
            _ => after_reload(served, cert, key) == served,
        },
{
}

/// Files that can be used are applied, once: they are served, and are not loaded
/// again while they stay.
pub proof fn law_usable_files_are_applied_once(
    served: (Seq<u8>, Seq<u8>),
    cert: Seq<u8>,
    key: Seq<u8>,
)
    requires
        material_in(cert, key) is Ok,
    ensures
        after_reload(served, cert, key) == (cert, key),
{
}

/// What is read of a chain is every certificate in it, in order, or nothing.
pub proof fn law_a_chain_is_read_whole(sections: Seq<Result<Seq<u8>, Seq<char>>>, i: int)
    requires
        0 <= i < sections.len(),
    ensures
        all_read(sections) is Ok ==> (all_read(sections)->Ok_0).len() == sections.len()
            && sections[i] == Ok::<Seq<u8>, Seq<char>>((all_read(sections)->Ok_0)[i]),
        sections[i] is Err ==> all_read(sections) is Err,
    decreases sections.len(),
{
    let rest = sections.drop_last();
    assert(sections.last() == sections[sections.len() - 1]);
    if rest.len() > 0 {
        let k = if i < rest.len() { i } else { 0 };
        law_a_chain_is_read_whole(rest, k);
        assert(rest[k] == sections[k]);
    } else {
        assert(all_read(rest) == Ok::<Seq<Seq<u8>>, Seq<char>>(Seq::empty()));
    }
}

/// A server needs a certificate, and a key that can be used; where it asks clients for theirs,
/// it needs somebody to trust as well.
pub proof fn law_what_serving_needs(cert: Seq<u8>, key: Seq<u8>, ca: Seq<u8>)
    ensures
        material_in(cert, key) is Ok ==> pem_private_key(key) is Ok && pem_private_key(key)->Ok_0
            is Some && material_in(cert, key)->Ok_0.key == pem_private_key(key)->Ok_0->0
            && signing_key_error(material_in(cert, key)->Ok_0.key) is None && material_in(
            cert,
            key,
        )->Ok_0.certs.len() > 0,
        serving_in(cert, key, None) is Ok <==> material_in(cert, key) is Ok,
        serving_in(cert, key, Some(ca)) is Ok <==> material_in(cert, key) is Ok && roots_in(ca)
            is Ok,
        serving_in(cert, key, Some(ca)) is Ok ==> serving_in(cert, key, Some(ca))->Ok_0.1 is Some
            && (serving_in(cert, key, Some(ca))->Ok_0.1->0).len() > 0,
        serving_in(cert, key, None) is Ok ==> serving_in(cert, key, None)->Ok_0.1 is None,
{
}

/// Every authority that clients may be of is one that can be trusted: a chain in which one is
/// not is refused whole, and so is one of none.
pub proof fn law_every_authority_can_be_trusted(
    sections: Seq<Result<Seq<u8>, Seq<char>>>,
    i: int,
    ca: Seq<u8>,
)
    requires
        0 <= i < sections.len(),
    ensures
        sections[i] is Err ==> anchors_in(sections) is Err,
        (sections[i] matches Ok(der) ==> trust_anchor(der) is Err ==> anchors_in(sections) is Err),
        anchors_in(sections) is Ok ==> (anchors_in(sections)->Ok_0).len() == sections.len()
            && trust_anchor(sections[i]->Ok_0) is Ok && (anchors_in(sections)->Ok_0)[i]
            == trust_anchor(sections[i]->Ok_0)->Ok_0,
        pem_certificates(ca).len() == 0 ==> roots_in(ca) is Err,
    decreases sections.len(),
{
    let rest = sections.drop_last();
    assert(sections.last() == sections[sections.len() - 1]);
    if rest.len() > 0 {
        let k = if i < rest.len() {
            i
        } else {
            0
        };
        law_every_authority_can_be_trusted(rest, k, ca);
        assert(rest[k] == sections[k]);
    } else {
        assert(anchors_in(rest)->Ok_0 =~= Seq::empty());
        assert(anchors_in(rest) is Ok);
    }
}

} // verus!
