//! How an API server is configured, and what follows from it.

use vstd::prelude::*;
use vstd::string::*;

use crate::apiserver::server::{first_address, first_service_ip};
use crate::decimal::{dec, format_u64};
use crate::text::{opt_text, same};

verus! {

/// The configuration of an API server. Files are named by their paths.
#[derive(Debug, Clone)]
pub struct ApiServerConfig {
    /// The address to bind to.
    pub bind_addr: String,
    /// The port for HTTPS.
    pub secure_port: u16,
    /// The certificate, as PEM.
    pub tls_cert: Option<String>,
    /// The private key, as PEM.
    pub tls_key: Option<String>,
    /// Serve a self-signed certificate when none is configured.
    pub tls_auto: bool,
    /// Serve without TLS when none is configured.
    pub insecure: bool,
    /// The CA that verifies client certificates.
    pub client_ca: Option<String>,
    /// The endpoints of the datastore.
    pub etcd_servers: Vec<String>,
    /// The CA that verifies the datastore.
    pub etcd_cacert: Option<String>,
    /// The client certificate for the datastore.
    pub etcd_cert: Option<String>,
    /// The client key for the datastore.
    pub etcd_key: Option<String>,
    /// Where the server keeps its files.
    pub data_dir: String,
    /// The range of the addresses of Services.
    pub service_cidr: String,
    /// The DNS domain of the cluster.
    pub cluster_domain: String,
    /// The public key that verifies tokens of ServiceAccounts.
    pub service_account_key: Option<String>,
    /// The private key that signs tokens of ServiceAccounts.
    pub service_account_signing_key: Option<String>,
    /// Requests without credentials are allowed.
    pub anonymous_auth: bool,
    /// Requests without credentials may do everything.
    pub dev_anonymous_admin: bool,
    /// The address under which clients in the cluster reach this server.
    pub advertise_address: Option<String>,
}

impl Default for ApiServerConfig {
    fn default() -> (r: ApiServerConfig)
        ensures
            r.bind_addr@ == "0.0.0.0"@,
            r.secure_port == 6443,
            r.tls_cert is None,
            r.tls_key is None,
            !r.tls_auto,
            !r.insecure,
            r.client_ca is None,
            r.etcd_servers@.len() == 0,
            r.etcd_cacert is None,
            r.etcd_cert is None,
            r.etcd_key is None,
            r.data_dir@ == "/var/lib/kubernetes"@,
            r.service_cidr@ == "10.96.0.0/12"@,
            r.cluster_domain@ == "cluster.local"@,
            r.service_account_key is None,
            r.service_account_signing_key is None,
            r.anonymous_auth,
            !r.dev_anonymous_admin,
            r.advertise_address is None,
    {
        ApiServerConfig {
            bind_addr: "0.0.0.0".to_owned(),
            secure_port: 6443,
            tls_cert: None,
            tls_key: None,
            tls_auto: false,
            insecure: false,
            client_ca: None,
            etcd_servers: Vec::new(),
            etcd_cacert: None,
            etcd_cert: None,
            etcd_key: None,
            data_dir: "/var/lib/kubernetes".to_owned(),
            service_cidr: "10.96.0.0/12".to_owned(),
            cluster_domain: "cluster.local".to_owned(),
            service_account_key: None,
            service_account_signing_key: None,
            anonymous_auth: true,
            dev_anonymous_admin: false,
            advertise_address: None,
        }
    }
}

/// How the server serves.
pub enum Serving {
    /// HTTPS with the certificate and the key in two files.
    Files(String, String),
    /// HTTPS with a certificate of its own.
    SelfSigned,
    /// HTTP, which was asked for.
    Plain,
    /// Not at all, and why.
    Refused(String),
}

/// [`Serving`] as text.
pub ghost enum ServingView {
    Files(Seq<char>, Seq<char>),
    SelfSigned,
    Plain,
    Refused(Seq<char>),
}

impl View for Serving {
    type V = ServingView;

    open spec fn view(&self) -> ServingView {
        match self {
            Serving::Files(cert, key) => ServingView::Files(cert@, key@),
            Serving::SelfSigned => ServingView::SelfSigned,
            Serving::Plain => ServingView::Plain,
            Serving::Refused(m) => ServingView::Refused(m@),
        }
    }
}

/// How a server with a configuration serves: with its files, with a certificate
/// of its own, or in clear text where that was asked for.
pub open spec fn serves(c: ApiServerConfig) -> ServingView {
    match (c.tls_cert, c.tls_key) {
        (Some(cert), Some(key)) => ServingView::Files(cert@, key@),
        _ => if c.tls_auto {
            ServingView::SelfSigned
        } else if c.insecure {
            ServingView::Plain
        } else {
            ServingView::Refused(
                "refusing to serve plain HTTP: no TLS configured (need --tls-cert-file + --tls-private-key-file, or --tls for a self-signed cert). Pass --insecure to serve cleartext anyway (dev/bring-up only)."@,
            )
        },
    }
}

/// Clear text is served only where it was asked for.
pub proof fn law_tls_is_never_dropped_silently(c: ApiServerConfig)
    requires
        !c.insecure,
    ensures
        !(serves(c) is Plain),
{
}

/// The address that clients in the cluster use: the one that is configured, else
/// the one that is bound where it is no wildcard.
pub open spec fn advertised(c: ApiServerConfig) -> Option<Seq<char>> {
    match c.advertise_address {
        Some(a) => Some(a@),
        None => if c.bind_addr@ == "0.0.0.0"@ || c.bind_addr@ == "::"@ || c.bind_addr@ == ""@ {
            None
        } else {
            Some(c.bind_addr@)
        },
    }
}

/// The keys that sign tokens.
pub enum TokenKeys {
    /// The private key and the public key in two files.
    Files(String, String),
    /// A key of this process alone.
    Ephemeral,
}

impl ApiServerConfig {
    /// Refuses a configuration without a datastore.
    pub fn check_datastore(&self) -> (r: Result<(), String>)
        ensures
            match r {
                Ok(_) => self.etcd_servers@.len() > 0,
                Err(e) => self.etcd_servers@.len() == 0 && e@
                    == "no --etcd-servers configured: RustKube requires an external etcd/fastetcd datastore"@,
            },
    {
        if self.etcd_servers.len() == 0 {
            return Err(
                "no --etcd-servers configured: RustKube requires an external etcd/fastetcd datastore".to_owned(),
            );
        }
        Ok(())
    }

    /// The datastore is reached over TLS.
    pub fn datastore_tls(&self) -> (r: bool)
        ensures
            r == (self.etcd_cacert is Some || self.etcd_cert is Some || self.etcd_key is Some),
    {
        self.etcd_cacert.is_some() || self.etcd_cert.is_some() || self.etcd_key.is_some()
    }

    /// The address that clients in the cluster use.
    pub fn advertise(&self) -> (r: Option<String>)
        ensures
            opt_text(r) == advertised(*self),
    {
        match &self.advertise_address {
            Some(a) => Some(a.clone()),
            None => {
                let addr = self.bind_addr.as_str();
                if same(addr, "0.0.0.0") || same(addr, "::") || same(addr, "") {
                    None
                } else {
                    Some(addr.to_owned())
                }
            },
        }
    }

    /// The keys that sign tokens: those of the cluster where both are
    /// configured.
    pub fn token_keys(&self) -> (r: TokenKeys)
        ensures
            match (self.service_account_signing_key, self.service_account_key) {
                (Some(private), Some(public)) => r is Files && r->Files_0@ == private@
                    && r->Files_1@ == public@,
                _ => r is Ephemeral,
            },
    {
        match (&self.service_account_signing_key, &self.service_account_key) {
            (Some(private), Some(public)) => TokenKeys::Files(private.clone(), public.clone()),
            _ => TokenKeys::Ephemeral,
        }
    }

    /// How the server serves.
    pub fn serving(&self) -> (r: Serving)
        ensures
            r@ == serves(*self),
    {
        match (&self.tls_cert, &self.tls_key) {
            (Some(cert), Some(key)) => Serving::Files(cert.clone(), key.clone()),
            _ => {
                if self.tls_auto {
                    Serving::SelfSigned
                } else if self.insecure {
                    Serving::Plain
                } else {
                    Serving::Refused(
                        "refusing to serve plain HTTP: no TLS configured (need --tls-cert-file + --tls-private-key-file, or --tls for a self-signed cert). Pass --insecure to serve cleartext anyway (dev/bring-up only).".to_owned(),
                    )
                }
            },
        }
    }

    /// The address and the port to listen on.
    pub fn listen_addr(&self) -> (r: String)
        ensures
            r@ == self.bind_addr@ + ":"@ + dec(self.secure_port as nat),
    {
        self.bind_addr.as_str().to_owned().concat(":").concat(
            format_u64(self.secure_port as u64).as_str(),
        )
    }

    /// The address of the `kubernetes` Service: the first of the range, or a
    /// usual one where the range is none.
    pub fn kubernetes_ip(&self) -> (r: String)
        ensures
            match first_address(self.service_cidr@) {
                Some(ip) => r@ == ip,
                None => r@ == "10.96.0.1"@,
            },
    {
        match first_service_ip(self.service_cidr.as_str()) {
            Some(ip) => ip,
            None => "10.96.0.1".to_owned(),
        }
    }
}

/// A server serves with the files that it is given, else with a certificate of its own
/// where that is asked for, else in the clear only where that is asked for.
pub proof fn law_what_is_configured_is_served(c: ApiServerConfig)
    ensures
        c.tls_cert is Some && c.tls_key is Some ==> serves(c) == ServingView::Files(
            c.tls_cert->0@,
            c.tls_key->0@,
        ),
        !(c.tls_cert is Some && c.tls_key is Some) && c.tls_auto ==> serves(c) is SelfSigned,
        serves(c) is Plain ==> c.insecure && !c.tls_auto,
        serves(c) is Refused ==> !c.insecure && !c.tls_auto,
{
}

/// The address that a server registers is the one that it is told, else the one that it
/// binds to, unless that is every one.
pub proof fn law_the_address_that_is_advertised(c: ApiServerConfig)
    ensures
        c.advertise_address is Some ==> advertised(c) == Some(c.advertise_address->0@),
        c.advertise_address is None && (c.bind_addr@ == "0.0.0.0"@ || c.bind_addr@ == "::"@
            || c.bind_addr@.len() == 0) ==> advertised(c) is None,
        c.advertise_address is None && c.bind_addr@ != "0.0.0.0"@ && c.bind_addr@ != "::"@
            && c.bind_addr@.len() > 0 ==> advertised(c) == Some(c.bind_addr@),
{
    reveal_strlit("");
    assert(""@.len() == 0);
    if c.bind_addr@.len() == 0 {
        assert(c.bind_addr@ =~= ""@);
    }
}

} // verus!
