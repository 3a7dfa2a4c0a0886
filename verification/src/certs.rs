//! Certificate selection for incoming TLS connections, and the shape of
//! the TCP acceptor's decisions.
//!
//! The certificate store keys certified keys by domain name; the resolver
//! answers a client's server-name indication with the certificate to
//! serve: an exact match first, then a wildcard match on the name's parent
//! domain, then the default entry, then any available certificate, and
//! last the self-signed fallback.

use vstd::prelude::*;
use vstd::string::StrSliceExecFns;

verus! {

/// The TLS state of the server: certified keys by domain name (a key is
/// an opaque handle to the loaded certificate) and the self-signed
/// fallback.
pub struct TlsManager {
    pub certificates: Vec<(String, u64)>,
    pub self_signed_cert: Option<u64>,
}

/// An authorization key staged while a certificate order is validated.
pub struct AcmeAuthKey {
    pub provider_id: String,
    pub key: u64,
}

impl AcmeAuthKey {
    pub fn new(provider_id: String, key: u64) -> (r: AcmeAuthKey)
        ensures
            r.provider_id == provider_id,
            r.key == key,
    {
        AcmeAuthKey { provider_id, key }
    }
}

/// The server state the resolver consults.
pub struct Core {
    pub tls: TlsManager,
}

/// Resolves client hellos against the shared server state.
pub struct CertificateResolver {
    pub core: Core,
}

impl CertificateResolver {
    pub fn new(core: Core) -> (r: CertificateResolver)
        ensures
            r.core == core,
    {
        CertificateResolver { core }
    }
}

/// The certificate names as the specification sees them.
pub open spec fn certs_view(s: Seq<(String, u64)>) -> Seq<(Seq<char>, u64)> {
    s.map_values(|p: (String, u64)| (p.0@, p.1))
}

/// First certificate stored under `name`, front to back.
pub open spec fn cert_lookup(certs: Seq<(Seq<char>, u64)>, name: Seq<char>) -> Option<u64>
    decreases certs.len(),
{
    if certs.len() == 0 {
        None
    } else if certs[0].0 == name {
        Some(certs[0].1)
    } else {
        cert_lookup(certs.drop_first(), name)
    }
}

/// Whether the name contains a label separator.
pub open spec fn has_dot(s: Seq<char>) -> bool {
    exists|i: int| 0 <= i < s.len() && s[i] == '.'
}

/// Position of the first label separator.
pub open spec fn first_dot(s: Seq<char>) -> int {
    choose|i: int|
        0 <= i < s.len() && s[i] == '.' && (forall|j: int| 0 <= j < i ==> s[j] != '.')
}

/// The name's parent domain: everything after the first label separator,
/// under which a wildcard certificate would be stored.
pub open spec fn parent_domain(s: Seq<char>) -> Seq<char> {
    s.subrange(first_dot(s) + 1, s.len() as int)
}

/// Which certificate serves a connection: for a client naming `n`, the
/// entry under `n`, else the entry under `n`'s parent domain, else the
/// default entry; for a nameless client, the default entry. When all of
/// that fails, any stored certificate, and last the self-signed fallback.
pub open spec fn resolve_spec(
    certs: Seq<(Seq<char>, u64)>,
    self_signed: Option<u64>,
    name: Option<Seq<char>>,
) -> Option<u64> {
    let named = match name {
        None => cert_lookup(certs, "*"@),
        Some(n) => match cert_lookup(certs, n) {
            Some(c) => Some(c),
            None => match (if has_dot(n) {
                cert_lookup(certs, parent_domain(n))
            } else {
                None
            }) {
                Some(c) => Some(c),
                None => cert_lookup(certs, "*"@),
            },
        },
    };
    match named {
        Some(c) => Some(c),
        None => if certs.len() >= 1 {
            Some(certs[0].1)
        } else {
            self_signed
        },
    }
}

/// First certificate stored under `name`, front to back.
fn find_cert(certs: &Vec<(String, u64)>, name: &String) -> (r: Option<u64>)
    ensures
        r == cert_lookup(certs_view(certs@), name@),
{
    let ghost full = certs_view(certs@);
    proof {
        assert(full.skip(0) =~= full);
    }
    let mut k: usize = 0;
    while k < certs.len()
        invariant
            full == certs_view(certs@),
            full.len() == certs@.len(),
            0 <= k <= certs@.len(),
            cert_lookup(full, name@) == cert_lookup(full.skip(k as int), name@),
        decreases certs@.len() - k,
    {
        proof {
            assert(full.skip(k as int)[0] == full[k as int]);
            assert(full.skip(k as int).drop_first() =~= full.skip(k as int + 1));
        }
        if certs[k].0 == *name {
            return Some(certs[k].1);
        }
        k = k + 1;
    }
    proof {
        assert(full.skip(certs@.len() as int).len() == 0);
    }
    None
}

/// The name's parent domain, when the name has one: everything after the
/// first label separator.
fn domain_after_dot(name: &String) -> (r: Option<String>)
    ensures
        r is Some <==> has_dot(name@),
        r matches Some(d) ==> d@ == parent_domain(name@),
{
    let n = name.as_str().unicode_len();
    let mut k: usize = 0;
    while k < n
        invariant
            n == name@.len(),
            0 <= k <= n,
            forall|j: int| 0 <= j < k ==> name@[j] != '.',
        decreases n - k,
    {
        if name.as_str().get_char(k) == '.' {
            proof {
                assert(has_dot(name@));
                let f = first_dot(name@);
                assert(0 <= f < name@.len() && name@[f] == '.' && (forall|j: int|
                    0 <= j < f ==> name@[j] != '.'));
                assert(f == k as int) by {
                    if f < k as int {
                        assert(name@[f] != '.');
                    }
                    if f > k as int {
                        assert(name@[k as int] != '.');
                    }
                }
            }
            let d = name.as_str().substring_char(k + 1, n).to_owned();
            return Some(d);
        }
        k = k + 1;
    }
    proof {
        if has_dot(name@) {
            let i = choose|i: int| 0 <= i < name@.len() && name@[i] == '.';
            assert(name@[i] != '.');
        }
    }
    None
}

impl Core {
    /// The certificate to serve a client that named `name`, per
    /// `resolve_spec`; `None` only when the store is empty and no
    /// self-signed fallback exists.
    pub fn resolve_certificate(&self, name: Option<&String>) -> (r: Option<u64>)
        ensures
            r == resolve_spec(
                certs_view(self.tls.certificates@),
                self.tls.self_signed_cert,
                match name {
                    Some(n) => Some(n@),
                    None => None,
                },
            ),
    {
        let star: String = "*".to_owned();
        let named = match name {
            None => find_cert(&self.tls.certificates, &star),
            Some(n) => {
                let exact = find_cert(&self.tls.certificates, n);
                match exact {
                    Some(c) => Some(c),
                    None => {
                        let by_parent = match domain_after_dot(n) {
                            Some(parent) => find_cert(&self.tls.certificates, &parent),
                            None => None,
                        };
                        match by_parent {
                            Some(c) => Some(c),
                            None => find_cert(&self.tls.certificates, &star),
                        }
                    },
                }
            },
        };
        match named {
            Some(c) => Some(c),
            None => {
                if self.tls.certificates.len() >= 1 {
                    Some(self.tls.certificates[0].1)
                } else {
                    self.tls.self_signed_cert
                }
            },
        }
    }
}

/// What the acceptor does with one incoming connection.
#[derive(Clone, Copy, PartialEq, Eq, Structural, Debug)]
pub enum AcceptDecision {
    /// Run the TLS handshake with the default configuration.
    Tls,
    /// Inspect the client hello first: a certificate-validation challenge
    /// is answered and closed, anything else proceeds to TLS.
    InspectForChallenge,
    /// Hand the plain stream through.
    Plain,
}

/// A listener's acceptor: TLS with or without implicit negotiation, or a
/// plain listener.
pub enum TcpAcceptor {
    Tls { implicit: bool },
    Plain,
}

impl TcpAcceptor {
    /// Whether this acceptor terminates TLS.
    pub fn is_tls(&self) -> (r: bool)
        ensures
            r == (self is Tls),
    {
        matches!(self, TcpAcceptor::Tls { .. })
    }

    /// What to do with one incoming connection: an implicit-TLS listener
    /// runs the handshake outright, or inspects the client hello first
    /// while certificate-validation challenges are enabled; every other
    /// listener hands the stream through in the clear.
    pub fn accept_decision(&self, enable_acme: bool) -> (r: AcceptDecision)
        ensures
            r == (match *self {
                TcpAcceptor::Tls { implicit } => if implicit {
                    if enable_acme {
                        AcceptDecision::InspectForChallenge
                    } else {
                        AcceptDecision::Tls
                    }
                } else {
                    AcceptDecision::Plain
                },
                TcpAcceptor::Plain => AcceptDecision::Plain,
            }),
    {
        match self {
            TcpAcceptor::Tls { implicit } => {
                if *implicit {
                    if enable_acme {
                        AcceptDecision::InspectForChallenge
                    } else {
                        AcceptDecision::Tls
                    }
                } else {
                    AcceptDecision::Plain
                }
            },
            TcpAcceptor::Plain => AcceptDecision::Plain,
        }
    }
}

/// What one accepted connection became: a TLS handshake in progress, a
/// plain stream, or a connection answered and closed.
pub enum TcpAcceptorResult<A, P> {
    Tls(A),
    Plain(P),
    Close,
}

impl<A, P> TcpAcceptorResult<A, P> {
    /// The TLS handshake carried; the caller asserts that this result is
    /// one.
    pub fn unwrap_tls(self) -> (r: A)
        requires
            self is Tls,
        ensures
            self matches TcpAcceptorResult::Tls(a) ==> r == a,
    {
        match self {
            TcpAcceptorResult::Tls(a) => a,
            _ => unreached(),
        }
    }
}

} // verus!
