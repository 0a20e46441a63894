use vstd::prelude::*;

use crate::clock::{clone_opt_string, copy_vec, now_nanos, Timestamp};
use crate::text::{all_ascii, ascii_lower, lowercase, prefixed, str_eq, to_lowercase};

verus! {

/// How TLS is handled for a route.
#[derive(Debug, Clone, Copy, PartialEq, Eq, Structural)]
pub enum TlsMode {
    Disabled,
    Auto,
    Manual,
}

impl TlsMode {
    /// The display name of the mode.
    pub open spec fn label(self) -> Seq<char> {
        match self {
            TlsMode::Disabled => "none"@,
            TlsMode::Auto => "auto"@,
            TlsMode::Manual => "manual"@,
        }
    }

    /// The display name of the mode.
    pub fn to_string(&self) -> (s: String)
        ensures
            s@ == self.label(),
    {
        match self {
            TlsMode::Disabled => "none".to_owned(),
            TlsMode::Auto => "auto".to_owned(),
            TlsMode::Manual => "manual".to_owned(),
        }
    }

    /// What parsing an already lower-cased mode name gives.
    pub open spec fn spec_from_lowercase(s: Seq<char>) -> Result<TlsMode, Seq<char>> {
        if s == "none"@ {
            Ok(TlsMode::Disabled)
        } else if s == "auto"@ {
            Ok(TlsMode::Auto)
        } else if s == "manual"@ {
            Ok(TlsMode::Manual)
        } else {
            Err("unknown TLS mode: "@ + s)
        }
    }

    /// Parses an already lower-cased mode name.
    pub fn from_lowercase(s: &str) -> (r: Result<TlsMode, String>)
        ensures
            match r {
                Ok(m) => Self::spec_from_lowercase(s@) == Ok::<TlsMode, Seq<char>>(m),
                Err(e) => Self::spec_from_lowercase(s@) == Err::<TlsMode, Seq<char>>(e@),
            },
    {
        if str_eq(s, "none") {
            Ok(TlsMode::Disabled)
        } else if str_eq(s, "auto") {
            Ok(TlsMode::Auto)
        } else if str_eq(s, "manual") {
            Ok(TlsMode::Manual)
        } else {
            Err(prefixed("unknown TLS mode: ", s))
        }
    }

    /// Parses a mode name, ignoring case: the name is lower-cased first.
    pub fn parse_label(s: &str) -> (r: Result<TlsMode, String>)
        ensures
            match r {
                Ok(m) => Self::spec_from_lowercase(lowercase(s@)) == Ok::<TlsMode, Seq<char>>(m),
                Err(e) => Self::spec_from_lowercase(lowercase(s@)) == Err::<TlsMode, Seq<char>>(e@),
            },
            all_ascii(s@) ==> match r {
                Ok(m) => Self::spec_from_lowercase(ascii_lower(s@)) == Ok::<TlsMode, Seq<char>>(m),
                Err(e) => Self::spec_from_lowercase(ascii_lower(s@)) == Err::<TlsMode, Seq<char>>(e@),
            },
    {
        let lower = to_lowercase(s);
        Self::from_lowercase(lower.as_str())
    }
}

/// Every mode's name is lower-case ASCII and parses back to the mode.
pub proof fn tls_mode_label_parses_back(m: TlsMode)
    ensures
        all_ascii(m.label()),
        ascii_lower(m.label()) == m.label(),
        TlsMode::spec_from_lowercase(m.label()) == Ok::<TlsMode, Seq<char>>(m),
{
    reveal_strlit("none");
    reveal_strlit("auto");
    reveal_strlit("manual");
    assert("none"@.len() == 4 && "auto"@.len() == 4 && "manual"@.len() == 6);
    assert("none"@[0] == 'n' && "auto"@[0] == 'a');
    assert(ascii_lower(m.label()) =~= m.label());
    match m {
        TlsMode::Disabled => assert(TlsMode::spec_from_lowercase("none"@) == Ok::<TlsMode, Seq<char>>(m)),
        TlsMode::Auto => assert(TlsMode::spec_from_lowercase("auto"@) == Ok::<TlsMode, Seq<char>>(m)),
        TlsMode::Manual => assert(TlsMode::spec_from_lowercase("manual"@) == Ok::<TlsMode, Seq<char>>(m)),
    }
}

impl core::str::FromStr for TlsMode {
    type Err = String;

    fn from_str(s: &str) -> (r: core::result::Result<Self, Self::Err>)
        ensures
            match r {
                Ok(p) => TlsMode::spec_from_lowercase(lowercase(s@)) == Ok::<TlsMode, Seq<char>>(p),
                Err(e) => TlsMode::spec_from_lowercase(lowercase(s@)) == Err::<TlsMode, Seq<char>>(e@),
            },
            all_ascii(s@) ==> match r {
                Ok(p) => TlsMode::spec_from_lowercase(ascii_lower(s@)) == Ok::<TlsMode, Seq<char>>(p),
                Err(e) => TlsMode::spec_from_lowercase(ascii_lower(s@)) == Err::<TlsMode, Seq<char>>(e@),
            },
    {
        TlsMode::parse_label(s)
    }
}

/// A public route from a domain to a deployment.
#[derive(Debug)]
pub struct Route {
    pub domain: String,
    pub project: String,
    pub deployment: String,
    pub tls_mode: TlsMode,
    pub created_at: Timestamp,
}

impl Clone for Route {
    fn clone(&self) -> (r: Self)
        ensures
            r == *self,
    {
        Route {
            domain: self.domain.clone(),
            project: self.project.clone(),
            deployment: self.deployment.clone(),
            tls_mode: self.tls_mode,
            created_at: self.created_at,
        }
    }
}

impl Route {
    /// A new route, created now.
    pub fn new(domain: &str, project: &str, deployment: &str, tls_mode: TlsMode) -> (r: Route)
        ensures
            r.domain@ == domain@,
            r.project@ == project@,
            r.deployment@ == deployment@,
            r.tls_mode == tls_mode,
    {
        Route {
            domain: domain.to_owned(),
            project: project.to_owned(),
            deployment: deployment.to_owned(),
            tls_mode,
            created_at: now_nanos(),
        }
    }
}

/// A TLS certificate of a domain, with its encrypted key.
#[derive(Debug)]
pub struct Certificate {
    pub domain: String,
    pub cert_pem: Vec<u8>,
    pub key_pem_enc: Vec<u8>,
    pub key_nonce: Vec<u8>,
    pub issued_at: Timestamp,
    pub expires_at: Timestamp,
    pub acme_account: Option<String>,
}

/// The mathematical value of a [`Certificate`].
pub struct CertificateView {
    pub domain: Seq<char>,
    pub cert_pem: Seq<u8>,
    pub key_pem_enc: Seq<u8>,
    pub key_nonce: Seq<u8>,
    pub issued_at: Timestamp,
    pub expires_at: Timestamp,
    pub acme_account: Option<String>,
}

impl View for Certificate {
    type V = CertificateView;

    open spec fn view(&self) -> CertificateView {
        CertificateView {
            domain: self.domain@,
            cert_pem: self.cert_pem@,
            key_pem_enc: self.key_pem_enc@,
            key_nonce: self.key_nonce@,
            issued_at: self.issued_at,
            expires_at: self.expires_at,
            acme_account: self.acme_account,
        }
    }
}

impl Clone for Certificate {
    fn clone(&self) -> (r: Self)
        ensures
            r@ == self@,
    {
        Certificate {
            domain: self.domain.clone(),
            cert_pem: copy_vec(&self.cert_pem),
            key_pem_enc: copy_vec(&self.key_pem_enc),
            key_nonce: copy_vec(&self.key_nonce),
            issued_at: self.issued_at,
            expires_at: self.expires_at,
            acme_account: clone_opt_string(&self.acme_account),
        }
    }
}

/// A subnet given to a project on a node.
#[derive(Debug)]
pub struct SubnetAllocation {
    pub node_id: String,
    pub project: String,
    pub subnet: String,
}

impl Clone for SubnetAllocation {
    fn clone(&self) -> (r: Self)
        ensures
            r == *self,
    {
        SubnetAllocation {
            node_id: self.node_id.clone(),
            project: self.project.clone(),
            subnet: self.subnet.clone(),
        }
    }
}

} // verus!
