//! The configuration of a client: which registry it talks to and how.
//!
//! A configuration is a plain value. Building one opens nothing.

use vstd::prelude::*;
use crate::mediatypes::{default_accepted, default_accepted_types, MediaTypes};
use crate::text::{ascii, ascii_bytes};
use crate::v2::{endpoint, header_owned, url_of};

verus! {

/// The `User-Agent` of a client that sets none.
pub const USER_AGENT: &'static str = "docker-registry/0.1";

/// The host of a client that names none.
pub open spec fn default_registry() -> Seq<u8> {
    ascii("registry-1.docker.io"@)
}

/// The configuration of a client.
#[derive(Debug, Clone)]
pub struct Config {
    /// The host of the registry, with its port where it has one.
    pub registry: Vec<u8>,
    /// Whether the registry is spoken to over `http`; else over `https`.
    pub insecure_registry: bool,
    /// The manifest media types that the client names in `Accept`, in order.
    pub accepted_types: Vec<MediaTypes>,
    /// The user name, where the client has credentials.
    pub username: Option<Vec<u8>>,
    /// The password, where the client has credentials.
    pub password: Option<Vec<u8>>,
    /// The value of `User-Agent`.
    pub user_agent: Vec<u8>,
    /// Certificates that are trusted besides those of the system.
    pub root_certificates: Vec<Vec<u8>>,
}

/// A `Config` as a mathematical value.
pub struct ConfigView {
    pub registry: Seq<u8>,
    pub insecure_registry: bool,
    pub accepted_types: Seq<MediaTypes>,
    pub username: Option<Seq<u8>>,
    pub password: Option<Seq<u8>>,
    pub user_agent: Seq<u8>,
    pub root_certificates: Seq<Seq<u8>>,
}

impl View for Config {
    type V = ConfigView;

    open spec fn view(&self) -> ConfigView {
        ConfigView {
            registry: self.registry@,
            insecure_registry: self.insecure_registry,
            accepted_types: self.accepted_types@,
            username: header_owned(self.username),
            password: header_owned(self.password),
            user_agent: self.user_agent@,
            root_certificates: Seq::new(
                self.root_certificates@.len(),
                |i: int| self.root_certificates@[i]@,
            ),
        }
    }
}

/// The configuration that `Config::default` gives.
pub open spec fn default_config() -> ConfigView {
    ConfigView {
        registry: default_registry(),
        insecure_registry: false,
        accepted_types: default_accepted(),
        username: None,
        password: None,
        user_agent: ascii(USER_AGENT@),
        root_certificates: Seq::empty(),
    }
}

impl Config {
    /// The configuration to start from: the default host over `https`, the
    /// default manifest media types, no credentials, the `User-Agent` of
    /// this library, and no certificates of its own.
    pub fn default() -> (c: Config)
        ensures
            c@ == default_config(),
    {
        proof {
            reveal_strlit("registry-1.docker.io");
            reveal_strlit("docker-registry/0.1");
        }
        let c = Config {
            registry: ascii_bytes("registry-1.docker.io"),
            insecure_registry: false,
            accepted_types: default_accepted_types(),
            username: None,
            password: None,
            user_agent: ascii_bytes(USER_AGENT),
            root_certificates: Vec::new(),
        };
        assert(c@.root_certificates =~= Seq::empty());
        c
    }

    /// The same configuration for another registry.
    pub fn registry(self, host: Vec<u8>) -> (c: Config)
        ensures
            c@ == (ConfigView { registry: host@, ..self@ }),
    {
        Config { registry: host, ..self }
    }

    /// The same configuration, over `http` where `insecure` holds and over
    /// `https` else.
    pub fn insecure_registry(self, insecure: bool) -> (c: Config)
        ensures
            c@ == (ConfigView { insecure_registry: insecure, ..self@ }),
    {
        Config { insecure_registry: insecure, ..self }
    }

    /// The same configuration with other manifest media types to accept;
    /// the default ones where none are given.
    pub fn accepted_types(self, accepted: Option<Vec<MediaTypes>>) -> (c: Config)
        ensures
            c@ == (ConfigView {
                accepted_types: match accepted {
                    Some(a) => a@,
                    None => default_accepted(),
                },
                ..self@
            }),
    {
        let accepted_types = match accepted {
            Some(a) => a,
            None => default_accepted_types(),
        };
        Config { accepted_types, ..self }
    }

    /// The same configuration with another user name, or with none.
    pub fn username(self, username: Option<Vec<u8>>) -> (c: Config)
        ensures
            c@ == (ConfigView { username: header_owned(username), ..self@ }),
    {
        Config { username, ..self }
    }

    /// The same configuration with another password, or with none.
    pub fn password(self, password: Option<Vec<u8>>) -> (c: Config)
        ensures
            c@ == (ConfigView { password: header_owned(password), ..self@ }),
    {
        Config { password, ..self }
    }

    /// The same configuration with another `User-Agent`; the one of this
    /// library where none is given.
    pub fn user_agent(self, user_agent: Option<Vec<u8>>) -> (c: Config)
        ensures
            c@ == (ConfigView {
                user_agent: match user_agent {
                    Some(u) => u@,
                    None => ascii(USER_AGENT@),
                },
                ..self@
            }),
    {
        proof {
            reveal_strlit("docker-registry/0.1");
        }
        let user_agent = match user_agent {
            Some(u) => u,
            None => ascii_bytes(USER_AGENT),
        };
        Config { user_agent, ..self }
    }

    /// The same configuration with one more certificate to trust.
    pub fn add_root_certificate(self, certificate: Vec<u8>) -> (c: Config)
        ensures
            c@ == (ConfigView {
                root_certificates: self@.root_certificates.push(certificate@),
                ..self@
            }),
    {
        let mut c = self;
        c.root_certificates.push(certificate);
        assert(c@.root_certificates =~= self@.root_certificates.push(certificate@));
        c
    }

    /// The URL of a path of the API on the registry of this configuration.
    pub fn url(&self, path: &Vec<u8>) -> (r: Vec<u8>)
        ensures
            r@ == url_of(self@.insecure_registry, self@.registry, path@),
    {
        endpoint(self.insecure_registry, &self.registry, path)
    }
}

} // verus!
