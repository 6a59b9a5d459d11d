//! Decisions of the HTTP/HTTPS server layer: the route of each API, the
//! HTTP→HTTPS redirect, and the TLS files an HTTPS listener needs.
use vstd::prelude::*;

use crate::config::{ApiConfig, ServerConfig};
use crate::text::{append_chars, chars_of, string_of};

verus! {

/// HTTP/HTTPS server instance: owns a single [`ServerConfig`].
#[derive(Debug, Clone)]
pub struct Server {
    config: ServerConfig,
}

/// What the server does with a request.
#[derive(Debug, Clone, PartialEq, Eq)]
pub enum RequestAction {
    /// Answer `301 Moved Permanently` with this `Location`.
    Redirect(String),
    /// Hand the request to the proxy.
    Forward,
}

/// Whether and how a server listens for HTTPS.
#[derive(Debug, Clone, PartialEq, Eq)]
pub enum HttpsPlan {
    /// HTTP only.
    Disabled,
    /// HTTPS with this certificate file and key file.
    Enabled { cert_file: String, key_file: String },
    /// HTTPS is asked for but no certificate file is configured.
    MissingCertFile,
    /// HTTPS is asked for but no key file is configured.
    MissingKeyFile,
}

/// The route pattern of an API: its path, followed by a pattern that takes
/// the rest of the path when the tail is included.
pub open spec fn route_pattern(api: ApiConfig) -> Seq<char> {
    if api.include_tail {
        api.path@ + "{tail:.*}"@
    } else {
        api.path@
    }
}

/// Whether HTTP requests to `api` are redirected: the API's own setting,
/// else the server's.
pub open spec fn redirects(server: ServerConfig, api: ApiConfig) -> bool {
    match api.redirect_http_to_https {
        Some(b) => b,
        None => server.redirect_http_to_https,
    }
}

/// The `Location` of a redirect to HTTPS: the scheme `https`, the request's
/// host (empty when absent) and its URI.
pub open spec fn https_location(host: Option<Seq<char>>, uri: Seq<char>) -> Seq<char> {
    "https://"@ + match host {
        Some(h) => h,
        None => Seq::empty(),
    } + uri
}

impl Server {
    /// The configuration of this server.
    pub closed spec fn server_config(&self) -> ServerConfig {
        self.config
    }

    /// Create a new server instance from configuration.
    pub fn new(config: ServerConfig) -> (s: Self)
        ensures
            s.server_config() == config,
    {
        Server { config }
    }

    /// The configuration of this server.
    pub fn config(&self) -> (c: &ServerConfig)
        ensures
            *c == self.server_config(),
    {
        &self.config
    }

    /// The route pattern under which `api` is registered.
    pub fn route_path(api: &ApiConfig) -> (r: String)
        ensures
            r@ == route_pattern(*api),
    {
        let mut p = chars_of(api.path.as_str());
        if api.include_tail {
            append_chars(&mut p, &chars_of("{tail:.*}"));
        }
        string_of(&p)
    }

    /// Whether HTTP requests to `api` are redirected to HTTPS.
    pub fn redirect_enabled(server: &ServerConfig, api: &ApiConfig) -> (r: bool)
        ensures
            r == redirects(*server, *api),
    {
        match api.redirect_http_to_https {
            Some(b) => b,
            None => server.redirect_http_to_https,
        }
    }

    /// What to do with a request to `api`: a request that did not come over
    /// HTTPS is redirected there when redirection is enabled; any other is
    /// forwarded.
    pub fn handle_request(
        server: &ServerConfig,
        api: &ApiConfig,
        is_https: bool,
        host: Option<&str>,
        uri: &str,
    ) -> (r: RequestAction)
        ensures
            redirects(*server, *api) && !is_https ==> (r matches RequestAction::Redirect(l) && l@
                == https_location(
                match host {
                    Some(h) => Some(h@),
                    None => None,
                },
                uri@,
            )),
            !(redirects(*server, *api) && !is_https) ==> r == RequestAction::Forward,
    {
        if Self::redirect_enabled(server, api) && !is_https {
            return RequestAction::Redirect(Self::redirect_to_https(host, uri));
        }
        RequestAction::Forward
    }

    /// The `Location` of a redirect to HTTPS for a request to `host` with
    /// URI `uri`.
    pub fn redirect_to_https(host: Option<&str>, uri: &str) -> (r: String)
        ensures
            r@ == https_location(
                match host {
                    Some(h) => Some(h@),
                    None => None,
                },
                uri@,
            ),
    {
        let mut out = chars_of("https://");
        if let Some(h) = host {
            append_chars(&mut out, &chars_of(h));
        }
        append_chars(&mut out, &chars_of(uri));
        proof {
            if host is None {
                assert(out@ =~= "https://"@ + Seq::<char>::empty() + uri@);
            }
        }
        string_of(&out)
    }

    /// Whether this server listens for HTTPS, and with which files.
    pub fn https_plan(&self) -> (r: HttpsPlan)
        ensures
            !self.server_config().https ==> r == HttpsPlan::Disabled,
            self.server_config().https && self.server_config().cert_file is None ==> r
                == HttpsPlan::MissingCertFile,
            self.server_config().https && self.server_config().cert_file is Some
                && self.server_config().key_file is None ==> r == HttpsPlan::MissingKeyFile,
            self.server_config().https && self.server_config().cert_file is Some
                && self.server_config().key_file is Some ==> (r matches HttpsPlan::Enabled {
                cert_file,
                key_file,
            } && cert_file@ == self.server_config().cert_file->0@ && key_file@
                == self.server_config().key_file->0@),
    {
        if !self.config.https {
            return HttpsPlan::Disabled;
        }
        match (&self.config.cert_file, &self.config.key_file) {
            (None, _) => HttpsPlan::MissingCertFile,
            (Some(_), None) => HttpsPlan::MissingKeyFile,
            (Some(c), Some(k)) => HttpsPlan::Enabled { cert_file: c.clone(), key_file: k.clone() },
        }
    }
}

} // verus!
