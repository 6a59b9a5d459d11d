//! Checks and plans for forwarding a request to the upstream API.
use vstd::prelude::*;

use crate::config::{conforms, lemma_validation_accepts_conforming, rule_error, ApiConfig, Mode, Rule};
use crate::errors::{outcome_is, Error, ErrorView};
use crate::json::{JsonValue, JsonView};
use crate::path::{find_field, lookup_field};
use crate::rewrite::html_rewritten;
use crate::text::{
    append_chars, chars_of, contains, contains_text, ends_with, eq_ascii_case,
    eq_ignore_ascii_case, has_prefix, has_suffix, push_char, replace_all, replace_text,
    starts_with, string_of, to_uppercase, trim_prefix_all, trim_start_matches, unicode_upper,
};
use vstd::utf8::{decode_utf8, encode_utf8, is_ascii_chars, is_ascii_chars_encode_utf8, valid_utf8};

verus! {

broadcast use vstd::std_specs::vec::group_vec_axioms, vstd::seq::group_seq_axioms;

/// API proxy instance: validates and forwards requests according to its
/// [`ApiConfig`].
#[derive(Debug)]
pub struct Proxy {
    config: ApiConfig,
}

impl Proxy {
    /// The API configuration of this proxy.
    pub closed spec fn api(&self) -> ApiConfig {
        self.config
    }

    /// A proxy's configuration injects each header and each cookie once.
    #[verifier::type_invariant]
    spec fn injections_are_unique(&self) -> bool {
        self.config.well_formed()
    }

    /// Create a new proxy instance for an API configuration whose injected
    /// names are unique.
    pub fn new(config: ApiConfig) -> (p: Self)
        requires
            config.well_formed(),
        ensures
            p.api() == config,
    {
        Proxy { config }
    }

    /// The API configuration of this proxy.
    pub fn config(&self) -> (c: &ApiConfig)
        ensures
            *c == self.api(),
            c.well_formed(),
    {
        proof {
            use_type_invariant(self);
        }
        &self.config
    }

    /// Whether the request asks for a WebSocket upgrade: its `Upgrade`
    /// header (when it is visible ASCII) is `websocket`, in any case.
    pub fn is_websocket(upgrade: Option<&str>) -> (r: bool)
        ensures
            r == (upgrade matches Some(u) && eq_ascii_case(u@, "websocket"@)),
    {
        match upgrade {
            Some(u) => eq_ignore_ascii_case(&chars_of(u), &chars_of("websocket")),
            None => false,
        }
    }

    /// How a request is handled: WebSocket upgrades are relayed; other
    /// requests are forwarded as the API's mode says.
    pub fn forward_route(&self, websocket: bool) -> (r: ForwardRoute)
        ensures
            websocket ==> r == ForwardRoute::WebSocket,
            !websocket && self.api().mode == Mode::Raw ==> r == ForwardRoute::Raw,
            !websocket && self.api().mode == Mode::Rule ==> r == ForwardRoute::Rule,
    {
        if websocket {
            ForwardRoute::WebSocket
        } else {
            match self.config.mode {
                Mode::Raw => ForwardRoute::Raw,
                Mode::Rule => ForwardRoute::Rule,
            }
        }
    }

    /// The checks made before a request is forwarded: the payload limit,
    /// the method, and the content type.
    pub fn check_request(&self, body_len: usize, method: &str, content_type: Option<&[u8]>) -> (r:
        Result<(), Error>)
        ensures
            outcome_is(
                r,
                request_error(
                    self.api(),
                    body_len,
                    method@,
                    match content_type {
                        Some(b) => Some(b@),
                        None => None,
                    },
                ),
            ),
    {
        if let Some(limit) = self.config.payload_limit {
            if body_len > limit {
                return Err(Error::PayloadLimit);
            }
        }
        if let Some(m) = &self.config.method {
            let upper = to_uppercase(m.as_str());
            if !crate::text::eq_chars(&chars_of(method), &chars_of(upper.as_str())) {
                return Err(Error::InvalidMethod(string_of(&chars_of(method)), m.clone()));
            }
        }
        if let Some(ct) = &self.config.content_type {
            if let Some(bytes) = content_type {
                match header_text(bytes) {
                    None => {
                        return Err(Error::ToStr);
                    },
                    Some(text) => {
                        if !(text == *ct) {
                            return Err(Error::InvalidContentType(text, ct.clone()));
                        }
                    },
                }
            }
        }
        Ok(())
    }

    /// The rule checks of a request in rule mode: each rule is applied, in
    /// order, to the value its field path designates (or to the whole
    /// payload when that is not an object); a missing field is an error
    /// unless the rule is optional.
    pub fn check_payload(&self, value: &JsonValue) -> (r: Result<(), Error>)
        ensures
            outcome_is(r, payload_error(self.api().rules@, value@)),
    {
        let rules = &self.config.rules;
        let ghost all = rules@;
        let mut i: usize = 0;
        assert(all.subrange(0, all.len() as int) =~= all);
        while i < rules.len()
            invariant
                i <= rules.len(),
                all == rules@,
                all == self.api().rules@,
                payload_error(all.subrange(i as int, all.len() as int), value@) == payload_error(
                    all,
                    value@,
                ),
            decreases rules.len() - i,
        {
            let ghost rest = all.subrange(i as int, all.len() as int);
            assert(rest[0] == rules@[i as int]);
            assert(rest.subrange(1, rest.len() as int) =~= all.subrange(i + 1, all.len() as int));
            let rule = &rules[i];
            let target: Option<&JsonValue> = match value {
                JsonValue::Object(_) => find_field(value, &chars_of(rule.field.as_str())),
                _ => Some(value),
            };
            assert(match target {
                Some(t) => rule_target(*rule, value@) == Some(t@),
                None => rule_target(*rule, value@) is None,
            });
            match target {
                None => {
                    if !rule.optional {
                        return Err(Error::FieldNotObject(rule.field.clone()));
                    }
                },
                Some(t) => {
                    rule.validate(t)?;
                },
            }
            i = i + 1;
        }
        Ok(())
    }

    /// The upstream URL for a request with path `path` and query `query`:
    /// the target, the target path and prefix, the request path (without
    /// the API path unless it is kept) and the query, percent-encoded.
    pub fn build_target_url(&self, path: &str, query: Option<&str>) -> (r: String)
        ensures
            r@ == encode_controls(
                target_url_text(
                    self.api(),
                    path@,
                    match query {
                        Some(q) => Some(q@),
                        None => None,
                    },
                ),
            ),
    {
        let api = &self.config;
        let ghost q_spec = match query {
            Some(q) => Some(q@),
            None => None,
        };
        let ghost p_spec = if api.keep_proxy_path {
            path@
        } else {
            trim_prefix_all(path@, api.path@)
        };
        let ghost u0 = if has_suffix(api.target@, "/"@) {
            api.target@
        } else {
            api.target@ + "/"@
        };
        let ghost u1 = u0 + opt_text(api.target_path) + opt_text(api.path_prefix);
        let ghost u2 = if has_suffix(u1, "/"@) && has_prefix(p_spec, "/"@) {
            u1.drop_last()
        } else {
            u1
        };
        let mut p = chars_of(path);
        if !api.keep_proxy_path {
            p = trim_start_matches(&p, &chars_of(api.path.as_str()));
        }
        assert(p@ == p_spec);
        let slash = chars_of("/");
        let mut url = chars_of(api.target.as_str());
        if !ends_with(&url, &slash) {
            append_chars(&mut url, &slash);
        }
        assert(url@ == u0);
        if let Some(x) = &api.target_path {
            append_chars(&mut url, &chars_of(x.as_str()));
        }
        assert(url@ =~= u0 + opt_text(api.target_path));
        if let Some(x) = &api.path_prefix {
            append_chars(&mut url, &chars_of(x.as_str()));
        }
        assert(url@ =~= u1);
        proof {
            reveal_strlit("/");
        }
        if ends_with(&url, &slash) && starts_with(&p, &slash) {
            url.pop();
        }
        assert(url@ =~= u2);
        append_chars(&mut url, &p);
        if let Some(q) = query {
            append_chars(&mut url, &chars_of("?"));
            append_chars(&mut url, &chars_of(q));
        }
        assert(url@ =~= target_url_text(self.api(), path@, q_spec));
        let text = string_of(&url);
        percent_encode_controls(text.as_str())
    }

    /// The headers sent upstream, in order: the request's own (unless
    /// headers are not forwarded), with `host` set to the upstream host,
    /// then the configured ones.
    pub fn forward_headers(&self, incoming: &Vec<(String, Vec<u8>)>, host: &str) -> (r: Vec<
        (String, Vec<u8>),
    >)
        ensures
            header_pairs(r@) == forwarded_headers(self.api(), incoming@, host@),
    {
        let mut out: Vec<(String, Vec<u8>)> = Vec::new();
        let host_bytes = bytes_of(host.as_bytes());
        let host_name = chars_of("host");
        let ghost fwd = if self.api().no_forward_headers {
            Seq::<(Seq<char>, Seq<u8>)>::empty()
        } else {
            incoming@.map_values(|h: (String, Vec<u8>)| header_forwarded(h, encode_utf8(host@)))
        };
        if !self.config.no_forward_headers {
            let mut i: usize = 0;
            while i < incoming.len()
                invariant
                    i <= incoming.len(),
                    !self.api().no_forward_headers,
                    host_bytes@ == encode_utf8(host@),
                    host_name@ == "host"@,
                    fwd == incoming@.map_values(
                        |h: (String, Vec<u8>)| header_forwarded(h, encode_utf8(host@)),
                    ),
                    header_pairs(out@) == fwd.take(i as int),
                decreases incoming.len() - i,
            {
                let ghost old_out = out@;
                let (name, value) = &incoming[i];
                let item = if crate::text::eq_chars(&chars_of(name.as_str()), &host_name) {
                    (string_of(&host_name), bytes_of(host_bytes.as_slice()))
                } else {
                    (name.clone(), bytes_of(value.as_slice()))
                };
                assert((item.0@, item.1@) == fwd[i as int]);
                out.push(item);
                assert(header_pairs(out@) =~= header_pairs(old_out).push((item.0@, item.1@)));
                assert(fwd.take(i + 1) =~= fwd.take(i as int).push(fwd[i as int]));
                i = i + 1;
            }
            assert(fwd.take(incoming.len() as int) =~= fwd);
        } else {
            assert(header_pairs(out@) =~= fwd);
        }
        let inject = &self.config.inject_headers;
        let ghost injected = inject@.map_values(
            |kv: (String, String)| (kv.0@, encode_utf8(kv.1@)),
        );
        let mut j: usize = 0;
        while j < inject.len()
            invariant
                j <= inject.len(),
                inject == &self.api().inject_headers,
                injected == inject@.map_values(|kv: (String, String)| (kv.0@, encode_utf8(kv.1@))),
                header_pairs(out@) == fwd + injected.take(j as int),
            decreases inject.len() - j,
        {
            let ghost old_out = out@;
            let (k, v) = &inject[j];
            let item = (k.clone(), bytes_of(v.as_str().as_bytes()));
            assert((item.0@, item.1@) == injected[j as int]);
            out.push(item);
            assert(header_pairs(out@) =~= header_pairs(old_out).push((item.0@, item.1@)));
            assert(injected.take(j + 1) =~= injected.take(j as int).push(injected[j as int]));
            assert(fwd + injected.take(j + 1) =~= (fwd + injected.take(j as int)).push(
                injected[j as int],
            ));
            j = j + 1;
        }
        assert(injected.take(inject.len() as int) =~= injected);
        out
    }

    /// The cookies sent upstream, in order: the request's own (unless
    /// cookies are not forwarded), then the configured ones.
    pub fn forward_cookies(&self, incoming: &Vec<(String, String)>) -> (r: Vec<(String, String)>)
        ensures
            cookie_pairs(r@) == forwarded_cookies(self.api(), cookie_pairs(incoming@)),
    {
        let mut out: Vec<(String, String)> = Vec::new();
        let ghost first = if self.api().no_forward_cookies {
            Seq::<(Seq<char>, Seq<char>)>::empty()
        } else {
            cookie_pairs(incoming@)
        };
        if !self.config.no_forward_cookies {
            let mut i: usize = 0;
            while i < incoming.len()
                invariant
                    i <= incoming.len(),
                    cookie_pairs(out@) == cookie_pairs(incoming@).take(i as int),
                decreases incoming.len() - i,
            {
                let ghost old_out = out@;
                let item = (incoming[i].0.clone(), incoming[i].1.clone());
                assert((item.0@, item.1@) == cookie_pairs(incoming@)[i as int]);
                out.push(item);
                assert(cookie_pairs(out@) =~= cookie_pairs(old_out).push((item.0@, item.1@)));
                assert(cookie_pairs(incoming@).take(i + 1) =~= cookie_pairs(incoming@).take(
                    i as int,
                ).push(cookie_pairs(incoming@)[i as int]));
                i = i + 1;
            }
            assert(cookie_pairs(incoming@).take(incoming.len() as int) =~= cookie_pairs(incoming@));
        } else {
            assert(cookie_pairs(out@) =~= first);
        }
        let inject = &self.config.inject_cookies;
        let mut j: usize = 0;
        while j < inject.len()
            invariant
                j <= inject.len(),
                inject == &self.api().inject_cookies,
                cookie_pairs(out@) == first + cookie_pairs(inject@).take(j as int),
            decreases inject.len() - j,
        {
            let ghost old_out = out@;
            let item = (inject[j].0.clone(), inject[j].1.clone());
            assert((item.0@, item.1@) == cookie_pairs(inject@)[j as int]);
            out.push(item);
            assert(cookie_pairs(out@) =~= cookie_pairs(old_out).push((item.0@, item.1@)));
            assert(first + cookie_pairs(inject@).take(j + 1) =~= (first + cookie_pairs(
                inject@,
            ).take(j as int)).push(cookie_pairs(inject@)[j as int]));
            j = j + 1;
        }
        assert(cookie_pairs(inject@).take(inject.len() as int) =~= cookie_pairs(inject@));
        out
    }

    /// Whether an upstream response header is passed to the client:
    /// `content-encoding` is dropped when the body is decompressed.
    pub fn response_header_kept(&self, name: &str) -> (r: bool)
        ensures
            r == (self.api().no_decompress || name@ != "content-encoding"@),
    {
        if self.config.no_decompress {
            return true;
        }
        !crate::text::eq_chars(&chars_of(name), &chars_of("content-encoding"))
    }

    /// The largest upstream body read: the API's payload limit, else 2 MiB.
    pub fn response_body_limit(&self) -> (n: usize)
        ensures
            n == match self.api().payload_limit {
                Some(l) => l,
                None => 2097152,
            },
    {
        match self.config.payload_limit {
            Some(l) => l,
            None => 2097152,
        }
    }

    /// Whether an upstream content type is HTML.
    pub fn is_html(content_type: Option<&str>) -> (r: bool)
        ensures
            r == (content_type matches Some(c) && contains_text(c@, "text/html"@)),
    {
        match content_type {
            Some(c) => contains(&chars_of(c), &chars_of("text/html")),
            None => false,
        }
    }

    /// The body passed to the client: an HTML body has its links rewritten
    /// (see [`Proxy::rewrite_html`], against the API's target and with no
    /// prefix) when the API asks for it, which needs the body to be UTF-8;
    /// any other body is passed unchanged.
    pub fn response_body(&self, is_html: bool, body: &[u8]) -> (r: Result<Vec<u8>, Error>)
        ensures
            !(is_html && self.api().replace_html_links) ==> (r matches Ok(b) && b@ == body@),
            is_html && self.api().replace_html_links ==> {
                &&& (r is Ok <==> valid_utf8(body@))
                &&& r matches Ok(b) ==> b@ == encode_utf8(
                    html_rewritten(decode_utf8(body@), Seq::empty(), self.api().target@),
                )
                &&& r matches Err(e) ==> e is ParseUtf8
            },
    {
        if is_html && self.config.replace_html_links {
            match utf8_text(body) {
                Ok(text) => {
                    let rewritten = Self::rewrite_html(text.as_str(), "", self.config.target.as_str());
                    proof {
                        reveal_strlit("");
                        assert(""@ =~= Seq::<char>::empty());
                    }
                    Ok(bytes_of(rewritten.as_str().as_bytes()))
                },
                Err(message) => Err(Error::ParseUtf8(message)),
            }
        } else {
            Ok(bytes_of(body))
        }
    }

    /// What happens to a request header when a WebSocket is relayed
    /// upstream: `host` is set to the upstream host, the handshake headers
    /// are left out, a name holding `127.0.0.1` gets `192.168.1.124` in its
    /// place, and any other is kept.
    pub fn ws_header(name: &str) -> (r: WsHeader)
        ensures
            name@ == "host"@ ==> r == WsHeader::Host,
            name@ != "host"@ && is_handshake_header(name@) ==> r == WsHeader::Skip,
            name@ != "host"@ && !is_handshake_header(name@) && contains_text(name@, "127.0.0.1"@)
                ==> (r matches WsHeader::Renamed(n) && n@ == replace_text(
                name@,
                "127.0.0.1"@,
                "192.168.1.124"@,
            )),
            name@ != "host"@ && !is_handshake_header(name@) && !contains_text(name@, "127.0.0.1"@)
                ==> r == WsHeader::Keep,
            name@ == "connection"@ || name@ == "upgrade"@ || name@ == "sec-websocket-key"@
                || name@ == "sec-websocket-extensions"@ || name@ == "sec-websocket-version"@ ==> r
                == WsHeader::Skip,
    {
        proof {
            lemma_handshake_headers_left_out(name@);
        }
        let n = chars_of(name);
        if crate::text::eq_chars(&n, &chars_of("host")) {
            return WsHeader::Host;
        }
        if crate::text::eq_chars(&n, &chars_of("connection")) || crate::text::eq_chars(
            &n,
            &chars_of("upgrade"),
        ) || crate::text::eq_chars(&n, &chars_of("sec-websocket-key"))
            || crate::text::eq_chars(&n, &chars_of("sec-websocket-extensions"))
            || crate::text::eq_chars(&n, &chars_of("sec-websocket-version")) {
            return WsHeader::Skip;
        }
        let local = chars_of("127.0.0.1");
        if contains(&n, &local) {
            let renamed = replace_all(&n, &local, &chars_of("192.168.1.124"));
            return WsHeader::Renamed(string_of(&renamed));
        }
        WsHeader::Keep
    }

    /// Whether relaying a WebSocket goes on after a message of kind `kind`
    /// whose sending failed (`send_failed`): text and binary messages stop
    /// the relay when they cannot be sent, a close message always stops it,
    /// anything else never does.
    pub fn relay_continues(kind: RelayMessage, send_failed: bool) -> (r: bool)
        ensures
            r == match kind {
                RelayMessage::Text | RelayMessage::Binary => !send_failed,
                RelayMessage::Close => false,
                _ => true,
            },
    {
        match kind {
            RelayMessage::Text | RelayMessage::Binary => !send_failed,
            RelayMessage::Close => false,
            _ => true,
        }
    }
}

/// How a request is handled.
#[derive(Debug, Clone, Copy, PartialEq, Eq, Structural)]
pub enum ForwardRoute {
    /// Relay a WebSocket.
    WebSocket,
    /// Forward without payload validation.
    Raw,
    /// Validate the payload, then forward.
    Rule,
}

/// What happens to a request header when a WebSocket is relayed.
#[derive(Debug, Clone, PartialEq, Eq)]
pub enum WsHeader {
    /// Set to the upstream host.
    Host,
    /// Left out.
    Skip,
    /// Passed on as it is.
    Keep,
    /// Passed on under this name.
    Renamed(String),
}

/// The kinds of WebSocket message that a relay sees.
#[derive(Debug, Clone, Copy, PartialEq, Eq, Structural)]
pub enum RelayMessage {
    Text,
    Binary,
    Ping,
    Pong,
    Close,
    Other,
}

/// Counts the bytes of a request payload read so far, refusing any chunk
/// that would take the total over the limit.
#[derive(Debug)]
pub struct PayloadLimiter {
    received: usize,
    limit: usize,
}

impl PayloadLimiter {
    pub closed spec fn spec_received(&self) -> nat {
        self.received as nat
    }

    pub closed spec fn spec_limit(&self) -> nat {
        self.limit as nat
    }

    /// A counter with nothing received yet.
    pub fn new(limit: usize) -> (r: Self)
        ensures
            r.spec_received() == 0,
            r.spec_limit() == limit,
    {
        PayloadLimiter { received: 0, limit }
    }

    /// The number of bytes received so far.
    pub fn received(&self) -> (n: usize)
        ensures
            n == self.spec_received(),
    {
        self.received
    }

    /// Takes a chunk of `chunk_len` bytes when the total stays within the
    /// limit; otherwise refuses it and counts nothing.
    pub fn accept(&mut self, chunk_len: usize) -> (ok: bool)
        requires
            old(self).spec_received() <= old(self).spec_limit(),
        ensures
            ok == (old(self).spec_received() + chunk_len <= old(self).spec_limit()),
            ok ==> final(self).spec_received() == old(self).spec_received() + chunk_len,
            !ok ==> final(self).spec_received() == old(self).spec_received(),
            final(self).spec_limit() == old(self).spec_limit(),
            final(self).spec_received() <= final(self).spec_limit(),
    {
        if chunk_len > self.limit - self.received {
            false
        } else {
            self.received = self.received + chunk_len;
            true
        }
    }
}

// ---------------------------------------------------------------------------
// The models
// ---------------------------------------------------------------------------

/// Every byte of `b` is visible ASCII or a tab, as a header value must be
/// for `HeaderValue::to_str` to succeed.
pub open spec fn visible_ascii(b: Seq<u8>) -> bool {
    forall|i: int| 0 <= i < b.len() ==> (32 <= #[trigger] b[i] < 127 || b[i] == 9)
}

/// The characters that the ASCII bytes `b` stand for.
pub open spec fn ascii_text(b: Seq<u8>) -> Seq<char> {
    b.map_values(|x: u8| x as char)
}

/// The first check that a request fails before it is forwarded: a payload
/// over the limit, a method other than the configured one (upper
/// case), a content type header that is not visible ASCII or differs from
/// the configured one.
pub open spec fn request_error(
    api: ApiConfig,
    body_len: usize,
    method: Seq<char>,
    content_type: Option<Seq<u8>>,
) -> Option<ErrorView> {
    if api.payload_limit is Some && body_len > api.payload_limit->0 {
        Some(ErrorView::PayloadLimit)
    } else if api.method is Some && method != unicode_upper(api.method->0@) {
        Some(ErrorView::InvalidMethod(method, api.method->0@))
    } else if api.content_type is Some && content_type is Some {
        let b = content_type->0;
        if !visible_ascii(b) {
            Some(ErrorView::ToStr)
        } else if ascii_text(b) != api.content_type->0@ {
            Some(ErrorView::InvalidContentType(ascii_text(b), api.content_type->0@))
        } else {
            None
        }
    } else {
        None
    }
}

/// The value that a rule applies to: what its field path designates in an
/// object payload, or the payload itself when it is not an object.
pub open spec fn rule_target(rule: Rule, value: JsonView) -> Option<JsonView> {
    if value is Object {
        lookup_field(value, rule.field@)
    } else {
        Some(value)
    }
}

/// The first error that applying `rules`, in order, to `value` meets.
pub open spec fn payload_error(rules: Seq<Rule>, value: JsonView) -> Option<ErrorView>
    decreases rules.len(),
{
    if rules.len() == 0 {
        None
    } else {
        let rule = rules[0];
        let rest = payload_error(rules.subrange(1, rules.len() as int), value);
        match rule_target(rule, value) {
            None => if rule.optional {
                rest
            } else {
                Some(ErrorView::FieldNotObject(rule.field@))
            },
            Some(t) => match rule_error(rule, t, false) {
                Some(e) => Some(e),
                None => rest,
            },
        }
    }
}

/// The text of an optional setting, empty when it is absent.
pub open spec fn opt_text(o: Option<String>) -> Seq<char> {
    match o {
        Some(s) => s@,
        None => Seq::empty(),
    }
}

/// The upstream URL before percent-encoding: the target with a trailing
/// `/`, the target path, the path prefix, the request path (without the
/// API path unless it is kept; one `/` where the two meet), then `?` and
/// the query.
pub open spec fn target_url_text(api: ApiConfig, path: Seq<char>, query: Option<Seq<char>>) -> Seq<
    char,
> {
    let p = if api.keep_proxy_path {
        path
    } else {
        trim_prefix_all(path, api.path@)
    };
    let u0 = if has_suffix(api.target@, "/"@) {
        api.target@
    } else {
        api.target@ + "/"@
    };
    let u1 = u0 + opt_text(api.target_path) + opt_text(api.path_prefix);
    let u2 = if has_suffix(u1, "/"@) && has_prefix(p, "/"@) {
        u1.drop_last()
    } else {
        u1
    };
    match query {
        Some(q) => u2 + p + "?"@ + q,
        None => u2 + p,
    }
}

/// The hexadecimal digit (upper case) for `n` below 16.
pub open spec fn hex_digit(n: int) -> char {
    if n < 10 {
        (48 + n) as char
    } else {
        (55 + n) as char
    }
}

/// A byte as the `CONTROLS` set of `percent_encoding` writes it: control
/// characters, DEL and non-ASCII bytes as `%XX`, others as themselves.
pub open spec fn encode_control_byte(b: u8) -> Seq<char> {
    if b < 32 || b >= 127 {
        seq!['%', hex_digit(b as int / 16), hex_digit(b as int % 16)]
    } else {
        seq![b as char]
    }
}

/// The bytes `b`, each as [`encode_control_byte`] writes it.
pub open spec fn encode_control_bytes(b: Seq<u8>) -> Seq<char>
    decreases b.len(),
{
    if b.len() == 0 {
        Seq::empty()
    } else {
        encode_control_bytes(b.drop_last()) + encode_control_byte(b.last())
    }
}

/// `s` percent-encoded with the `CONTROLS` set: its UTF-8 bytes, each as
/// [`encode_control_byte`] writes it.
pub open spec fn encode_controls(s: Seq<char>) -> Seq<char> {
    encode_control_bytes(encode_utf8(s))
}

/// A request header as it is forwarded: `host` carries the upstream host.
pub open spec fn header_forwarded(h: (String, Vec<u8>), host: Seq<u8>) -> (Seq<char>, Seq<u8>) {
    if h.0@ == "host"@ {
        ("host"@, host)
    } else {
        (h.0@, h.1@)
    }
}

/// The model of a list of headers.
pub open spec fn header_pairs(hs: Seq<(String, Vec<u8>)>) -> Seq<(Seq<char>, Seq<u8>)> {
    hs.map_values(|h: (String, Vec<u8>)| (h.0@, h.1@))
}

/// The model of a list of cookies.
pub open spec fn cookie_pairs(cs: Seq<(String, String)>) -> Seq<(Seq<char>, Seq<char>)> {
    cs.map_values(|c: (String, String)| (c.0@, c.1@))
}

/// The headers sent upstream.
pub open spec fn forwarded_headers(
    api: ApiConfig,
    incoming: Seq<(String, Vec<u8>)>,
    host: Seq<char>,
) -> Seq<(Seq<char>, Seq<u8>)> {
    let forwarded = if api.no_forward_headers {
        Seq::empty()
    } else {
        incoming.map_values(|h: (String, Vec<u8>)| header_forwarded(h, encode_utf8(host)))
    };
    forwarded + api.inject_headers@.map_values(|kv: (String, String)| (kv.0@, encode_utf8(kv.1@)))
}

/// The cookies sent upstream.
pub open spec fn forwarded_cookies(
    api: ApiConfig,
    incoming: Seq<(Seq<char>, Seq<char>)>,
) -> Seq<(Seq<char>, Seq<char>)> {
    let forwarded = if api.no_forward_cookies {
        Seq::empty()
    } else {
        incoming
    };
    forwarded + cookie_pairs(api.inject_cookies@)
}

/// The headers of the WebSocket handshake, which a relay does not pass on.
pub open spec fn is_handshake_header(name: Seq<char>) -> bool {
    ||| name == "connection"@
    ||| name == "upgrade"@
    ||| name == "sec-websocket-key"@
    ||| name == "sec-websocket-extensions"@
    ||| name == "sec-websocket-version"@
}

// ---------------------------------------------------------------------------
// Laws
// ---------------------------------------------------------------------------

/// `rule` is satisfied by the payload `value`: the value its field path
/// designates meets the rule, or there is none and the rule is optional.
pub open spec fn rule_passes(rule: Rule, value: JsonView) -> bool {
    match rule_target(rule, value) {
        None => rule.optional,
        Some(t) => conforms(rule, t),
    }
}

/// A payload passes the rule checks exactly when every rule is satisfied.
pub proof fn lemma_payload_accepted_iff_rules_pass(rules: Seq<Rule>, value: JsonView)
    ensures
        (payload_error(rules, value) is None) == (forall|i: int|
            0 <= i < rules.len() ==> rule_passes(#[trigger] rules[i], value)),
    decreases rules.len(),
{
    if rules.len() > 0 {
        let rest = rules.subrange(1, rules.len() as int);
        lemma_payload_accepted_iff_rules_pass(rest, value);
        if let Some(t) = rule_target(rules[0], value) {
            lemma_validation_accepts_conforming(rules[0], t);
        }
        if payload_error(rules, value) is None {
            assert forall|i: int| 0 <= i < rules.len() implies rule_passes(
                #[trigger] rules[i],
                value,
            ) by {
                if i > 0 {
                    assert(rest[i - 1] == rules[i]);
                }
            }
        }
        if forall|i: int| 0 <= i < rules.len() ==> rule_passes(#[trigger] rules[i], value) {
            assert(rule_passes(rules[0], value));
            assert forall|i: int| 0 <= i < rest.len() implies rule_passes(#[trigger] rest[i], value) by {
                assert(rest[i] == rules[i + 1]);
            }
        }
    }
}

proof fn lemma_encoded_bytes_printable(b: Seq<u8>)
    ensures
        forall|i: int|
            0 <= i < encode_control_bytes(b).len() ==> 32 <= (#[trigger] encode_control_bytes(
                b,
            )[i] as u32) < 127,
    decreases b.len(),
{
    if b.len() > 0 {
        lemma_encoded_bytes_printable(b.drop_last());
        let front = encode_control_bytes(b.drop_last());
        let last = encode_control_byte(b.last());
        assert forall|i: int| 0 <= i < last.len() implies 32 <= (#[trigger] last[i] as u32) < 127 by {
        }
        assert forall|i: int|
            0 <= i < encode_control_bytes(b).len() implies 32 <= (
            #[trigger] encode_control_bytes(b)[i] as u32) < 127 by {
            if i < front.len() {
                assert(encode_control_bytes(b)[i] == front[i]);
            } else {
                assert(encode_control_bytes(b)[i] == last[i - front.len()]);
            }
        }
    }
}

/// The upstream URL is printable ASCII: percent-encoding with the
/// `CONTROLS` set leaves no control character and no non-ASCII character.
pub proof fn lemma_encoded_url_is_printable(s: Seq<char>)
    ensures
        forall|i: int|
            0 <= i < encode_controls(s).len() ==> 32 <= (#[trigger] encode_controls(s)[i] as u32)
                < 127,
{
    lemma_encoded_bytes_printable(encode_utf8(s));
}

proof fn lemma_printable_bytes_unchanged(b: Seq<u8>)
    requires
        forall|i: int| 0 <= i < b.len() ==> 32 <= #[trigger] b[i] < 127,
    ensures
        encode_control_bytes(b) == b.map_values(|x: u8| x as char),
    decreases b.len(),
{
    if b.len() > 0 {
        lemma_printable_bytes_unchanged(b.drop_last());
        assert(b.map_values(|x: u8| x as char) =~= b.drop_last().map_values(|x: u8| x as char).push(
            b.last() as char,
        ));
    }
}

/// A URL that is already printable ASCII is not changed by percent-encoding.
pub proof fn lemma_printable_url_unchanged(s: Seq<char>)
    requires
        forall|i: int| 0 <= i < s.len() ==> ' ' <= #[trigger] s[i] <= '~',
    ensures
        encode_controls(s) == s,
{
    assert(is_ascii_chars(s));
    is_ascii_chars_encode_utf8(s);
    let b = encode_utf8(s);
    assert forall|i: int| 0 <= i < b.len() implies 32 <= #[trigger] b[i] < 127 by {
        let c = s[i];
        assert(' ' <= c <= '~');
        assert(32 <= (c as u32) <= 126);
        assert(c as u8 == b[i]);
    }
    lemma_printable_bytes_unchanged(b);
    assert forall|i: int| 0 <= i < s.len() implies (b[i] as char) == s[i] by {
        assert(s[i] as u8 == b[i]);
    }
    assert(b.map_values(|x: u8| x as char) =~= s);
}

/// The upstream URL keeps the request's query: it ends with `?` and the
/// query.
pub proof fn lemma_query_preserved(api: ApiConfig, path: Seq<char>, query: Seq<char>)
    ensures
        has_suffix(target_url_text(api, path, Some(query)), "?"@ + query),
{
    let t = target_url_text(api, path, Some(query));
    assert(t.subrange(t.len() - ("?"@ + query).len(), t.len() as int) =~= "?"@ + query);
}

/// The upstream URL begins with the configured target.
pub proof fn lemma_url_starts_with_target(api: ApiConfig, path: Seq<char>, query: Option<Seq<char>>)
    ensures
        has_prefix(target_url_text(api, path, query), api.target@),
{
    reveal_strlit("/");
    let p = if api.keep_proxy_path {
        path
    } else {
        trim_prefix_all(path, api.path@)
    };
    let u0 = if has_suffix(api.target@, "/"@) {
        api.target@
    } else {
        api.target@ + "/"@
    };
    let u1 = u0 + opt_text(api.target_path) + opt_text(api.path_prefix);
    let u2 = if has_suffix(u1, "/"@) && has_prefix(p, "/"@) {
        u1.drop_last()
    } else {
        u1
    };
    let t = target_url_text(api, path, query);
    assert(has_prefix(u1, api.target@)) by {
        assert(u1.subrange(0, api.target@.len() as int) =~= api.target@);
    }
    assert(has_prefix(u2 + p, u1)) by {
        if has_suffix(u1, "/"@) && has_prefix(p, "/"@) {
            assert("/"@ =~= seq!['/']);
            assert(u1.subrange(u1.len() - 1, u1.len() as int)[0] == u1.last());
            assert(p.subrange(0, 1)[0] == p[0]);
            assert(u1.last() == '/');
            assert(p[0] == '/');
            assert((u2 + p).subrange(0, u1.len() as int) =~= u1);
        } else {
            assert((u2 + p).subrange(0, u1.len() as int) =~= u1);
        }
    }
    assert(t.subrange(0, api.target@.len() as int) =~= api.target@) by {
        assert(t.subrange(0, u1.len() as int) =~= (u2 + p).subrange(0, u1.len() as int));
    }
}

proof fn lemma_encode_utf8_concat(a: Seq<char>, b: Seq<char>)
    ensures
        encode_utf8(a + b) == encode_utf8(a) + encode_utf8(b),
    decreases a.len(),
{
    if a.len() == 0 {
        assert(a + b =~= b);
        assert(encode_utf8(a) + encode_utf8(b) =~= encode_utf8(b));
    } else {
        assert((a + b).drop_first() =~= a.drop_first() + b);
        assert((a + b)[0] == a[0]);
        lemma_encode_utf8_concat(a.drop_first(), b);
        assert(encode_utf8(a + b) =~= encode_utf8(a) + encode_utf8(b));
    }
}

proof fn lemma_encode_control_bytes_concat(a: Seq<u8>, b: Seq<u8>)
    ensures
        encode_control_bytes(a + b) == encode_control_bytes(a) + encode_control_bytes(b),
    decreases b.len(),
{
    if b.len() == 0 {
        assert(a + b =~= a);
        assert(encode_control_bytes(a) + encode_control_bytes(b) =~= encode_control_bytes(a));
    } else {
        assert((a + b).drop_last() =~= a + b.drop_last());
        assert((a + b).last() == b.last());
        lemma_encode_control_bytes_concat(a, b.drop_last());
        assert(encode_control_bytes(a + b) =~= encode_control_bytes(a) + encode_control_bytes(b));
    }
}

/// The upstream URL, as sent (percent-encoded), begins with the configured
/// target, percent-encoded the same way.
pub proof fn lemma_encoded_url_starts_with_target(
    api: ApiConfig,
    path: Seq<char>,
    query: Option<Seq<char>>,
)
    ensures
        has_prefix(encode_controls(target_url_text(api, path, query)), encode_controls(api.target@)),
{
    let t = target_url_text(api, path, query);
    let n = api.target@.len();
    lemma_url_starts_with_target(api, path, query);
    let rest = t.subrange(n as int, t.len() as int);
    assert(t =~= api.target@ + rest);
    lemma_encode_utf8_concat(api.target@, rest);
    lemma_encode_control_bytes_concat(encode_utf8(api.target@), encode_utf8(rest));
    let e = encode_controls(t);
    let et = encode_controls(api.target@);
    assert(e == et + encode_control_bytes(encode_utf8(rest)));
    assert(e.subrange(0, et.len() as int) =~= et);
}

/// Every header of the WebSocket handshake is left out of a relay:
/// `connection`, `upgrade`, `sec-websocket-key`, `sec-websocket-extensions`
/// and `sec-websocket-version` are handshake headers, and none of them is
/// `host`.
pub proof fn lemma_handshake_headers_left_out(name: Seq<char>)
    ensures
        name == "connection"@ || name == "upgrade"@ || name == "sec-websocket-key"@
            || name == "sec-websocket-extensions"@ || name == "sec-websocket-version"@ ==> {
            &&& is_handshake_header(name)
            &&& name != "host"@
        },
{
    reveal_strlit("host");
    reveal_strlit("connection");
    reveal_strlit("upgrade");
    reveal_strlit("sec-websocket-key");
    reveal_strlit("sec-websocket-extensions");
    reveal_strlit("sec-websocket-version");
    if name == "connection"@ || name == "upgrade"@ || name == "sec-websocket-key"@
        || name == "sec-websocket-extensions"@ || name == "sec-websocket-version"@ {
        assert(name.len() != "host"@.len());
    }
}

/// The cookies sent upstream depend on `no_forward_cookies` alone: the
/// request's cookies followed by the configured ones when cookies are
/// forwarded, only the configured ones otherwise, whether or not headers
/// are forwarded.
pub proof fn lemma_cookies_follow_their_own_setting(
    api: ApiConfig,
    incoming: Seq<(Seq<char>, Seq<char>)>,
)
    ensures
        !api.no_forward_cookies ==> forwarded_cookies(api, incoming) == incoming + cookie_pairs(
            api.inject_cookies@,
        ),
        api.no_forward_cookies ==> forwarded_cookies(api, incoming) == cookie_pairs(
            api.inject_cookies@,
        ),
        forwarded_cookies(api, incoming) == forwarded_cookies(
            ApiConfig { no_forward_headers: !api.no_forward_headers, ..api },
            incoming,
        ),
{
    assert(Seq::<(Seq<char>, Seq<char>)>::empty() + cookie_pairs(api.inject_cookies@)
        =~= cookie_pairs(api.inject_cookies@));
}

/// The upstream URL joins the target and the forwarded path with exactly
/// one `/` (when no target path or prefix comes between them): a `/` is
/// added only when neither the target ends with one nor the path starts
/// with one, and one of two is dropped when both do. The query follows
/// after `?`.
pub proof fn lemma_one_slash_between_target_and_path(
    api: ApiConfig,
    path: Seq<char>,
    query: Option<Seq<char>>,
)
    requires
        api.target_path is None,
        api.path_prefix is None,
    ensures
        ({
            let t = target_url_text(api, path, query);
            let target = api.target@;
            let p = if api.keep_proxy_path {
                path
            } else {
                trim_prefix_all(path, api.path@)
            };
            let q = match query {
                Some(q) => "?"@ + q,
                None => Seq::empty(),
            };
            &&& has_suffix(target, "/"@) && !has_prefix(p, "/"@) ==> t == target + p + q
            &&& has_suffix(target, "/"@) && has_prefix(p, "/"@) ==> t == target + p.subrange(
                1,
                p.len() as int,
            ) + q
            &&& !has_suffix(target, "/"@) && !has_prefix(p, "/"@) ==> t == target + "/"@ + p + q
            &&& !has_suffix(target, "/"@) && has_prefix(p, "/"@) ==> t == target + p + q
        }),
{
    reveal_strlit("/");
    let target = api.target@;
    let p = if api.keep_proxy_path {
        path
    } else {
        trim_prefix_all(path, api.path@)
    };
    let q = match query {
        Some(q) => "?"@ + q,
        None => Seq::<char>::empty(),
    };
    let u0 = if has_suffix(target, "/"@) {
        target
    } else {
        target + "/"@
    };
    let u1 = u0 + opt_text(api.target_path) + opt_text(api.path_prefix);
    assert(u1 =~= u0);
    let t = target_url_text(api, path, query);
    if has_suffix(target, "/"@) {
        if has_prefix(p, "/"@) {
            assert(p[0] == '/') by {
                assert(p.subrange(0, 1)[0] == p[0]);
            }
            assert(target.last() == '/') by {
                assert(target.subrange(target.len() - 1, target.len() as int)[0] == target.last());
            }
            assert(target.drop_last() + p =~= target + p.subrange(1, p.len() as int));
            assert(t =~= target + p.subrange(1, p.len() as int) + q);
        } else {
            assert(t =~= target + p + q);
        }
    } else {
        assert(has_suffix(u0, "/"@)) by {
            assert(u0.subrange(u0.len() - 1, u0.len() as int) =~= "/"@);
        }
        if has_prefix(p, "/"@) {
            assert(u0.drop_last() =~= target);
            assert(t =~= target + p + q);
        } else {
            assert(t =~= target + "/"@ + p + q);
        }
    }
}

/// Unless the proxy path is kept, the API path in front of the request path
/// is removed: a request for the API path followed by `rest` is forwarded
/// with `rest` (when `rest` does not itself begin with the API path).
pub proof fn lemma_proxy_path_removed(api_path: Seq<char>, rest: Seq<char>)
    requires
        api_path.len() > 0,
        !has_prefix(rest, api_path),
    ensures
        trim_prefix_all(api_path + rest, api_path) == rest,
{
    let s = api_path + rest;
    assert(s.subrange(0, api_path.len() as int) =~= api_path);
    assert(s.subrange(api_path.len() as int, s.len() as int) =~= rest);
    assert(trim_prefix_all(rest, api_path) == rest);
}

/// Forwarded request headers named `host` carry the upstream host.
pub proof fn lemma_forwarded_host_header(
    api: ApiConfig,
    incoming: Seq<(String, Vec<u8>)>,
    host: Seq<char>,
    i: int,
)
    requires
        !api.no_forward_headers,
        0 <= i < incoming.len(),
        incoming[i].0@ == "host"@,
    ensures
        forwarded_headers(api, incoming, host)[i] == ("host"@, encode_utf8(host)),
{
}

/// When headers are not forwarded, only the configured ones are sent.
pub proof fn lemma_only_injected_headers(
    api: ApiConfig,
    incoming: Seq<(String, Vec<u8>)>,
    host: Seq<char>,
)
    requires
        api.no_forward_headers,
    ensures
        forwarded_headers(api, incoming, host) == api.inject_headers@.map_values(
            |kv: (String, String)| (kv.0@, encode_utf8(kv.1@)),
        ),
{
    assert(forwarded_headers(api, incoming, host) =~= api.inject_headers@.map_values(
        |kv: (String, String)| (kv.0@, encode_utf8(kv.1@)),
    ));
}

/// The configured headers are sent after the request's own, each name
/// once: in the headers sent upstream, no two injected headers share a
/// name.
pub proof fn lemma_injected_headers_once(
    api: ApiConfig,
    incoming: Seq<(String, Vec<u8>)>,
    host: Seq<char>,
)
    requires
        api.well_formed(),
    ensures
        ({
            let sent = forwarded_headers(api, incoming, host);
            let start = sent.len() - api.inject_headers@.len();
            &&& start >= 0
            &&& forall|i: int, j: int|
                start <= i < j < sent.len() ==> #[trigger] sent[i].0 != #[trigger] sent[j].0
        }),
{
    let sent = forwarded_headers(api, incoming, host);
    let injected = api.inject_headers@;
    let start = sent.len() - injected.len();
    assert forall|i: int, j: int| start <= i < j < sent.len() implies #[trigger] sent[i].0
        != #[trigger] sent[j].0 by {
        assert(sent[i] == (injected[i - start].0@, encode_utf8(injected[i - start].1@)));
        assert(sent[j] == (injected[j - start].0@, encode_utf8(injected[j - start].1@)));
    }
}

// ---------------------------------------------------------------------------
// Helpers
// ---------------------------------------------------------------------------

/// `utf8_percent_encode(s, CONTROLS)` from `percent_encoding`, as text.
#[verifier::external_body]
fn percent_encode_controls(s: &str) -> (r: String)
    ensures
        r@ == encode_controls(s@),
{
    percent_encoding::utf8_percent_encode(s, percent_encoding::CONTROLS).to_string()
}

/// `String::from_utf8`: the text that the bytes encode when they are
/// UTF-8, else the error's message.
#[verifier::external_body]
fn utf8_text(b: &[u8]) -> (r: Result<String, String>)
    ensures
        r is Ok <==> valid_utf8(b@),
        r matches Ok(s) ==> s@ == decode_utf8(b@),
{
    String::from_utf8(b.to_vec()).map_err(|e| e.to_string())
}

/// A copy of the bytes `b`.
fn bytes_of(b: &[u8]) -> (r: Vec<u8>)
    ensures
        r@ == b@,
{
    let mut r: Vec<u8> = Vec::new();
    let mut i: usize = 0;
    while i < b.len()
        invariant
            i <= b.len(),
            r@ == b@.take(i as int),
        decreases b.len() - i,
    {
        r.push(b[i]);
        assert(b@.take(i + 1) =~= b@.take(i as int).push(b@[i as int]));
        i = i + 1;
    }
    assert(b@.take(b.len() as int) =~= b@);
    r
}

/// The text of a header value, when every byte is visible ASCII or a tab.
fn header_text(b: &[u8]) -> (r: Option<String>)
    ensures
        r is Some <==> visible_ascii(b@),
        r matches Some(s) ==> s@ == ascii_text(b@),
{
    let mut s = String::new();
    let mut i: usize = 0;
    while i < b.len()
        invariant
            i <= b.len(),
            forall|k: int| 0 <= k < i ==> (32 <= #[trigger] b@[k] < 127 || b@[k] == 9),
            s@ == ascii_text(b@.take(i as int)),
        decreases b.len() - i,
    {
        let x = b[i];
        if !((32 <= x && x < 127) || x == 9) {
            return None;
        }
        push_char(&mut s, x as char);
        assert(ascii_text(b@.take(i + 1)) =~= ascii_text(b@.take(i as int)).push(x as char));
        i = i + 1;
    }
    assert(b@.take(b.len() as int) =~= b@);
    Some(s)
}

} // verus!
