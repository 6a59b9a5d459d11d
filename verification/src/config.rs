//! Configuration models and the payload validation rules.
//!
//! A configuration holds one or more proxy servers, each with API routes;
//! an API in rule mode checks JSON payloads against [`Rule`]s. Numbers are
//! compared through ordering keys: integers that order as the numbers'
//! double values do (see [`crate::json::JsonNumber`]).
use vstd::prelude::*;

use crate::errors::{outcome_is, Error, ErrorView};
use crate::json::{json_seq_view, lemma_json_seq_view, JsonValue, JsonView};
use crate::text::{chars_of, to_lowercase, unicode_lower};

verus! {

broadcast use vstd::std_specs::vec::group_vec_axioms, vstd::seq::group_seq_axioms;

/// Root configuration object.
#[derive(Debug, Clone, Default)]
pub struct Config {
    /// List of configured proxy servers.
    pub servers: Vec<ServerConfig>,
}

/// Configuration for a single proxy server.
#[derive(Debug, Clone, Default)]
pub struct ServerConfig {
    /// Human-readable server name.
    pub name: String,
    /// Address to bind to, e.g. `0.0.0.0:8080`.
    pub listen: String,
    /// Enable HTTPS listener.
    pub https: bool,
    /// Redirect incoming HTTP traffic to HTTPS.
    pub redirect_http_to_https: bool,
    /// TLS certificate file path.
    pub cert_file: Option<String>,
    /// TLS private key file path.
    pub key_file: Option<String>,
    /// Maximum allowed request payload size (bytes).
    pub payload_limit: Option<usize>,
    /// Optional rate limiting configuration.
    pub rate_limit: Option<RateLimitConfig>,
    /// API route definitions handled by this server.
    pub apis: Vec<ApiConfig>,
}

/// Configuration for a single proxied API endpoint.
#[derive(Debug, Clone, Default)]
pub struct ApiConfig {
    /// Incoming request path to match.
    pub path: String,
    /// Target upstream URL.
    pub target: String,
    /// Optional override for forwarded path.
    pub target_path: Option<String>,
    /// Optional path prefix added to the forwarded path.
    pub path_prefix: Option<String>,
    /// API operation mode.
    pub mode: Mode,
    /// Required `Content-Type` for incoming requests.
    pub content_type: Option<String>,
    /// Required HTTP method (e.g. `POST`, `GET`).
    pub method: Option<String>,
    /// Header filtering rules.
    pub header_rules: Vec<HeaderRule>,
    /// Headers injected into forwarded requests, as (name, value) pairs,
    /// each name at most once (see [`ApiConfig::injections_unique`]).
    pub inject_headers: Vec<(String, String)>,
    /// Cookies injected into forwarded requests, as (name, value) pairs,
    /// each name at most once (see [`ApiConfig::injections_unique`]).
    pub inject_cookies: Vec<(String, String)>,
    /// Payload validation rules.
    pub rules: Vec<Rule>,
    /// Per-API payload size limit.
    pub payload_limit: Option<usize>,
    /// Override server-level HTTP→HTTPS redirect behavior.
    pub redirect_http_to_https: Option<bool>,
    /// Per-API rate limiting configuration.
    pub rate_limit: Option<RateLimitConfig>,
    /// Default action when validation fails.
    pub policy: ApiPolicy,
    /// Disable response decompression.
    pub no_decompress: bool,
    /// Do not forward client headers upstream.
    pub no_forward_headers: bool,
    /// Do not forward client cookies upstream.
    pub no_forward_cookies: bool,
    /// Rewrite absolute links in HTML responses.
    pub replace_html_links: bool,
    /// Include unmatched request tail in forwarded path.
    pub include_tail: bool,
    /// Preserve original proxy path when forwarding.
    pub keep_proxy_path: bool,
}

/// API processing mode.
#[derive(Debug, Clone, Copy, PartialEq, Eq, Structural)]
pub enum Mode {
    /// Raw proxying with minimal processing.
    Raw,
    /// Apply validation rules and policies.
    Rule,
}

impl Default for Mode {
    fn default() -> (m: Self)
        ensures
            m == Mode::Raw,
    {
        Mode::Raw
    }
}

/// A header filtering rule.
#[derive(Debug, Clone, Default)]
pub struct HeaderRule {
    pub name: String,
    pub action: HeaderAction,
}

/// What a header rule does: block, drop or allow.
#[derive(Debug, Clone, Copy, PartialEq, Eq, Structural)]
pub enum HeaderAction {
    Block,
    Drop,
    Allow,
}

impl Default for HeaderAction {
    fn default() -> (a: Self)
        ensures
            a == HeaderAction::Allow,
    {
        HeaderAction::Allow
    }
}

/// Payload validation rule.
///
/// Rules are applied to JSON fields and support nested paths such as
/// `sensor.readings[0].value`.
#[derive(Debug, Clone, Default)]
pub struct Rule {
    /// Field name or JSON path.
    pub field: String,
    /// Expected field type.
    pub field_type: Option<FieldType>,
    /// Numeric minimum value, as an ordering key.
    pub min: Option<i64>,
    /// Numeric maximum value, as an ordering key.
    pub max: Option<i64>,
    /// Exact allowed values.
    pub exact: Option<Vec<JsonValue>>,
    /// Minimum string length.
    pub min_string_length: Option<usize>,
    /// Maximum string length.
    pub max_string_length: Option<usize>,
    /// Minimum array length.
    pub min_array_length: Option<usize>,
    /// Maximum array length.
    pub max_array_length: Option<usize>,
    /// Allow field to be missing.
    pub optional: bool,
}

/// Default action applied when an API validation fails.
#[derive(Debug, Clone, Copy, PartialEq, Eq, Structural)]
pub enum ApiPolicy {
    /// Allow the request despite validation errors.
    Allow,
    /// Reject the request with an error response.
    Block,
    /// Silently drop the request.
    Drop,
}

impl Default for ApiPolicy {
    fn default() -> (p: Self)
        ensures
            p == ApiPolicy::Allow,
    {
        ApiPolicy::Allow
    }
}

/// Rate limiting configuration.
#[derive(Debug, Default, Clone, Copy)]
pub struct RateLimitConfig {
    /// Allowed requests per second.
    pub requests_per_sec: Option<u64>,
    /// Maximum burst size.
    pub burst: Option<u64>,
}

/// The JSON type a field must have.
#[derive(Debug, Clone, Copy, PartialEq, Eq, Structural)]
pub enum FieldType {
    Null,
    Bool,
    Number,
    String,
    Array,
    Object,
}

impl Default for FieldType {
    fn default() -> (t: Self)
        ensures
            t == FieldType::String,
    {
        FieldType::String
    }
}

impl FieldType {
    /// The type's name, as `Debug` prints it.
    pub fn name(&self) -> (s: &'static str)
        ensures
            *self == FieldType::Null ==> s@ == "Null"@,
            *self == FieldType::Bool ==> s@ == "Bool"@,
            *self == FieldType::Number ==> s@ == "Number"@,
            *self == FieldType::String ==> s@ == "String"@,
            *self == FieldType::Array ==> s@ == "Array"@,
            *self == FieldType::Object ==> s@ == "Object"@,
    {
        match self {
            FieldType::Null => "Null",
            FieldType::Bool => "Bool",
            FieldType::Number => "Number",
            FieldType::String => "String",
            FieldType::Array => "Array",
            FieldType::Object => "Object",
        }
    }
}

/// The file formats a configuration can be written in.
#[derive(Debug, Clone, Copy, PartialEq, Eq, Structural)]
pub enum ConfigFormat {
    Toml,
    Json,
}

/// The formats to try, in order, for a configuration file whose extension
/// (lower-cased) is `ext`.
pub open spec fn formats_for(ext: Seq<char>) -> Seq<ConfigFormat> {
    if ext == "toml"@ {
        seq![ConfigFormat::Toml]
    } else if ext == "json"@ {
        seq![ConfigFormat::Json]
    } else {
        seq![ConfigFormat::Toml, ConfigFormat::Json]
    }
}

/// The configuration file read when none is given.
pub open spec fn default_config_path() -> Seq<char> {
    "config.toml"@
}

/// Each name occurs at most once among `pairs`, as among the keys of a map.
pub open spec fn distinct_names(pairs: Seq<(String, String)>) -> bool {
    forall|i: int, j: int| 0 <= i < j < pairs.len() ==> pairs[i].0@ != pairs[j].0@
}

/// Whether no name occurs twice among `pairs`.
fn names_distinct(pairs: &Vec<(String, String)>) -> (r: bool)
    ensures
        r == distinct_names(pairs@),
{
    let mut j: usize = 0;
    while j < pairs.len()
        invariant
            j <= pairs.len(),
            forall|a: int, b: int| 0 <= a < b < j ==> pairs@[a].0@ != pairs@[b].0@,
        decreases pairs.len() - j,
    {
        let name = chars_of(pairs[j].0.as_str());
        let mut i: usize = 0;
        while i < j
            invariant
                i <= j < pairs.len(),
                name@ == pairs@[j as int].0@,
                forall|a: int| 0 <= a < i ==> pairs@[a].0@ != pairs@[j as int].0@,
            decreases j - i,
        {
            if crate::text::eq_chars(&chars_of(pairs[i].0.as_str()), &name) {
                return false;
            }
            i = i + 1;
        }
        j = j + 1;
    }
    true
}

impl ApiConfig {
    /// The injected headers, and the injected cookies, each name once.
    pub open spec fn well_formed(&self) -> bool {
        distinct_names(self.inject_headers@) && distinct_names(self.inject_cookies@)
    }

    /// Whether no injected header name, and no injected cookie name,
    /// occurs twice.
    pub fn injections_unique(&self) -> (r: bool)
        ensures
            r == self.well_formed(),
    {
        names_distinct(&self.inject_headers) && names_distinct(&self.inject_cookies)
    }
}

impl Config {
    /// The formats that loading tries, in order, for a file with extension
    /// `ext`: the format that the extension names (case does not matter),
    /// else TOML first and then JSON.
    pub fn formats_for_extension(ext: &str) -> (r: Vec<ConfigFormat>)
        ensures
            r@ == formats_for(unicode_lower(ext@)),
    {
        let lower = to_lowercase(ext);
        let toml = "toml";
        let json = "json";
        proof {
            reveal_strlit("toml");
            reveal_strlit("json");
        }
        let l = chars_of(lower.as_str());
        let t = chars_of(toml);
        let j = chars_of(json);
        if crate::text::eq_chars(&l, &t) {
            vec![ConfigFormat::Toml]
        } else if crate::text::eq_chars(&l, &j) {
            vec![ConfigFormat::Json]
        } else {
            vec![ConfigFormat::Toml, ConfigFormat::Json]
        }
    }

    /// The configuration file to load: the one given, else `config.toml`.
    pub fn path_or_default(arg: Option<String>) -> (p: String)
        ensures
            arg matches Some(a) ==> p@ == a@,
            arg is None ==> p@ == default_config_path(),
    {
        match arg {
            Some(a) => a,
            None => String::from_str("config.toml"),
        }
    }
}

// ---------------------------------------------------------------------------
// The model of validation
// ---------------------------------------------------------------------------

/// `v` is of JSON type `t`.
pub open spec fn type_matches(v: JsonView, t: FieldType) -> bool {
    match t {
        FieldType::Null => v is Null,
        FieldType::Bool => v is Bool,
        FieldType::Number => v is Number,
        FieldType::String => v is Str,
        FieldType::Array => v is Array,
        FieldType::Object => v is Object,
    }
}

/// The allowed values of `rule`, when it lists them.
pub open spec fn exact_values(rule: Rule) -> Option<Seq<JsonView>> {
    match rule.exact {
        Some(list) => Some(json_seq_view(list@)),
        None => None,
    }
}

/// The error of the type check of `v`, if it fails.
pub open spec fn type_error(rule: Rule, v: JsonView, t: FieldType) -> Option<ErrorView> {
    if type_matches(v, t) {
        None
    } else {
        Some(ErrorView::FieldTypeIncorrect(rule.field@, t))
    }
}

/// The error of the check that `v` is among the allowed values `list`: an
/// empty list allows anything; a value not in the list is reported with
/// the first allowed value, the first one it was compared against.
pub open spec fn exact_error(rule: Rule, list: Seq<JsonView>, v: JsonView) -> Option<ErrorView> {
    if list.len() == 0 || list.contains(v) {
        None
    } else {
        Some(ErrorView::FieldNotInExactList(rule.field@, v, list[0]))
    }
}

/// The error of the bound checks of a number with ordering key `x`.
pub open spec fn number_error(rule: Rule, x: i64) -> Option<ErrorView> {
    if rule.min is Some && x < rule.min->0 {
        Some(ErrorView::FieldLowerThanMinimum(rule.field@, x, rule.min->0))
    } else if rule.max is Some && x > rule.max->0 {
        Some(ErrorView::FieldHigherThanMaximum(rule.field@, x, rule.max->0))
    } else {
        None
    }
}

/// The error of the length checks of a string of `len` characters.
pub open spec fn string_error(rule: Rule, len: nat) -> Option<ErrorView> {
    if rule.min_string_length is Some && len < rule.min_string_length->0 {
        Some(
            ErrorView::FieldLengthLowerThanMinimum(
                rule.field@,
                len as usize,
                rule.min_string_length->0,
            ),
        )
    } else if rule.max_string_length is Some && len > rule.max_string_length->0 {
        Some(
            ErrorView::FieldLengthHigherThanMaximum(
                rule.field@,
                len as usize,
                rule.max_string_length->0,
            ),
        )
    } else {
        None
    }
}

/// The error of the length checks of an array of `len` items.
pub open spec fn array_length_error(rule: Rule, len: nat) -> Option<ErrorView> {
    if rule.min_array_length is Some && len < rule.min_array_length->0 {
        Some(
            ErrorView::FieldLengthLowerThanMinimum(
                rule.field@,
                len as usize,
                rule.min_array_length->0,
            ),
        )
    } else if rule.max_array_length is Some && len > rule.max_array_length->0 {
        Some(
            ErrorView::FieldLengthHigherThanMaximum(
                rule.field@,
                len as usize,
                rule.max_array_length->0,
            ),
        )
    } else {
        None
    }
}

/// The first error among the items of an array, each checked as a value of
/// its own.
pub open spec fn items_error(rule: Rule, items: Seq<JsonView>) -> Option<ErrorView>
    decreases items,
{
    if items.len() == 0 {
        None
    } else {
        match rule_error(rule, items[0], false) {
            Some(e) => Some(e),
            None => items_error(rule, items.subrange(1, items.len() as int)),
        }
    }
}

/// The first error that checking `v` against `rule` meets, in this order:
/// the type (unless `is_inner`), the allowed values, the bounds of a
/// number, the length of a string, the length of an array, and then each
/// item of an array.
pub open spec fn rule_error(rule: Rule, v: JsonView, is_inner: bool) -> Option<ErrorView>
    decreases v,
{
    if !is_inner && rule.field_type is Some && type_error(rule, v, rule.field_type->0) is Some {
        type_error(rule, v, rule.field_type->0)
    } else if exact_values(rule) is Some && exact_error(rule, exact_values(rule)->0, v) is Some {
        exact_error(rule, exact_values(rule)->0, v)
    } else {
        match v {
            JsonView::Number(n) => number_error(rule, n.order),
            JsonView::Str(s) => string_error(rule, s.len()),
            JsonView::Array(items) => if array_length_error(rule, items.len()) is Some {
                array_length_error(rule, items.len())
            } else {
                items_error(rule, items)
            },
            _ => None,
        }
    }
}

/// `v` meets every constraint of `rule`, in no particular order: its type,
/// the allowed values, the bounds of a number, the length of a string, the
/// length of an array, and each item of an array.
pub open spec fn conforms(rule: Rule, v: JsonView) -> bool
    decreases v,
{
    &&& (rule.field_type matches Some(t) ==> type_matches(v, t))
    &&& (exact_values(rule) matches Some(list) ==> list.len() == 0 || list.contains(v))
    &&& match v {
        JsonView::Number(n) => {
            &&& (rule.min matches Some(m) ==> m <= n.order)
            &&& (rule.max matches Some(m) ==> n.order <= m)
        },
        JsonView::Str(s) => {
            &&& (rule.min_string_length matches Some(m) ==> m <= s.len())
            &&& (rule.max_string_length matches Some(m) ==> s.len() <= m)
        },
        JsonView::Array(items) => {
            &&& (rule.min_array_length matches Some(m) ==> m <= items.len())
            &&& (rule.max_array_length matches Some(m) ==> items.len() <= m)
            &&& items_conform(rule, items)
        },
        _ => true,
    }
}

/// Every item of `items` meets `rule`.
pub open spec fn items_conform(rule: Rule, items: Seq<JsonView>) -> bool
    decreases items,
{
    items.len() == 0 || (conforms(rule, items[0]) && items_conform(
        rule,
        items.subrange(1, items.len() as int),
    ))
}

/// The JSON type of a value.
pub open spec fn json_kind(v: JsonView) -> FieldType {
    match v {
        JsonView::Null => FieldType::Null,
        JsonView::Bool(_) => FieldType::Bool,
        JsonView::Number(_) => FieldType::Number,
        JsonView::Str(_) => FieldType::String,
        JsonView::Array(_) => FieldType::Array,
        JsonView::Object(_) => FieldType::Object,
    }
}

/// A rule with a required type refuses every value of another JSON type
/// (an array is no object, an object no array, ...) with
/// `FieldTypeIncorrect`, before any other check; the type check alone
/// passes exactly the values of the required type.
pub proof fn lemma_type_rule_refuses_other_kinds(rule: Rule, v: JsonView, t: FieldType)
    requires
        rule.field_type == Some(t),
    ensures
        json_kind(v) != t ==> rule_error(rule, v, false) == Some(
            ErrorView::FieldTypeIncorrect(rule.field@, t),
        ),
        (type_error(rule, v, t) is None) <==> json_kind(v) == t,
{
}

/// Validation accepts exactly the values that meet every constraint of the
/// rule: the order in which the checks are made decides only which error
/// is reported.
pub proof fn lemma_validation_accepts_conforming(rule: Rule, v: JsonView)
    ensures
        (rule_error(rule, v, false) is None) == conforms(rule, v),
    decreases v,
{
    if let JsonView::Array(items) = v {
        lemma_items_accept_conforming(rule, items);
    }
}

/// The items of an array pass exactly when each of them meets the rule.
pub proof fn lemma_items_accept_conforming(rule: Rule, items: Seq<JsonView>)
    ensures
        (items_error(rule, items) is None) == items_conform(rule, items),
    decreases items,
{
    if items.len() > 0 {
        lemma_validation_accepts_conforming(rule, items[0]);
        lemma_items_accept_conforming(rule, items.subrange(1, items.len() as int));
    }
}

/// Every item of `items` meets `rule` exactly when each of them does.
pub proof fn lemma_items_conform_each(rule: Rule, items: Seq<JsonView>)
    ensures
        items_conform(rule, items) == (forall|i: int|
            0 <= i < items.len() ==> conforms(rule, #[trigger] items[i])),
    decreases items.len(),
{
    if items.len() > 0 {
        let rest = items.subrange(1, items.len() as int);
        lemma_items_conform_each(rule, rest);
        if items_conform(rule, items) {
            assert forall|i: int| 0 <= i < items.len() implies conforms(rule, #[trigger] items[i]) by {
                if i > 0 {
                    assert(rest[i - 1] == items[i]);
                }
            }
        }
        if forall|i: int| 0 <= i < items.len() ==> conforms(rule, #[trigger] items[i]) {
            assert forall|i: int| 0 <= i < rest.len() implies conforms(rule, #[trigger] rest[i]) by {
                assert(rest[i] == items[i + 1]);
            }
        }
    }
}

// ---------------------------------------------------------------------------
// Validation
// ---------------------------------------------------------------------------

impl Rule {
    /// Validate a JSON value against this rule.
    pub fn validate(&self, v: &JsonValue) -> (r: Result<(), Error>)
        ensures
            outcome_is(r, rule_error(*self, v@, false)),
        decreases v, 2int,
    {
        self.validate_rule(v, false)
    }

    /// Check `v` against this rule; `is_inner` skips the type check.
    pub fn validate_rule(&self, v: &JsonValue, is_inner: bool) -> (r: Result<(), Error>)
        ensures
            outcome_is(r, rule_error(*self, v@, is_inner)),
        decreases v, 1int,
    {
        if !is_inner {
            if let Some(x) = self.field_type {
                self.validate_type(v, x)?;
            }
        }
        if let Some(exact) = &self.exact {
            self.validate_exact(exact, v)?;
        }
        match v {
            JsonValue::Number(n) => self.validate_number(n.order),
            JsonValue::String(s) => self.validate_string(s.as_str()),
            JsonValue::Array(items) => {
                proof {
                    lemma_json_seq_view(items@);
                }
                self.validate_array(items)
            },
            _ => Ok(()),
        }
    }

    /// Check that `v` is of type `x`.
    pub fn validate_type(&self, v: &JsonValue, x: FieldType) -> (r: Result<(), Error>)
        ensures
            outcome_is(r, type_error(*self, v@, x)),
    {
        let ok = match x {
            FieldType::Null => matches!(v, JsonValue::Null),
            FieldType::Bool => matches!(v, JsonValue::Bool(_)),
            FieldType::Number => matches!(v, JsonValue::Number(_)),
            FieldType::String => matches!(v, JsonValue::String(_)),
            FieldType::Array => matches!(v, JsonValue::Array(_)),
            FieldType::Object => matches!(v, JsonValue::Object(_)),
        };
        if !ok {
            return Err(Error::FieldTypeIncorrect(self.field.clone(), x));
        }
        Ok(())
    }

    /// Check the length of the string `v` against the string bounds.
    pub fn validate_string(&self, v: &str) -> (r: Result<(), Error>)
        ensures
            outcome_is(r, string_error(*self, v@.len())),
    {
        let str_len = chars_of(v).len();
        if let Some(min) = self.min_string_length {
            if str_len < min {
                return Err(Error::FieldLengthLowerThanMinimum(self.field.clone(), str_len, min));
            }
        }
        if let Some(max) = self.max_string_length {
            if str_len > max {
                return Err(Error::FieldLengthHigherThanMaximum(self.field.clone(), str_len, max));
            }
        }
        Ok(())
    }

    /// Check a number, given by its ordering key `x`, against the bounds.
    pub fn validate_number(&self, x: i64) -> (r: Result<(), Error>)
        ensures
            outcome_is(r, number_error(*self, x)),
    {
        if let Some(min) = self.min {
            if x < min {
                return Err(Error::FieldLowerThanMinimum(self.field.clone(), x, min));
            }
        }
        if let Some(max) = self.max {
            if x > max {
                return Err(Error::FieldHigherThanMaximum(self.field.clone(), x, max));
            }
        }
        Ok(())
    }

    /// Check that `v` is one of the allowed values `exact` (an empty list
    /// allows anything).
    pub fn validate_exact(&self, exact: &Vec<JsonValue>, v: &JsonValue) -> (r: Result<(), Error>)
        ensures
            outcome_is(r, exact_error(*self, json_seq_view(exact@), v@)),
    {
        proof {
            lemma_json_seq_view(exact@);
        }
        let ghost list = json_seq_view(exact@);
        let mut i: usize = 0;
        while i < exact.len()
            invariant
                i <= exact.len(),
                list == json_seq_view(exact@),
                list.len() == exact@.len(),
                forall|j: int| 0 <= j < exact@.len() ==> #[trigger] list[j] == exact@[j]@,
                forall|j: int| 0 <= j < i ==> list[j] != v@,
            decreases exact.len() - i,
        {
            if exact[i].equals(v) {
                assert(list[i as int] == v@);
                return Ok(());
            }
            i = i + 1;
        }
        if exact.len() == 0 {
            return Ok(());
        }
        Err(Error::FieldNotInExactList(self.field.clone(), v.clone(), exact[0].clone()))
    }

    /// Check the length of the array `v` against the array bounds, then each
    /// item against this rule.
    #[verifier::loop_isolation(false)]
    pub fn validate_array(&self, v: &Vec<JsonValue>) -> (r: Result<(), Error>)
        ensures
            outcome_is(
                r,
                if array_length_error(*self, v@.len()) is Some {
                    array_length_error(*self, v@.len())
                } else {
                    items_error(*self, json_seq_view(v@))
                },
            ),
        decreases v, 0int,
    {
        if let Some(min) = self.min_array_length {
            if v.len() < min {
                return Err(Error::FieldLengthLowerThanMinimum(self.field.clone(), v.len(), min));
            }
        }
        if let Some(max) = self.max_array_length {
            if v.len() > max {
                return Err(Error::FieldLengthHigherThanMaximum(self.field.clone(), v.len(), max));
            }
        }
        proof {
            lemma_json_seq_view(v@);
        }
        let ghost items = json_seq_view(v@);
        let mut i: usize = 0;
        assert(items.subrange(0, items.len() as int) =~= items);
        while i < v.len()
            invariant
                i <= v.len(),
                items_error(*self, items.subrange(i as int, items.len() as int)) == items_error(
                    *self,
                    items,
                ),
            decreases v.len() - i,
        {
            let ghost rest = items.subrange(i as int, items.len() as int);
            assert(rest[0] == v@[i as int]@);
            assert(rest.subrange(1, rest.len() as int) =~= items.subrange(
                i + 1,
                items.len() as int,
            ));
            assert(decreases_to!(v => v@[i as int]));
            self.validate(&v[i])?;
            i = i + 1;
        }
        Ok(())
    }
}

} // verus!
