//! Rewriting of links in HTML, JavaScript and CSS bodies, so that they
//! point through the proxy.
//!
//! Matching is done by `regex`, HTML is parsed by `scraper` and URLs are
//! resolved by `url`; what each match is replaced with, and which links are
//! rewritten, is decided by the verified functions here.
use vstd::prelude::*;

use crate::proxy::Proxy;
use crate::text::{
    append_chars, chars_of, contains, contains_text, has_prefix, replace_all, replace_text,
    starts_with, string_of,
};

verus! {

broadcast use vstd::std_specs::vec::group_vec_axioms, vstd::seq::group_seq_axioms;

// ---------------------------------------------------------------------------
// Names for what the outside crates compute
// ---------------------------------------------------------------------------

/// What `regex` gives for `html` with the pattern `pattern`: `None` when the
/// pattern does not compile, else `html` with every match replaced by
/// [`Proxy::ref_match_replacement`] applied to the match's groups 1 (the
/// attribute), 2 (a value in double quotes) and 3 (a value in single
/// quotes), a group that did not take part being empty or absent, and
/// `prefix`.
pub uninterp spec fn refs_rewritten(pattern: Seq<char>, html: Seq<char>, prefix: Seq<char>) -> Option<Seq<char>>;

/// What `regex` gives for `js` with the pattern `pattern`: `None` when the
/// pattern does not compile, else `js` with every match replaced by
/// [`Proxy::js_replacement`] applied to the whole match, its groups 1 (the
/// function) and 2 (the URL), a group that did not take part being empty,
/// and `prefix`.
pub uninterp spec fn js_rewritten(pattern: Seq<char>, js: Seq<char>, prefix: Seq<char>) -> Option<Seq<char>>;

/// What `regex` gives for `css` with the pattern `pattern`: `None` when the
/// pattern does not compile, else `css` with every match replaced by
/// [`Proxy::css_match_replacement`] applied to the whole match, its groups
/// 1 (a URL in double quotes), 2 (in single quotes) and 3 (bare), each
/// absent when it did not take part, and `prefix`.
pub uninterp spec fn css_rewritten(pattern: Seq<char>, css: Seq<char>, prefix: Seq<char>) -> Option<Seq<char>>;

/// What `url` resolves to against `base`, as `url::Url::parse(base)` and
/// `Url::join` give it, or `None` when either fails.
pub uninterp spec fn url_joined(base: Seq<char>, url: Seq<char>) -> Option<Seq<char>>;

/// For each element of the HTML document `html`, in document order, the
/// value of each attribute named in `attrs` (in that order), as `scraper`
/// parses the document.
pub uninterp spec fn element_attributes(html: Seq<char>, attrs: Seq<Seq<char>>) -> Seq<
    Seq<Option<Seq<char>>>,
>;

/// `regex::Regex::new(pattern)`, then `replace_all` on `html`, each match
/// replaced by what [`Proxy::ref_match_replacement`] builds from its
/// groups; the error's message when the pattern does not compile.
#[verifier::external_body]
fn regex_replace_refs(pattern: &str, html: &str, prefix: &str) -> (r: Result<String, String>)
    ensures
        match r {
            Ok(s) => refs_rewritten(pattern@, html@, prefix@) == Some(s@),
            Err(_) => refs_rewritten(pattern@, html@, prefix@) is None,
        },
{
    let re = regex::Regex::new(pattern).map_err(|e| e.to_string())?;
    Ok(re.replace_all(
        html,
        |c: &regex::Captures|
            Proxy::ref_match_replacement(
                c.get(1).map_or("", |m| m.as_str()),
                c.get(2).map(|m| m.as_str()),
                c.get(3).map(|m| m.as_str()),
                prefix,
            ),
    ).into_owned())
}

/// `regex::Regex::new(pattern)`, then `replace_all` on `js`, each match
/// replaced by what [`Proxy::js_replacement`] builds from it; the error's
/// message when the pattern does not compile.
#[verifier::external_body]
fn regex_replace_js(pattern: &str, js: &str, prefix: &str) -> (r: Result<String, String>)
    ensures
        match r {
            Ok(s) => js_rewritten(pattern@, js@, prefix@) == Some(s@),
            Err(_) => js_rewritten(pattern@, js@, prefix@) is None,
        },
{
    let re = regex::Regex::new(pattern).map_err(|e| e.to_string())?;
    Ok(re.replace_all(
        js,
        |c: &regex::Captures|
            Proxy::js_replacement(
                &c[0],
                c.get(1).map_or("", |m| m.as_str()),
                c.get(2).map_or("", |m| m.as_str()),
                prefix,
            ),
    ).into_owned())
}

/// `regex::Regex::new(pattern)`, then `replace_all` on `css`, each match
/// replaced by what [`Proxy::css_match_replacement`] builds from it; the
/// error's message when the pattern does not compile.
#[verifier::external_body]
fn regex_replace_css(pattern: &str, css: &str, prefix: &str) -> (r: Result<String, String>)
    ensures
        match r {
            Ok(s) => css_rewritten(pattern@, css@, prefix@) == Some(s@),
            Err(_) => css_rewritten(pattern@, css@, prefix@) is None,
        },
{
    let re = regex::Regex::new(pattern).map_err(|e| e.to_string())?;
    Ok(re.replace_all(
        css,
        |c: &regex::Captures|
            Proxy::css_match_replacement(
                &c[0],
                c.get(1).map(|m| m.as_str()),
                c.get(2).map(|m| m.as_str()),
                c.get(3).map(|m| m.as_str()),
                prefix,
            ),
    ).into_owned())
}

/// `url::Url::parse(base)`, then `Url::join(url)`, then the result as text.
#[verifier::external_body]
fn join_url(base: &str, url: &str) -> (r: Option<String>)
    ensures
        match r {
            Some(s) => url_joined(base@, url@) == Some(s@),
            None => url_joined(base@, url@) is None,
        },
{
    url::Url::parse(base).ok()?.join(url).ok().map(|u| u.to_string())
}

/// `scraper::Html::parse_document`, then every element (the selector `*`,
/// which always parses), and for each the value of each attribute in
/// `attrs` as `Element::attr` gives it.
#[verifier::external_body]
fn select_attributes(html: &str, attrs: &Vec<String>) -> (r: Vec<Vec<Option<String>>>)
    ensures
        table_view(r@) == element_attributes(html@, attrs@.map_values(|a: String| a@)),
{
    let document = scraper::Html::parse_document(html);
    let selector = scraper::Selector::parse("*").unwrap();
    document.select(&selector).map(
        |e| attrs.iter().map(|a| e.value().attr(a).map(|v| v.to_string())).collect(),
    ).collect()
}

// ---------------------------------------------------------------------------
// The model of rewriting
// ---------------------------------------------------------------------------

/// The model of a table of optional attribute values.
pub open spec fn table_view(t: Seq<Vec<Option<String>>>) -> Seq<Seq<Option<Seq<char>>>> {
    t.map_values(
        |row: Vec<Option<String>>|
            row@.map_values(
                |o: Option<String>|
                    match o {
                        Some(s) => Some(s@),
                        None => None,
                    },
            ),
    )
}

/// The attributes whose links a rewritten HTML page gets.
pub open spec fn link_attributes() -> Seq<Seq<char>> {
    seq!["href"@, "src"@, "action"@, "data"@, "poster"@]
}

/// The values present in `row`, in order.
pub open spec fn present_in_row(row: Seq<Option<Seq<char>>>) -> Seq<Seq<char>>
    decreases row.len(),
{
    if row.len() == 0 {
        Seq::empty()
    } else {
        let rest = present_in_row(row.drop_last());
        match row.last() {
            Some(v) => rest.push(v),
            None => rest,
        }
    }
}

/// The values present in `table`, row after row.
pub open spec fn present_values(table: Seq<Seq<Option<Seq<char>>>>) -> Seq<Seq<char>>
    decreases table.len(),
{
    if table.len() == 0 {
        Seq::empty()
    } else {
        present_values(table.drop_last()) + present_in_row(table.last())
    }
}

/// The value of a link attribute after rewriting: a value starting with `/`
/// gets `prefix` in front; any other is kept.
pub open spec fn ref_value(value: Seq<char>, prefix: Seq<char>) -> Seq<char> {
    if has_prefix(value, "/"@) {
        prefix + value
    } else {
        value
    }
}

/// A URL that is rewritten: one starting with `http` or `/`.
pub open spec fn is_rewritable(url: Seq<char>) -> bool {
    has_prefix(url, "http"@) || has_prefix(url, "/"@)
}

/// The new form of a link found in HTML: `None` for `data:`, `javascript:`
/// and `#` links and for links that do not resolve against `base`;
/// otherwise `prefix` followed by the resolved URL.
pub open spec fn url_rewrite(url: Seq<char>, prefix: Seq<char>, base: Seq<char>) -> Option<
    Seq<char>,
> {
    if has_prefix(url, "data:"@) || has_prefix(url, "javascript:"@) || has_prefix(url, "#"@) {
        None
    } else {
        match url_joined(base, url) {
            Some(a) => Some(prefix + a),
            None => None,
        }
    }
}

/// `out` after every value of `values`, in turn, that has a new form has
/// had each of its occurrences replaced by that new form.
pub open spec fn apply_url_rewrites(
    out: Seq<char>,
    values: Seq<Seq<char>>,
    prefix: Seq<char>,
    base: Seq<char>,
) -> Seq<char>
    decreases values.len(),
{
    if values.len() == 0 {
        out
    } else {
        let last = values.last();
        let before = apply_url_rewrites(out, values.drop_last(), prefix, base);
        match url_rewrite(last, prefix, base) {
            Some(n) => replace_text(before, last, n),
            None => before,
        }
    }
}

/// The attributes whose relative references are rewritten: `href`, `src`
/// or `data-href`, `=`, and a value in double quotes (group 2) or in single
/// quotes (group 3), the attribute being group 1.
pub open spec fn refs_pattern() -> Seq<char> {
    "(href|src|data-href)=(?:\"([^\"']*)\"|'([^\"']*)')"@
}

/// The script calls that are rewritten: `fetch`, `axios`, `get`, `post`
/// or `WebSocket` (group 1), `(`, and a quoted URL (group 2), with any
/// white space around the parenthesis.
pub open spec fn js_pattern() -> Seq<char> {
    "(fetch|axios|get|post|WebSocket)\\s*\\(\\s*[\"']([^\"']+)[\"']"@
}

/// The stylesheet URLs that are rewritten: `url(` and `)` around a URL in
/// double quotes (group 1), in single quotes (group 2) or bare (group 3).
pub open spec fn css_pattern() -> Seq<char> {
    "url\\((?:\"([^\"')]+)\"|'([^\"')]+)'|([^\"')]+))\\)"@
}

/// `text` rewritten when the rewriting is defined, else unchanged.
pub open spec fn or_unchanged(rewritten: Option<Seq<char>>, text: Seq<char>) -> Seq<char> {
    match rewritten {
        Some(s) => s,
        None => text,
    }
}

/// An HTML text with its relative references rewritten.
pub open spec fn refs_rewrite(html: Seq<char>, prefix: Seq<char>) -> Seq<char> {
    or_unchanged(refs_rewritten(refs_pattern(), html, prefix), html)
}

/// A script with its calls rewritten.
pub open spec fn js_rewrite(js: Seq<char>, prefix: Seq<char>) -> Seq<char> {
    or_unchanged(js_rewritten(js_pattern(), js, prefix), js)
}

/// A stylesheet with its URLs rewritten.
pub open spec fn css_rewrite(css: Seq<char>, prefix: Seq<char>) -> Seq<char> {
    or_unchanged(css_rewritten(css_pattern(), css, prefix), css)
}

/// An HTML page after rewriting: links in the attributes of its elements,
/// then stylesheet `url(…)`s, then script calls.
pub open spec fn html_rewritten(html: Seq<char>, prefix: Seq<char>, base: Seq<char>) -> Seq<char> {
    let values = present_values(element_attributes(html, link_attributes()));
    js_rewrite(css_rewrite(apply_url_rewrites(html, values, prefix, base), prefix), prefix)
}

/// A body after rewriting, by its content type: HTML, JavaScript or CSS
/// are rewritten; anything else is kept.
pub open spec fn response_rewritten(
    content_type: Seq<char>,
    body: Seq<char>,
    prefix: Seq<char>,
    base: Seq<char>,
) -> Seq<char> {
    if contains_text(content_type, "text/html"@) {
        html_rewritten(body, prefix, base)
    } else if contains_text(content_type, "javascript"@) {
        js_rewrite(body, prefix)
    } else if contains_text(content_type, "text/css"@) {
        css_rewrite(body, prefix)
    } else {
        body
    }
}

/// A link held by any one of the attributes `href`, `src`, `action`, `data`
/// and `poster` of an HTML page is rewritten: for a page whose single
/// element has that attribute alone, with a link `v` that is no `data:`,
/// `javascript:` or `#` link and that resolves against `base` to `u`, the
/// page becomes the page with `prefix` + `u` in place of every `v`, then
/// with its stylesheet and script links rewritten.
pub proof fn lemma_html_link_rewritten(
    html: Seq<char>,
    prefix: Seq<char>,
    base: Seq<char>,
    row: Seq<Option<Seq<char>>>,
    k: int,
    v: Seq<char>,
    u: Seq<char>,
)
    requires
        element_attributes(html, seq!["href"@, "src"@, "action"@, "data"@, "poster"@]) == seq![
            row,
        ],
        row.len() == 5,
        0 <= k < 5,
        row[k] == Some(v),
        forall|j: int| 0 <= j < 5 && j != k ==> row[j] is None,
        !has_prefix(v, "data:"@),
        !has_prefix(v, "javascript:"@),
        !has_prefix(v, "#"@),
        url_joined(base, v) == Some(u),
    ensures
        html_rewritten(html, prefix, base) == js_rewrite(
            css_rewrite(replace_text(html, v, prefix + u), prefix),
            prefix,
        ),
{
    assert(link_attributes() =~= seq!["href"@, "src"@, "action"@, "data"@, "poster"@]);
    let table = seq![row];
    assert(table.drop_last() =~= Seq::<Seq<Option<Seq<char>>>>::empty());
    assert(present_values(table) == present_values(table.drop_last()) + present_in_row(row));
    reveal_with_fuel(present_in_row, 6);
    assert(present_in_row(row) =~= seq![v]) by {
        let r4 = row.drop_last();
        let r3 = r4.drop_last();
        let r2 = r3.drop_last();
        let r1 = r2.drop_last();
        let r0 = r1.drop_last();
        assert(r0.len() == 0);
        assert(row.last() == row[4]);
        assert(r4.last() == row[3]);
        assert(r3.last() == row[2]);
        assert(r2.last() == row[1]);
        assert(r1.last() == row[0]);
    }
    assert(present_values(table) =~= seq![v]);
    let values = seq![v];
    assert(values.drop_last() =~= Seq::<Seq<char>>::empty());
    assert(apply_url_rewrites(html, values.drop_last(), prefix, base) == html);
    assert(url_rewrite(v, prefix, base) == Some(prefix + u));
    assert(values.last() == v);
    assert(apply_url_rewrites(html, values, prefix, base) == replace_text(html, v, prefix + u));
}

/// Only relative references change: a value starting with `/` gets the
/// prefix in front; any other value is kept as it is.
pub proof fn lemma_only_relative_refs_change(value: Seq<char>, prefix: Seq<char>)
    ensures
        !has_prefix(value, "/"@) ==> ref_value(value, prefix) == value,
        has_prefix(value, "/"@) ==> ref_value(value, prefix) == prefix + value,
{
}

/// `data:`, `javascript:` and `#` links are never rewritten.
pub proof fn lemma_special_links_kept(url: Seq<char>, prefix: Seq<char>, base: Seq<char>)
    requires
        has_prefix(url, "data:"@) || has_prefix(url, "javascript:"@) || has_prefix(url, "#"@),
    ensures
        url_rewrite(url, prefix, base) is None,
{
}

/// A body whose content type is none of HTML, JavaScript and CSS is passed
/// on unchanged.
pub proof fn lemma_other_bodies_unchanged(
    content_type: Seq<char>,
    body: Seq<char>,
    prefix: Seq<char>,
    base: Seq<char>,
)
    requires
        !contains_text(content_type, "text/html"@),
        !contains_text(content_type, "javascript"@),
        !contains_text(content_type, "text/css"@),
    ensures
        response_rewritten(content_type, body, prefix, base) == body,
{
}

// ---------------------------------------------------------------------------

impl Proxy {
    /// What an attribute match `attr=quote value quote` becomes: the value
    /// with `prefix` in front when it starts with `/`.
    pub fn ref_replacement(attr: &str, quote: &str, value: &str, prefix: &str) -> (r: String)
        ensures
            r@ == attr@ + "="@ + quote@ + ref_value(value@, prefix@) + quote@,
    {
        let eq = "=";
        let slash = "/";
        let v = chars_of(value);
        let mut out = chars_of(attr);
        append_chars(&mut out, &chars_of(eq));
        append_chars(&mut out, &chars_of(quote));
        if starts_with(&v, &chars_of(slash)) {
            append_chars(&mut out, &chars_of(prefix));
        }
        append_chars(&mut out, &v);
        append_chars(&mut out, &chars_of(quote));
        proof {
            if has_prefix(value@, "/"@) {
                assert(out@ =~= attr@ + "="@ + quote@ + (prefix@ + value@) + quote@);
            } else {
                assert(out@ =~= attr@ + "="@ + quote@ + value@ + quote@);
            }
        }
        string_of(&out)
    }

    /// What an attribute match becomes, given the value found in double
    /// quotes or the one found in single quotes: see
    /// [`Proxy::ref_replacement`].
    pub fn ref_match_replacement(
        attr: &str,
        double_quoted: Option<&str>,
        single_quoted: Option<&str>,
        prefix: &str,
    ) -> (r: String)
        ensures
            double_quoted matches Some(v) ==> r@ == attr@ + "="@ + "\""@ + ref_value(v@, prefix@)
                + "\""@,
            double_quoted is None ==> (single_quoted matches Some(v) ==> r@ == attr@ + "="@ + "'"@
                + ref_value(v@, prefix@) + "'"@),
            double_quoted is None && single_quoted is None ==> r@ == attr@ + "="@,
    {
        match double_quoted {
            Some(v) => Self::ref_replacement(attr, "\"", v, prefix),
            None => match single_quoted {
                Some(v) => Self::ref_replacement(attr, "'", v, prefix),
                None => {
                    let mut out = chars_of(attr);
                    append_chars(&mut out, &chars_of("="));
                    string_of(&out)
                },
            },
        }
    }

    /// What a stylesheet `url(…)` match becomes, given the URL found in
    /// double quotes, in single quotes, or bare: see
    /// [`Proxy::css_replacement`].
    pub fn css_match_replacement(
        whole: &str,
        double_quoted: Option<&str>,
        single_quoted: Option<&str>,
        bare: Option<&str>,
        prefix: &str,
    ) -> (r: String)
        ensures
            double_quoted matches Some(u) ==> (is_rewritable(u@) ==> r@ == "url("@ + "\""@
                + prefix@ + u@ + "\""@ + ")"@) && (!is_rewritable(u@) ==> r@ == whole@),
            double_quoted is None ==> (single_quoted matches Some(u) ==> (is_rewritable(u@) ==> r@
                == "url("@ + "'"@ + prefix@ + u@ + "'"@ + ")"@) && (!is_rewritable(u@) ==> r@
                == whole@)),
            double_quoted is None && single_quoted is None ==> (bare matches Some(u) ==> (
            is_rewritable(u@) ==> r@ == "url("@ + prefix@ + u@ + ")"@) && (!is_rewritable(u@)
                ==> r@ == whole@)),
            double_quoted is None && single_quoted is None && bare is None ==> r@ == whole@,
    {
        match double_quoted {
            Some(u) => Self::css_replacement(whole, "\"", u, prefix),
            None => match single_quoted {
                Some(u) => Self::css_replacement(whole, "'", u, prefix),
                None => match bare {
                    Some(u) => {
                        let r = Self::css_replacement(whole, "", u, prefix);
                        proof {
                            reveal_strlit("");
                            assert("url("@ + ""@ + prefix@ + u@ + ""@ + ")"@ =~= "url("@ + prefix@
                                + u@ + ")"@);
                        }
                        r
                    },
                    None => string_of(&chars_of(whole)),
                },
            },
        }
    }

    /// What a script call match (the function, `(` and the quoted URL)
    /// becomes: `func("prefix url"` when the URL starts with `http` or `/`,
    /// else the match unchanged; what follows the match is left as it is.
    pub fn js_replacement(whole: &str, func: &str, url: &str, prefix: &str) -> (r: String)
        ensures
            is_rewritable(url@) ==> r@ == func@ + "(\""@ + prefix@ + url@ + "\""@,
            !is_rewritable(url@) ==> r@ == whole@,
    {
        let u = chars_of(url);
        if starts_with(&u, &chars_of("http")) || starts_with(&u, &chars_of("/")) {
            let mut out = chars_of(func);
            append_chars(&mut out, &chars_of("(\""));
            append_chars(&mut out, &chars_of(prefix));
            append_chars(&mut out, &u);
            append_chars(&mut out, &chars_of("\""));
            assert(out@ =~= func@ + "(\""@ + prefix@ + url@ + "\""@);
            string_of(&out)
        } else {
            string_of(&chars_of(whole))
        }
    }

    /// What a stylesheet `url(…)` match becomes: `url(quote prefix url
    /// quote)` when the URL starts with `http` or `/`, else the match
    /// unchanged.
    pub fn css_replacement(whole: &str, quote: &str, url: &str, prefix: &str) -> (r: String)
        ensures
            is_rewritable(url@) ==> r@ == "url("@ + quote@ + prefix@ + url@ + quote@ + ")"@,
            !is_rewritable(url@) ==> r@ == whole@,
    {
        let u = chars_of(url);
        if starts_with(&u, &chars_of("http")) || starts_with(&u, &chars_of("/")) {
            let mut out = chars_of("url(");
            append_chars(&mut out, &chars_of(quote));
            append_chars(&mut out, &chars_of(prefix));
            append_chars(&mut out, &u);
            append_chars(&mut out, &chars_of(quote));
            append_chars(&mut out, &chars_of(")"));
            assert(out@ =~= "url("@ + quote@ + prefix@ + url@ + quote@ + ")"@);
            string_of(&out)
        } else {
            string_of(&chars_of(whole))
        }
    }

    /// Replace relative references (`/…`) in the `href`, `src` and
    /// `data-href` attributes of `html` by `prefix` followed by the
    /// reference.
    pub fn replace_all_refs(html: &str, prefix: &str) -> (r: String)
        ensures
            r@ == refs_rewrite(html@, prefix@),
    {
        let pattern = "(href|src|data-href)=(?:\"([^\"']*)\"|'([^\"']*)')";
        assert(pattern@ == refs_pattern());
        match regex_replace_refs(pattern, html, prefix) {
            Ok(s) => s,
            Err(_) => string_of(&chars_of(html)),
        }
    }

    /// Rewrites the links inside an HTML, JavaScript or CSS body, chosen by
    /// its content type.
    pub fn rewrite_response(
        content_type: &str,
        body: &str,
        proxy_prefix: &str,
        base_url: &str,
    ) -> (r: String)
        ensures
            r@ == response_rewritten(content_type@, body@, proxy_prefix@, base_url@),
    {
        let ct = chars_of(content_type);
        if contains(&ct, &chars_of("text/html")) {
            Self::rewrite_html(body, proxy_prefix, base_url)
        } else if contains(&ct, &chars_of("javascript")) {
            Self::rewrite_js(body, proxy_prefix)
        } else if contains(&ct, &chars_of("text/css")) {
            Self::rewrite_css(body, proxy_prefix)
        } else {
            string_of(&chars_of(body))
        }
    }

    /// Rewrites an HTML page: each link in the `href`, `src`, `action`,
    /// `data` and `poster` attributes that has a new form (see
    /// [`Proxy::rewrite_url`]) is replaced wherever it occurs, then the
    /// stylesheet and script links.
    pub fn rewrite_html(html: &str, prefix: &str, base: &str) -> (r: String)
        ensures
            r@ == html_rewritten(html@, prefix@, base@),
    {
        let mut attrs: Vec<String> = Vec::new();
        attrs.push(String::from_str("href"));
        attrs.push(String::from_str("src"));
        attrs.push(String::from_str("action"));
        attrs.push(String::from_str("data"));
        attrs.push(String::from_str("poster"));
        assert(attrs@.map_values(|a: String| a@) =~= link_attributes());
        let table = select_attributes(html, &attrs);
        let ghost spec_table = table_view(table@);
        let mut output = chars_of(html);
        let ghost mut done: Seq<Seq<char>> = Seq::empty();
        let mut i: usize = 0;
        while i < table.len()
            invariant
                i <= table.len(),
                spec_table == table_view(table@),
                done == present_values(spec_table.take(i as int)),
                output@ == apply_url_rewrites(html@, done, prefix@, base@),
            decreases table.len() - i,
        {
            let row = &table[i];
            let ghost spec_row = spec_table[i as int];
            let ghost row_start = done;
            let mut j: usize = 0;
            while j < row.len()
                invariant
                    i < table.len(),
                    spec_table == table_view(table@),
                    spec_row == spec_table[i as int],
                    row == &table@[i as int],
                    j <= row.len(),
                    done == row_start + present_in_row(spec_row.take(j as int)),
                    output@ == apply_url_rewrites(html@, done, prefix@, base@),
                decreases row.len() - j,
            {
                assert(spec_row.take(j + 1).drop_last() =~= spec_row.take(j as int));
                match &row[j] {
                    Some(value) => {
                        let ghost before = done;
                        proof {
                            done = done.push(value@);
                            assert(done.drop_last() =~= before);
                            assert(row_start + present_in_row(spec_row.take(j + 1)) =~= done);
                        }
                        match Self::rewrite_url(value.as_str(), prefix, base) {
                            Some(new_url) => {
                                output = replace_all(&output, &chars_of(value.as_str()), &chars_of(new_url.as_str()));
                            },
                            None => {},
                        }
                    },
                    None => {
                        assert(row_start + present_in_row(spec_row.take(j + 1)) =~= done);
                    },
                }
                j = j + 1;
            }
            proof {
                assert(spec_row.take(row.len() as int) =~= spec_row);
                assert(spec_table.take(i + 1).drop_last() =~= spec_table.take(i as int));
            }
            i = i + 1;
        }
        assert(spec_table.take(table.len() as int) =~= spec_table);
        let after_links = string_of(&output);
        let after_css = Self::rewrite_css(after_links.as_str(), prefix);
        Self::rewrite_js(after_css.as_str(), prefix)
    }

    /// The new form of a link: `None` for `data:`, `javascript:` and `#`
    /// links, and when the link does not resolve against `base`; else
    /// `prefix` followed by the resolved URL.
    pub fn rewrite_url(url: &str, prefix: &str, base: &str) -> (r: Option<String>)
        ensures
            match r {
                Some(s) => url_rewrite(url@, prefix@, base@) == Some(s@),
                None => url_rewrite(url@, prefix@, base@) is None,
            },
    {
        let u = chars_of(url);
        if starts_with(&u, &chars_of("data:")) || starts_with(&u, &chars_of("javascript:"))
            || starts_with(&u, &chars_of("#")) {
            return None;
        }
        match join_url(base, url) {
            Some(absolute) => {
                let mut out = chars_of(prefix);
                append_chars(&mut out, &chars_of(absolute.as_str()));
                Some(string_of(&out))
            },
            None => None,
        }
    }

    /// Rewrites the calls `fetch`, `axios`, `get`, `post` and `WebSocket`
    /// whose quoted URL starts with `http` or `/`.
    pub fn rewrite_js(js: &str, prefix: &str) -> (r: String)
        ensures
            r@ == js_rewrite(js@, prefix@),
    {
        let pattern = "(fetch|axios|get|post|WebSocket)\\s*\\(\\s*[\"']([^\"']+)[\"']";
        assert(pattern@ == js_pattern());
        match regex_replace_js(pattern, js, prefix) {
            Ok(s) => s,
            Err(_) => string_of(&chars_of(js)),
        }
    }

    /// Rewrites the stylesheet `url(…)`s whose URL starts with `http` or
    /// `/`.
    pub fn rewrite_css(css: &str, prefix: &str) -> (r: String)
        ensures
            r@ == css_rewrite(css@, prefix@),
    {
        let pattern = "url\\((?:\"([^\"')]+)\"|'([^\"')]+)'|([^\"')]+))\\)";
        assert(pattern@ == css_pattern());
        match regex_replace_css(pattern, css, prefix) {
            Ok(s) => s,
            Err(_) => string_of(&chars_of(css)),
        }
    }
}

} // verus!
