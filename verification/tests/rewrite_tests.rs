use api_proxy::proxy::Proxy;

#[test]
fn relative_refs_get_the_prefix() {
    let html = r#"<a href="/x">x</a><img src='/i.png'><a data-href="http://o/y">"#;
    assert_eq!(
        Proxy::replace_all_refs(html, "/p"),
        r#"<a href="/p/x">x</a><img src='/p/i.png'><a data-href="http://o/y">"#
    );
    assert_eq!(Proxy::ref_replacement("href", "\"", "/a", "/p"), "href=\"/p/a\"");
    assert_eq!(Proxy::ref_replacement("src", "'", "b", "/p"), "src='b'");
}

#[test]
fn script_calls_are_rewritten() {
    assert_eq!(Proxy::rewrite_js("fetch('/api/v1')", "/p"), "fetch(\"/p/api/v1\")");
    assert_eq!(Proxy::rewrite_js("fetch('/api');", "/p"), "fetch(\"/p/api\");");
    assert_eq!(Proxy::rewrite_js("post ( \"http://h/a\" )", "/p"), "post(\"/phttp://h/a\" )");
    assert_eq!(Proxy::rewrite_js("get('rel')", "/p"), "get('rel')");
    assert_eq!(Proxy::js_replacement("whole", "fetch", "/u", "P"), "fetch(\"P/u\"");
    assert_eq!(Proxy::js_replacement("whole", "fetch", "u", "P"), "whole");
}

#[test]
fn stylesheet_urls_are_rewritten() {
    assert_eq!(Proxy::rewrite_css("a{background:url('/img.png')}", "/p"), "a{background:url('/p/img.png')}");
    assert_eq!(Proxy::rewrite_css("url(http://h/f.woff)", "/p"), "url(/phttp://h/f.woff)");
    assert_eq!(Proxy::rewrite_css("url(rel.png)", "/p"), "url(rel.png)");
    assert_eq!(Proxy::css_replacement("w", "'", "/a", "P"), "url('P/a')");
}

#[test]
fn urls_resolve_against_the_base() {
    assert_eq!(Proxy::rewrite_url("/x", "/p", "http://h/a/"), Some("/phttp://h/x".to_string()));
    assert_eq!(Proxy::rewrite_url("y", "", "http://h/a/"), Some("http://h/a/y".to_string()));
    assert_eq!(Proxy::rewrite_url("data:abc", "", "http://h/"), None);
    assert_eq!(Proxy::rewrite_url("javascript:void(0)", "", "http://h/"), None);
    assert_eq!(Proxy::rewrite_url("#top", "", "http://h/"), None);
    assert_eq!(Proxy::rewrite_url("/x", "", "not a url"), None);
}

#[test]
fn html_pages_are_rewritten() {
    let html = r#"<html><body><a href="/x">x</a><form action="send"></form></body></html>"#;
    assert_eq!(
        Proxy::rewrite_html(html, "", "http://h/"),
        r#"<html><body><a href="http://h/x">x</a><form action="http://h/send"></form></body></html>"#
    );
}

#[test]
fn bodies_are_rewritten_by_content_type() {
    assert_eq!(Proxy::rewrite_response("text/plain", "url(/a)", "/p", "http://h/"), "url(/a)");
    assert_eq!(Proxy::rewrite_response("text/css", "url(/a)", "/p", "http://h/"), "url(/p/a)");
    assert_eq!(
        Proxy::rewrite_response("application/javascript", "fetch('/a')", "/p", "http://h/"),
        "fetch(\"/p/a\")"
    );
}

#[test]
fn match_replacements_pick_the_quoted_group() {
    assert_eq!(Proxy::ref_match_replacement("href", Some("/a"), None, "/p"), "href=\"/p/a\"");
    assert_eq!(Proxy::ref_match_replacement("src", None, Some("/a"), "/p"), "src='/p/a'");
    assert_eq!(Proxy::ref_match_replacement("src", None, None, "/p"), "src=");
    assert_eq!(Proxy::css_match_replacement("url(\"/a\")", Some("/a"), None, None, "/p"), "url(\"/p/a\")");
    assert_eq!(Proxy::css_match_replacement("url('x')", None, Some("x"), None, "/p"), "url('x')");
    assert_eq!(Proxy::css_match_replacement("url(/a)", None, None, Some("/a"), "/p"), "url(/p/a)");
    assert_eq!(Proxy::css_match_replacement("w", None, None, None, "/p"), "w");
}

#[test]
fn mismatched_quotes_are_not_rewritten() {
    assert_eq!(Proxy::replace_all_refs("<a href=\"/x'>", "/p"), "<a href=\"/x'>");
    assert_eq!(Proxy::rewrite_css("url('/a\")", "/p"), "url('/a\")");
}
