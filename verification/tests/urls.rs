use crawler::urls::{get_urls, join_urls, normalize_url, LinkError};

#[test]
fn test_get_urls() {
    let url = "https://www.rust-lang.org";
    let html = r#"
        <html>
            <body>
                <a href="/foo">Foo</a>
                <a href="/bar">Bar</a>
                <a href="https://www.rust-lang.org">Rust</a>
            </body>
        </html>
    "#;

    let urls = get_urls(url, html).unwrap();
    assert_eq!(urls.len(), 3);
    assert_eq!(urls[0], "https://www.rust-lang.org/foo");
    assert_eq!(urls[1], "https://www.rust-lang.org/bar");
    assert_eq!(urls[2], "https://www.rust-lang.org");
}

#[test]
fn test_get_urls2() {
    let url = "https://www.rust-lang.org";
    let html = r#"
        <html>
            <body>
                <a href="./foo">Foo</a>
                <a href="/bar">Bar</a>
                <a href="https://www.rust-lang.org">Rust</a>
                <a href="https://www.rust-lang.org/foo">Rust</a>
            </body>
        </html>
    "#;

    let urls = get_urls(url, html).unwrap();
    assert_eq!(urls.len(), 4);
    assert_eq!(urls[0], "https://www.rust-lang.org/foo");
    assert_eq!(urls[1], "https://www.rust-lang.org/bar");
    assert_eq!(urls[2], "https://www.rust-lang.org");
    assert_eq!(urls[3], "https://www.rust-lang.org/foo");
}

#[test]
fn test_combine_relative_url() {
    let a = "https://en.wikipedia.org/wiki/Vienna";
    let b = "/wiki/Category:States_of_Austria";

    let url = join_urls(a, b).unwrap();
    let expected = "https://en.wikipedia.org/wiki/Category:States_of_Austria";
    assert_eq!(url, expected);
}

#[test]
fn test_combine_relative_url2() {
    let a = "https://en.wikipedia.org/wiki/Vienna/";
    let b = "/wiki/Category:States_of_Austria";

    let url = join_urls(a, b).unwrap();
    let expected = "https://en.wikipedia.org/wiki/Category:States_of_Austria";
    assert_eq!(url, expected);
}

#[test]
fn test_combine_relative_url3() {
    let a = "https://www.netlify.com/";
    let b = "./blog/2020/08/17/integrate-next.js-and-contentful/";

    let url = join_urls(a, b).unwrap();
    let expected = "https://www.netlify.com/blog/2020/08/17/integrate-next.js-and-contentful/";
    assert_eq!(url, expected);
}

#[test]
fn test_normalize_url() {
    let url1 = "https://farooq.dev";
    let url2 = "farooq.dev";
    let expected = "https://farooq.dev/";

    let normalized_url1 = normalize_url(url1).unwrap();
    assert_eq!(normalized_url1, expected);
    let normalized_url2 = normalize_url(url2).unwrap();
    assert_eq!(normalized_url2, expected);
}

#[test]
fn normalize_keeps_http_scheme_and_slash() {
    assert_eq!(normalize_url("http://a.example").unwrap(), "http://a.example/");
    assert_eq!(normalize_url("http://a.example/").unwrap(), "http://a.example/");
    assert_eq!(normalize_url("https://a.example/x").unwrap(), "https://a.example/x/");
}

#[test]
fn get_urls_rejects_an_invalid_base() {
    let r = get_urls("not a url at all", "<a href=\"/x\">x</a>");
    assert_eq!(r, Err(LinkError::InvalidBase));
}

#[test]
fn get_urls_skips_hosts_without_a_domain_for_local_links() {
    // The base is valid but its host is an address, not a domain, so local
    // links have no scheme-and-host base and are dropped; absolute links are
    // kept as they stand.
    let html = r#"<a href="/x">x</a><a href="https://other.example/y">y</a>"#;
    let urls = get_urls("https://127.0.0.1/", html).unwrap();
    assert_eq!(urls, vec!["https://other.example/y".to_string()]);
}

#[test]
fn get_urls_resolves_bare_relative_links_against_the_page() {
    let html = r#"<a href="sub/page">p</a>"#;
    let urls = get_urls("https://a.example/dir/", html).unwrap();
    assert_eq!(urls, vec!["https://a.example/dir/sub/page".to_string()]);
}

#[test]
fn get_urls_drops_anchors_without_href() {
    let html = r#"<a name="top">top</a><a href="/x">x</a>"#;
    let urls = get_urls("https://a.example", html).unwrap();
    assert_eq!(urls, vec!["https://a.example/x".to_string()]);
}
