//! URL handling: normalization of operator-supplied URLs and extraction of
//! outbound links from a fetched document.

use vstd::prelude::*;

verus! {

use vstd::string::*;

/// What `url::Url::parse` makes of a string: `None` where the string is not a
/// valid absolute URL, otherwise the parsed URL serialized back in its normal
/// form. A function of the string alone.
pub uninterp spec fn norm_of(s: Seq<char>) -> Option<Seq<char>>;

/// The scheme-and-host base (`scheme://domain`) of a URL string, where it has
/// a domain name as its host. A function of the string alone.
pub uninterp spec fn base_of(s: Seq<char>) -> Option<Seq<char>>;

/// What resolving `rel` against the URL `base` yields, in normal form, where
/// both parse. A function of the two strings alone.
pub uninterp spec fn join_of(base: Seq<char>, rel: Seq<char>) -> Option<Seq<char>>;

/// The domain name of a URL string, where it parses and its host is a domain
/// name. A function of the string alone.
pub uninterp spec fn domain_of(s: Seq<char>) -> Option<Seq<char>>;

/// The `href` attributes of the anchor elements of an HTML document, in
/// document order. A function of the document text alone.
pub uninterp spec fn hrefs_of(html: Seq<char>) -> Seq<Seq<char>>;

/// Relies on `url::Url::parse` and the `Display` serialization of `url::Url`:
/// both are functions of the input string alone.
#[verifier::external_body]
pub(crate) fn parse_url(s: &str) -> (r: Option<String>)
    ensures
        r is Some <==> norm_of(s@) is Some,
        r matches Some(t) ==> norm_of(s@) == Some(t@),
{
    url::Url::parse(s).ok().map(|u| u.to_string())
}

/// Relies on `url::Url::parse`, `Url::scheme` and `Url::domain`: scheme and
/// domain of a parsed URL are functions of the input string alone.
#[verifier::external_body]
pub(crate) fn get_base_url(s: &str) -> (r: Option<String>)
    ensures
        r is Some <==> base_of(s@) is Some,
        r matches Some(t) ==> base_of(s@) == Some(t@),
{
    let url = url::Url::parse(s).ok()?;
    url.domain().map(|domain| format!("{}://{}", url.scheme(), domain))
}

/// Relies on `url::Url::parse`, `Url::join` and the `Display` serialization:
/// resolving one URL string against another is a function of the two strings
/// alone.
#[verifier::external_body]
pub fn join_urls(base_url_string: &str, relative_url: &str) -> (r: Option<String>)
    ensures
        r is Some <==> join_of(base_url_string@, relative_url@) is Some,
        r matches Some(t) ==> join_of(base_url_string@, relative_url@) == Some(t@),
{
    let base_url: url::Url = match url::Url::parse(base_url_string) {
        Ok(url) => url,
        Err(_) => return None,
    };
    base_url.join(relative_url).ok().map(|url| url.as_str().to_string())
}

/// Relies on `url::Url::parse` and `Url::domain`: the domain of a parsed URL
/// is a function of the input string alone.
#[verifier::external_body]
pub(crate) fn url_domain(s: &str) -> (r: Option<String>)
    ensures
        r is Some <==> domain_of(s@) is Some,
        r matches Some(t) ==> domain_of(s@) == Some(t@),
{
    let url = url::Url::parse(s).ok()?;
    url.domain().map(|domain| domain.to_string())
}

/// Relies on `scraper::Html::parse_document`, `Selector::parse` and
/// `Html::select`: parsing a document and walking its anchor elements in
/// document order is a function of the document text alone. The selector
/// `a` is a fixed valid selector, so the error arm is never taken.
#[verifier::external_body]
pub(crate) fn extract_hrefs(html: &str) -> (r: Vec<String>)
    ensures
        r.deep_view() == hrefs_of(html@),
{
    let document = scraper::Html::parse_document(html);
    match scraper::Selector::parse("a") {
        Ok(selector) => document
            .select(&selector)
            .filter_map(|element| element.value().attr("href").map(|path| path.to_string()))
            .collect(),
        Err(_) => Vec::new(),
    }
}

/// True when `p` occurs at the start of `s`, compared character by character.
pub fn has_prefix(s: &str, p: &str) -> (r: bool)
    ensures
        r == p@.is_prefix_of(s@),
{
    let n = p.unicode_len();
    if s.unicode_len() < n {
        return false;
    }
    let mut i: usize = 0;
    while i < n
        invariant
            n == p@.len(),
            n <= s@.len(),
            i <= n,
            forall|j: int| 0 <= j < i ==> s@[j] == p@[j],
        decreases n - i,
    {
        if s.get_char(i) != p.get_char(i) {
            assert(p@[i as int] != s@.subrange(0, n as int)[i as int]);
            return false;
        }
        i += 1;
    }
    assert(p@ =~= s@.subrange(0, n as int));
    true
}

/// The input with an `https://` scheme put in front, unless it already
/// carries an `http://` or `https://` scheme.
pub open spec fn spec_with_scheme(s: Seq<char>) -> Seq<char> {
    if "http://"@.is_prefix_of(s) || "https://"@.is_prefix_of(s) {
        s
    } else {
        "https://"@ + s
    }
}

/// The normal form of an operator-supplied URL: a scheme in front and a
/// trailing slash at the end.
pub open spec fn spec_normalize(s: Seq<char>) -> Seq<char> {
    let t = spec_with_scheme(s);
    if t.len() > 0 && t.last() == '/' {
        t
    } else {
        t.push('/')
    }
}

/// Put a seed URL into the form the crawler uses: prepend `https://` when no
/// scheme of the web is present, and append a trailing `/` when missing.
pub fn normalize_url(url_str: &str) -> (r: Option<String>)
    ensures
        r matches Some(u) && u@ == spec_normalize(url_str@),
{
    let with_scheme: String = if !has_prefix(url_str, "http://") && !has_prefix(url_str, "https://")
        {
        let mut t = String::from_str("https://");
        t.append(url_str);
        t
    } else {
        url_str.to_owned()
    };
    proof {
        reveal_strlit("https://");
        reveal_strlit("http://");
    }
    let n = with_scheme.as_str().unicode_len();
    let ends_in_slash = n > 0 && with_scheme.as_str().get_char(n - 1) == '/';
    if ends_in_slash {
        Some(with_scheme)
    } else {
        let mut t = with_scheme;
        t.append("/");
        proof {
            reveal_strlit("/");
            assert(t@ =~= spec_with_scheme(url_str@).push('/'));
        }
        Some(t)
    }
}

/// Why link extraction gave up on a page.
#[derive(Clone, Copy, Debug, PartialEq, Eq, Structural)]
pub enum LinkError {
    /// The page's own URL is not a valid absolute URL.
    InvalidBase,
    /// A local link could not be resolved against the page's base.
    JoinFailed,
}

/// A local link: one that starts with `/` or `./` and is resolved against the
/// page's scheme-and-host base rather than taken as it stands.
pub open spec fn is_local(h: Seq<char>) -> bool {
    "/"@.is_prefix_of(h) || "./"@.is_prefix_of(h)
}

/// Whether resolving this link aborts extraction for the whole page: a local
/// link whose join against an existing base fails.
pub open spec fn href_fails(u: Seq<char>, h: Seq<char>) -> bool {
    is_local(h) && match base_of(u) {
        Some(b) => join_of(b, h) is None,
        None => false,
    }
}

/// The absolute URL a single link contributes, if any: a local link resolves
/// against the page's base, a link that is itself a valid URL is kept as it
/// stands, and anything else is resolved against the page's own URL.
pub open spec fn href_link(u: Seq<char>, h: Seq<char>) -> Option<Seq<char>> {
    if is_local(h) {
        match base_of(u) {
            Some(b) => join_of(b, h),
            None => None,
        }
    } else if norm_of(h) is Some {
        Some(h)
    } else {
        join_of(u, h)
    }
}

/// The links a page with (normalized) URL `u` and anchor targets `hs`
/// contributes, in document order.
pub open spec fn links_of(u: Seq<char>, hs: Seq<Seq<char>>) -> Seq<Seq<char>>
    decreases hs.len(),
{
    if hs.len() == 0 {
        Seq::empty()
    } else {
        let rest = links_of(u, hs.drop_last());
        match href_link(u, hs.last()) {
            Some(l) => rest.push(l),
            None => rest,
        }
    }
}

/// Collect the outbound links of a fetched document: every anchor target,
/// resolved to an absolute URL where possible. Local links that fail to
/// resolve abort the page; other unresolvable links are dropped one by one.
pub fn get_urls(url: &str, html: &str) -> (r: Result<Vec<String>, LinkError>)
    ensures
        r == Err::<Vec<String>, LinkError>(LinkError::InvalidBase) <==> norm_of(url@) is None,
        r is Ok <==> norm_of(url@) is Some && (forall|i: int|
            0 <= i < hrefs_of(html@).len() ==> !href_fails(
                norm_of(url@)->Some_0,
                #[trigger] hrefs_of(html@)[i],
            )),
        r matches Ok(v) ==> v.deep_view() == links_of(norm_of(url@)->Some_0, hrefs_of(html@)),
{
    let nu = match parse_url(url) {
        Some(nu) => nu,
        None => {
            return Err(LinkError::InvalidBase);
        },
    };
    let base = get_base_url(nu.as_str());
    let hrefs = extract_hrefs(html);
    let ghost u = norm_of(url@)->Some_0;
    let ghost hs = hrefs_of(html@);
    let mut urls: Vec<String> = Vec::new();
    let n = hrefs.len();
    let mut i: usize = 0;
    while i < n
        invariant
            n == hrefs.len(),
            hrefs.deep_view() == hs,
            hs == hrefs_of(html@),
            i <= n,
            norm_of(url@) is Some,
            u == norm_of(url@)->Some_0,
            nu@ == u,
            base is Some <==> base_of(u) is Some,
            base matches Some(b) ==> base_of(u) == Some(b@),
            urls.deep_view() == links_of(u, hs.subrange(0, i as int)),
            forall|j: int| 0 <= j < i ==> !href_fails(u, #[trigger] hs[j]),
        decreases n - i,
    {
        let h = &hrefs[i];
        assert(h@ == hs[i as int]);
        if has_prefix(h.as_str(), "/") || has_prefix(h.as_str(), "./") {
            match &base {
                Some(b) => {
                    match join_urls(b.as_str(), h.as_str()) {
                        Some(joined) => {
                            urls.push(joined);
                        },
                        None => {
                            return Err(LinkError::JoinFailed);
                        },
                    }
                },
                None => {},
            }
        } else if parse_url(h.as_str()).is_some() {
            urls.push(h.clone());
        } else {
            match join_urls(nu.as_str(), h.as_str()) {
                Some(joined) => {
                    urls.push(joined);
                },
                None => {},
            }
        }
        proof {
            assert(hs.subrange(0, i + 1).drop_last() =~= hs.subrange(0, i as int));
            assert(hs.subrange(0, i + 1).last() == hs[i as int]);
            assert(urls.deep_view() =~= links_of(u, hs.subrange(0, i + 1)));
        }
        i += 1;
    }
    proof {
        assert(hs.subrange(0, n as int) =~= hs);
    }
    Ok(urls)
}

} // verus!
