//! Fetching a source from the web: which address a request may go to, how
//! redirects are followed, how much may be read, and how a PDF or a web page
//! becomes a source's text. The network is the caller's.
use vstd::prelude::*;
use crate::ingest::{IpAddress, Normalized};
use crate::text::{chars_of, contains, ends_with, extend_str, join, lowercase, string_of, trim};

verus! {

/// The parts of a parsed URL that fetching looks at.
#[derive(Debug, Clone, PartialEq, Eq)]
pub struct UrlParts {
    pub href: String,
    pub scheme: String,
    pub host: Option<String>,
    pub port: Option<u16>,
    pub path: String,
    pub last_segment: Option<String>,
}

pub ghost struct UrlView {
    pub href: Seq<char>,
    pub scheme: Seq<char>,
    pub host: Option<Seq<char>>,
    pub port: Option<u16>,
    pub path: Seq<char>,
    pub last_segment: Option<Seq<char>>,
}

impl View for UrlParts {
    type V = UrlView;

    open spec fn view(&self) -> UrlView {
        UrlView {
            href: self.href@,
            scheme: self.scheme@,
            host: crate::domain::opt_str_view(self.host),
            port: self.port,
            path: self.path@,
            last_segment: crate::domain::opt_str_view(self.last_segment),
        }
    }
}

pub open spec fn url_result(r: Result<UrlParts, String>) -> Result<UrlView, Seq<char>> {
    match r {
        Ok(u) => Ok(u@),
        Err(e) => Err(e@),
    }
}

/// What `url::Url::parse` makes of a string (its error as text).
pub uninterp spec fn parsed_url(s: Seq<char>) -> Result<UrlView, Seq<char>>;

/// What `url::Url::join` makes of a location against the URL `base`
/// serialises to.
pub uninterp spec fn joined_url(base: Seq<char>, location: Seq<char>) -> Result<UrlView, Seq<char>>;

/// Parses a URL with `url::Url::parse`. The result is named by
/// `parsed_url`; the parts are the URL's serialisation, scheme, host, port
/// (or the scheme's default), path and last path segment.
#[verifier::external_body]
fn parse_url(s: &str) -> (r: Result<UrlParts, String>)
    ensures
        url_result(r) == parsed_url(s@),
{
    match url::Url::parse(s) {
        Ok(u) => Ok(UrlParts {
            href: u.as_str().to_string(),
            scheme: u.scheme().to_string(),
            host: u.host_str().map(|h| h.to_string()),
            port: u.port_or_known_default(),
            path: u.path().to_string(),
            last_segment: u.path_segments().and_then(|mut x| x.next_back()).map(|x| x.to_string()),
        }),
        Err(e) => Err(e.to_string()),
    }
}

/// Resolves a redirect location against a URL with `url::Url::join`, the
/// URL being the one its serialisation `base` parses to. The result is
/// named by `joined_url`.
#[verifier::external_body]
fn join_url(base: &str, location: &str) -> (r: Result<UrlParts, String>)
    ensures
        url_result(r) == joined_url(base@, location@),
{
    match url::Url::parse(base).and_then(|b| b.join(location)) {
        Ok(u) => Ok(UrlParts {
            href: u.as_str().to_string(),
            scheme: u.scheme().to_string(),
            host: u.host_str().map(|h| h.to_string()),
            port: u.port_or_known_default(),
            path: u.path().to_string(),
            last_segment: u.path_segments().and_then(|mut x| x.next_back()).map(|x| x.to_string()),
        }),
        Err(e) => Err(e.to_string()),
    }
}

/// Where a request for a URL goes: an `http` or `https` URL with a host and
/// a known port.
pub open spec fn target_of(u: UrlView) -> Result<(Seq<char>, u16), Seq<char>> {
    if u.scheme != "http"@ && u.scheme != "https"@ {
        Err("only http and https URLs are allowed"@)
    } else {
        match u.host {
            None => Err("URL has no host"@),
            Some(h) => match u.port {
                None => Err("URL has no known port"@),
                Some(p) => Ok((h, p)),
            },
        }
    }
}

/// The host and port a request for the URL goes to.
pub fn fetch_target(u: &UrlParts) -> (r: Result<(String, u16), String>)
    ensures
        match (r, target_of(u@)) {
            (Ok(a), Ok(b)) => a.0@ == b.0 && a.1 == b.1,
            (Err(a), Err(b)) => a@ == b,
            _ => false,
        },
{
    if !crate::text::str_eq(u.scheme.as_str(), "http") && !crate::text::str_eq(u.scheme.as_str(), "https") {
        return Err("only http and https URLs are allowed".to_string());
    }
    match &u.host {
        None => Err("URL has no host".to_string()),
        Some(h) => match u.port {
            None => Err("URL has no known port".to_string()),
            Some(p) => Ok((h.clone(), p)),
        },
    }
}

/// The largest source that is read: 10 MiB.
pub const MAX_SOURCE_BYTES: u64 = 10485760;

/// A request the caller is to make: resolve `host` at `port`, refuse the
/// URL when `check_addresses` does, and send a GET for `url` pinned to the
/// address it allowed, without following redirects.
pub struct Request {
    pub url: String,
    pub host: String,
    pub port: u16,
}

/// A fetch in progress: the URL as given, the title the user gave, the
/// current URL and how many requests were made.
pub struct Fetch {
    pub value: String,
    pub title: Option<String>,
    pub url: UrlParts,
    pub requests: usize,
}

pub open spec fn request_for(u: UrlView) -> Result<(Seq<char>, Seq<char>, u16), Seq<char>> {
    match target_of(u) {
        Ok((h, p)) => Ok((u.href, h, p)),
        Err(e) => Err(e),
    }
}

pub open spec fn request_view(r: Result<Request, String>) -> Result<(Seq<char>, Seq<char>, u16), Seq<char>> {
    match r {
        Ok(q) => Ok((q.url@, q.host@, q.port)),
        Err(e) => Err(e@),
    }
}

fn request_to(u: &UrlParts) -> (r: Result<Request, String>)
    ensures
        request_view(r) == request_for(u@),
{
    let (host, port) = fetch_target(u)?;
    Ok(Request { url: u.href.clone(), host, port })
}

impl Fetch {
    /// Starts fetching the URL `value`: the first request, or why the URL
    /// cannot be fetched.
    pub fn start(value: &str, title: Option<String>) -> (r: Result<(Fetch, Request), String>)
        ensures
            match parsed_url(value@) {
                Err(e) => r matches Err(x) && x@ == e,
                Ok(u) => match request_for(u) {
                    Err(e) => r matches Err(x) && x@ == e,
                    Ok(q) => r matches Ok((f, req)) && f.value@ == value@ && f.url@ == u
                        && f.requests == 1 && crate::domain::opt_str_view(f.title)
                        == crate::domain::opt_str_view(title) && (req.url@, req.host@, req.port) == q,
                },
            },
    {
        let u = parse_url(value)?;
        let req = request_to(&u)?;
        Ok((Fetch { value: value.to_string(), title, url: u, requests: 1 }, req))
    }

    /// The last request was redirected to `location` (none when the
    /// response had no `Location` header): the next request, or why the
    /// fetch stops. Six requests are made at most.
    pub fn redirected(&mut self, location: Option<String>) -> (r: Result<Request, String>)
        requires
            old(self).requests <= 6,
        ensures
            final(self).requests <= 6,
            final(self).value@ == old(self).value@,
            crate::domain::opt_str_view(final(self).title) == crate::domain::opt_str_view(old(self).title),
            match location {
                None => r matches Err(x) && x@ == "redirect has no Location header"@,
                Some(l) => match joined_url(old(self).url@.href, l@) {
                    Err(e) => r matches Err(x) && x@ == e,
                    Ok(u) => if old(self).requests >= 6 {
                        r matches Err(x) && x@ == "too many redirects"@
                    } else {
                        request_view(r) == request_for(u) && final(self).url@ == u
                            && final(self).requests == old(self).requests + 1
                    },
                },
            },
    {
        let l = match location {
            Some(l) => l,
            None => {
                return Err("redirect has no Location header".to_string());
            },
        };
        let u = join_url(self.url.href.as_str(), l.as_str())?;
        if self.requests >= 6 {
            return Err("too many redirects".to_string());
        }
        self.url = u;
        self.requests = self.requests + 1;
        request_to(&self.url)
    }

    /// The last request was answered: a failure status, a URL without host
    /// or a declared length over the limit stops the fetch; else the body
    /// is to be read, in chunks checked with `accept_chunk`.
    pub fn answered(&self, success: bool, status: &str, content_length: Option<u64>) -> (r: Result<(), String>)
        ensures
            !success ==> (r matches Err(x) && x@ == "fetch failed: "@ + status@),
            success && self.url@.host.is_none() ==> (r matches Err(x) && x@ == "URL has no host"@),
            success && self.url@.host.is_some() && content_length.is_some() && content_length->Some_0
                > MAX_SOURCE_BYTES ==> (r matches Err(x) && x@ == "source exceeds 10 MB"@),
            success && self.url@.host.is_some() && !(content_length.is_some() && content_length->Some_0
                > MAX_SOURCE_BYTES) ==> r is Ok,
    {
        if !success {
            let mut m = chars_of("fetch failed: ");
            extend_str(&mut m, status);
            return Err(string_of(m.as_slice()));
        }
        if self.url.host.is_none() {
            return Err("URL has no host".to_string());
        }
        match content_length {
            Some(n) => if n > MAX_SOURCE_BYTES {
                return Err("source exceeds 10 MB".to_string());
            },
            None => {},
        }
        Ok(())
    }
}

/// Whether one more chunk of the body may be read: the total read stays
/// within the limit. Gives the new total.
pub fn accept_chunk(total: u64, chunk: u64) -> (r: Result<u64, String>)
    requires
        total <= MAX_SOURCE_BYTES,
    ensures
        total + chunk > MAX_SOURCE_BYTES ==> (r matches Err(x) && x@ == "source exceeds 10 MB"@),
        total + chunk <= MAX_SOURCE_BYTES ==> r == Ok::<u64, String>((total + chunk) as u64),
{
    if chunk > MAX_SOURCE_BYTES - total {
        Err("source exceeds 10 MB".to_string())
    } else {
        Ok(total + chunk)
    }
}


// ---------------------------------------------------------------------------
// The body
// ---------------------------------------------------------------------------

/// What `String::from_utf8_lossy` makes of bytes.
pub uninterp spec fn lossy_utf8(bytes: Seq<u8>) -> Seq<char>;

/// Decodes bytes as UTF-8, replacing invalid sequences, by
/// `String::from_utf8_lossy`; named by `lossy_utf8`. As std documents, valid
/// UTF-8 comes back as the text it encodes; what replaces an invalid
/// sequence is not stated here.
#[verifier::external_body]
fn decode_lossy(bytes: &[u8]) -> (r: String)
    ensures
        r@ == lossy_utf8(bytes@),
        vstd::utf8::valid_utf8(bytes@) ==> r@ == vstd::utf8::decode_utf8(bytes@),
{
    String::from_utf8_lossy(bytes).to_string()
}

/// The text of the first `<title>` element of an HTML document, as
/// `scraper` parses it.
pub uninterp spec fn html_title(html: Seq<char>) -> Option<Seq<char>>;

/// The text nodes of the first `article`, `main` or `body` element of an
/// HTML document, as `scraper` parses it (an error if the selector does not
/// parse).
pub uninterp spec fn html_main_text(html: Seq<char>) -> Result<Option<Seq<Seq<char>>>, Seq<char>>;

/// The text of the document's first `<title>`, by `scraper`'s
/// `Html::parse_document` and `Selector`; named by `html_title`.
#[verifier::external_body]
fn page_title(html: &str) -> (r: Option<String>)
    ensures
        crate::domain::opt_str_view(r) == html_title(html@),
{
    let doc = scraper::Html::parse_document(html);
    scraper::Selector::parse("title").ok().and_then(
        |s| doc.select(&s).next().map(|x| x.text().collect::<String>()),
    )
}

pub open spec fn texts_result(r: Result<Option<Vec<String>>, String>) -> Result<Option<Seq<Seq<char>>>, Seq<char>> {
    match r {
        Ok(Some(v)) => Ok(Some(crate::domain::strs_view(v@))),
        Ok(None) => Ok(None),
        Err(e) => Err(e@),
    }
}

/// The text nodes of the document's first `article`, `main` or `body`, by
/// `scraper`'s `Html::parse_document` and `Selector`; named by
/// `html_main_text`.
#[verifier::external_body]
fn page_texts(html: &str) -> (r: Result<Option<Vec<String>>, String>)
    ensures
        texts_result(r) == html_main_text(html@),
{
    let doc = scraper::Html::parse_document(html);
    let sel = scraper::Selector::parse("article, main, body").map_err(|e| e.to_string())?;
    Ok(doc.select(&sel).next().map(|x| x.text().map(|t| t.to_string()).collect()))
}

/// The trimmed, non-empty texts.
pub open spec fn readable(ts: Seq<Seq<char>>) -> Seq<Seq<char>>
    decreases ts.len(),
{
    if ts.len() == 0 {
        seq![]
    } else {
        let rest = readable(ts.drop_last());
        if trim(ts.last()).len() > 0 {
            rest.push(trim(ts.last()))
        } else {
            rest
        }
    }
}

/// A PDF, by its content type or the URL's path.
pub open spec fn is_pdf(content_type: Seq<char>, path: Seq<char>) -> bool {
    contains(content_type, "pdf"@) || ends_with(lowercase(path), ".pdf"@)
}

/// A fetched web page's title: the user's (if given) or the page's
/// trimmed `<title>`, unless that is empty; else the host.
pub open spec fn web_title(title: Option<Seq<char>>, html: Seq<char>, host: Seq<char>) -> Seq<char> {
    let t = match title {
        Some(t) => Some(t),
        None => match html_title(html) {
            Some(x) => Some(trim(x)),
            None => None,
        },
    };
    match t {
        Some(x) => if x.len() > 0 {
            x
        } else {
            host
        },
        None => host,
    }
}

pub open spec fn norm_view(n: Normalized) -> (Seq<char>, Seq<char>, Option<Seq<char>>, Seq<char>, Option<Seq<char>>) {
    (n.kind@, n.title@, crate::domain::opt_str_view(n.url), n.content@, crate::domain::opt_str_view(n.original))
}

/// What a fetched PDF becomes, given what the PDF text extractor made of
/// its bytes (its text, or why it failed): the text, titled by the user's
/// title, else the URL's last path segment, else `PDF`.
pub open spec fn pdf_spec(
    value: Seq<char>,
    title: Option<Seq<char>>,
    u: UrlView,
    extracted: Result<Seq<char>, Seq<char>>,
) -> Result<(Seq<char>, Seq<char>, Option<Seq<char>>, Seq<char>, Option<Seq<char>>), Seq<char>> {
    match extracted {
        Err(e) => Err(e),
        Ok(c) => Ok(
            (
                "pdf"@,
                match title {
                    Some(t) => t,
                    None => match u.last_segment {
                        Some(x) => x,
                        None => "PDF"@,
                    },
                },
                Some(value),
                c,
                None,
            ),
        ),
    }
}

/// What a fetched web page becomes: its readable text (its trimmed text
/// pieces separated by blank lines), with the page kept as the original.
pub open spec fn web_spec(value: Seq<char>, title: Option<Seq<char>>, u: UrlView, bytes: Seq<u8>) -> Result<
    (Seq<char>, Seq<char>, Option<Seq<char>>, Seq<char>, Option<Seq<char>>),
    Seq<char>,
> {
    match u.host {
        None => Err("URL has no host"@),
        Some(host) => {
            let html = lossy_utf8(bytes);
            let t = web_title(title, html, host);
            match html_main_text(html) {
                Err(e) => Err(e),
                Ok(texts) => {
                    let content = match texts {
                        Some(ts) => join(readable(ts), "\n\n"@),
                        None => seq![],
                    };
                    if trim(content).len() == 0 {
                        Err("web page contained no readable text"@)
                    } else {
                        Ok(("web"@, t, Some(value), content, Some(html)))
                    }
                },
            }
        },
    }
}

pub open spec fn result_view(r: Result<String, String>) -> Result<Seq<char>, Seq<char>> {
    match r {
        Ok(s) => Ok(s@),
        Err(e) => Err(e@),
    }
}

fn readable_exec(ts: &Vec<String>) -> (r: Vec<Vec<char>>)
    ensures
        crate::ai::vv(r@) == readable(crate::domain::strs_view(ts@)),
{
    let ghost tv = crate::domain::strs_view(ts@);
    let mut out: Vec<Vec<char>> = Vec::new();
    for i in 0..ts.len()
        invariant
            tv == crate::domain::strs_view(ts@),
            crate::ai::vv(out@) == readable(tv.take(i as int)),
    {
        assert(tv.take(i + 1).drop_last() == tv.take(i as int));
        assert(tv.take(i + 1).last() == ts@[i as int]@);
        let t = crate::text::trim_chars(chars_of(ts[i].as_str()).as_slice());
        if t.len() > 0 {
            let ghost before = crate::ai::vv(out@);
            out.push(t);
            assert(crate::ai::vv(out@) =~= before.push(t@));
        }
    }
    assert(tv.take(ts@.len() as int) == tv);
    out
}

impl Fetch {
    /// Whether the body is a PDF: by its content type, or by the URL's
    /// path ending in `.pdf`, in any case. A PDF's text is then extracted
    /// by the caller and handed to `pdf_body`; anything else goes to
    /// `web_body`.
    pub fn wants_pdf(&self, content_type: &str) -> (r: bool)
        ensures
            r == is_pdf(content_type@, self.url@.path),
    {
        let ct = chars_of(content_type);
        let lower_path = crate::text::to_lowercase(self.url.path.as_str());
        let pdf_pat = chars_of("pdf");
        let ext = chars_of(".pdf");
        crate::text::contains_chars(ct.as_slice(), pdf_pat.as_slice()) || crate::text::ends_with_chars(
            chars_of(lower_path.as_str()).as_slice(),
            ext.as_slice(),
        )
    }

    /// The source a fetched PDF makes, from what the text extractor made of
    /// it (see `pdf_spec`).
    pub fn pdf_body(&self, extracted: Result<String, String>) -> (r: Result<Normalized, String>)
        ensures
            match (r, pdf_spec(self.value@, crate::domain::opt_str_view(self.title), self.url@, result_view(extracted))) {
                (Ok(n), Ok(v)) => norm_view(n) == v && n.author.is_none() && n.doi.is_none()
                    && n.authors.is_none() && n.published.is_none(),
                (Err(a), Err(b)) => a@ == b,
                _ => false,
            },
    {
        let content = match extracted {
            Ok(c) => c,
            Err(e) => {
                return Err(e);
            },
        };
        let title = match &self.title {
            Some(t) => t.clone(),
            None => match &self.url.last_segment {
                Some(x) => x.clone(),
                None => "PDF".to_string(),
            },
        };
        Ok(
            Normalized {
                kind: "pdf".to_string(),
                title,
                author: None,
                url: Some(self.value.clone()),
                content,
                original: None,
                doi: None,
                authors: None,
                published: None,
            },
        )
    }

    /// The source a fetched web page makes (see `web_spec`).
    pub fn web_body(&self, bytes: &[u8]) -> (r: Result<Normalized, String>)
        ensures
            match (r, web_spec(self.value@, crate::domain::opt_str_view(self.title), self.url@, bytes@)) {
                (Ok(n), Ok(v)) => norm_view(n) == v && n.author.is_none() && n.doi.is_none()
                    && n.authors.is_none() && n.published.is_none(),
                (Err(a), Err(b)) => a@ == b,
                _ => false,
            },
    {
        let host = match &self.url.host {
            Some(h) => h.clone(),
            None => {
                return Err("URL has no host".to_string());
            },
        };
        let html = decode_lossy(bytes);
        let t: Option<String> = match &self.title {
            Some(t) => Some(t.clone()),
            None => match page_title(html.as_str()) {
                Some(x) => Some(crate::text::trim_str(x.as_str())),
                None => None,
            },
        };
        let title = match t {
            Some(x) => if chars_of(x.as_str()).len() > 0 {
                x
            } else {
                host
            },
            None => host,
        };
        let texts = page_texts(html.as_str())?;
        let content = match &texts {
            Some(ts) => {
                let parts = readable_exec(ts);
                crate::wire::join_parts(&parts, "\n\n")
            },
            None => Vec::new(),
        };
        let tc = crate::text::trim_chars(content.as_slice());
        if tc.len() == 0 {
            return Err("web page contained no readable text".to_string());
        }
        Ok(
            Normalized {
                kind: "web".to_string(),
                title,
                author: None,
                url: Some(self.value.clone()),
                content: string_of(content.as_slice()),
                original: Some(html),
                doi: None,
                authors: None,
                published: None,
            },
        )
    }
}

} // verus!
