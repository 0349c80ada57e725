//! Taking in a source: what the input asks for, the immutable snapshot's id
//! and metadata, the note written about it, and the network addresses a
//! source may not be fetched from.
use vstd::prelude::*;
use crate::domain::{AddSourceInput, CandidateEntity, Note, SourceMeta, strs_view};
use crate::mock::candidates_view;
use crate::text::{
    chars_of, dec, extend_chars, extend_str, join, string_of, trim, trim_chars, usize_to_chars,
    words,
};

verus! {

// ---------------------------------------------------------------------------
// Input
// ---------------------------------------------------------------------------

/// A source as taken in, before it is stored.
#[derive(Debug, Clone, PartialEq, Eq)]
pub struct Normalized {
    pub kind: String,
    pub title: String,
    pub author: Option<String>,
    pub url: Option<String>,
    pub content: String,
    pub original: Option<String>,
    pub doi: Option<String>,
    pub authors: Option<Vec<String>>,
    pub published: Option<String>,
}

/// What an input asks for.
pub enum InputPlan {
    /// Fetch this (trimmed) URL; the title, if given, overrides the page's.
    Fetch { url: String, title: Option<String> },
    /// A pasted text, ready.
    Text(Normalized),
}

pub open spec fn blank(o: Option<String>) -> bool {
    match o {
        Some(s) => trim(s@).len() == 0,
        None => true,
    }
}

/// Reads an input: a non-blank URL is to be fetched; else a non-blank text
/// is the source, titled by the given title unless it is blank
/// (`Untitled`); with neither, `url or text is required`.
pub fn plan_input(input: &AddSourceInput) -> (r: Result<InputPlan, String>)
    ensures
        !blank(input.url) ==> (r matches Ok(InputPlan::Fetch { url, title }) && url@ == trim(
            input.url->Some_0@,
        ) && crate::domain::opt_str_view(title) == crate::domain::opt_str_view(input.title)),
        blank(input.url) && !blank(input.text) ==> (r matches Ok(InputPlan::Text(n)) && n.kind@
            == "text"@ && n.title@ == (if blank(input.title) {
            "Untitled"@
        } else {
            input.title->Some_0@
        }) && n.content@ == trim(input.text->Some_0@) && n.author.is_none() && n.url.is_none()
            && n.original.is_none() && n.doi.is_none() && n.authors.is_none()
            && n.published.is_none()),
        blank(input.url) && blank(input.text) ==> (r matches Err(e) && e@
            == "url or text is required"@),
{
    match &input.url {
        Some(u) => {
            let t = crate::text::trim_str(u.as_str());
            if chars_of(t.as_str()).len() > 0 {
                let title = match &input.title {
                    Some(x) => Some(x.clone()),
                    None => None,
                };
                return Ok(InputPlan::Fetch { url: t, title });
            }
        },
        None => {},
    }
    match &input.text {
        Some(x) => {
            let t = crate::text::trim_str(x.as_str());
            if chars_of(t.as_str()).len() > 0 {
                let title = match &input.title {
                    Some(s) => if chars_of(crate::text::trim_str(s.as_str()).as_str()).len() > 0 {
                        s.clone()
                    } else {
                        "Untitled".to_string()
                    },
                    None => "Untitled".to_string(),
                };
                return Ok(
                    InputPlan::Text(
                        Normalized {
                            kind: "text".to_string(),
                            title,
                            author: None,
                            url: None,
                            content: t,
                            original: None,
                            doi: None,
                            authors: None,
                            published: None,
                        },
                    ),
                );
            }
        },
        None => {},
    }
    Err("url or text is required".to_string())
}

// ---------------------------------------------------------------------------
// Snapshot id and metadata
// ---------------------------------------------------------------------------

/// The hex SHA-256 of a text's UTF-8 bytes.
pub open spec fn text_hash(s: Seq<char>) -> Seq<char> {
    crate::hash::hash_hex(vstd::utf8::encode_utf8(s))
}

/// A source's id: `S` and the first ten hex digits of the hash of
/// `<url or title>:<content hash>`.
pub open spec fn source_id_of(identity: Seq<char>, content: Seq<char>) -> Seq<char> {
    "S"@ + text_hash(identity + ":"@ + text_hash(content)).take(10)
}

/// The metadata of a source taken in on day `today`: its id, its content
/// hash and its number of words; not yet summarised.
pub fn source_meta(n: &Normalized, today: &str) -> (r: SourceMeta)
    ensures
        r.content_hash@ == text_hash(n.content@),
        r.id@ == source_id_of(
            match n.url {
                Some(u) => u@,
                None => n.title@,
            },
            n.content@,
        ),
        r.kind@ == n.kind@,
        r.title@ == n.title@,
        crate::domain::opt_str_view(r.author) == crate::domain::opt_str_view(n.author),
        crate::domain::opt_str_view(r.url) == crate::domain::opt_str_view(n.url),
        r.fetched_at@ == today@,
        r.word_count == words(n.content@).len(),
        crate::domain::opt_str_view(r.doi) == crate::domain::opt_str_view(n.doi),
        match (r.authors, n.authors) {
            (Some(a), Some(b)) => strs_view(a@) == strs_view(b@),
            (None, None) => true,
            _ => false,
        },
        crate::domain::opt_str_view(r.published) == crate::domain::opt_str_view(n.published),
        r.summarized.is_none(),
{
    let h = crate::hash::hash_str(n.content.as_str());
    let identity = match &n.url {
        Some(u) => u.as_str(),
        None => n.title.as_str(),
    };
    let mut key = chars_of(identity);
    key.push(':');
    extend_chars(&mut key, h.as_slice());
    let ks = string_of(key.as_slice());
    assert(ks@ == identity@ + ":"@ + h@) by {
        reveal_strlit(":");
        assert(":"@ == seq![':']);
    }
    let d = crate::hash::hash_str(ks.as_str());
    let mut id = chars_of("S");
    for k in 0..10
        invariant
            d@.len() == 64,
            id@ == "S"@ + d@.take(k as int),
    {
        id.push(d[k]);
        assert(d@.take(k + 1) == d@.take(k as int).push(d@[k as int]));
    }
    let authors = match &n.authors {
        Some(a) => {
            let mut v: Vec<String> = Vec::new();
            for i in 0..a.len()
                invariant
                    strs_view(v@) == strs_view(a@).take(i as int),
            {
                let ghost before = strs_view(v@);
                v.push(a[i].clone());
                assert(strs_view(v@) =~= before.push(a@[i as int]@));
                assert(strs_view(a@).take(i + 1) =~= strs_view(a@).take(i as int).push(a@[i as int]@));
            }
            assert(strs_view(a@).take(a@.len() as int) == strs_view(a@));
            Some(v)
        },
        None => None,
    };
    SourceMeta {
        id: string_of(id.as_slice()),
        kind: n.kind.clone(),
        title: n.title.clone(),
        author: match &n.author {
            Some(x) => Some(x.clone()),
            None => None,
        },
        url: match &n.url {
            Some(x) => Some(x.clone()),
            None => None,
        },
        fetched_at: today.to_string(),
        content_hash: string_of(h.as_slice()),
        word_count: crate::text::word_count(n.content.as_str()),
        doi: match &n.doi {
            Some(x) => Some(x.clone()),
            None => None,
        },
        authors,
        published: match &n.published {
            Some(x) => Some(x.clone()),
            None => None,
        },
        summarized: None,
    }
}

/// The log line of an ingested source:
/// `[ingest] <id> "<title>" (<kind>) — <n> entities`.
pub fn ingest_log_line(meta: &SourceMeta, entities: usize) -> (r: String)
    ensures
        r@ == "[ingest] "@ + meta.id@ + " \""@ + meta.title@ + "\" ("@ + meta.kind@ + ") — "@ + dec(
            entities as nat,
        ) + " entities"@,
{
    let mut v = chars_of("[ingest] ");
    extend_str(&mut v, meta.id.as_str());
    extend_str(&mut v, " \"");
    extend_str(&mut v, meta.title.as_str());
    extend_str(&mut v, "\" (");
    extend_str(&mut v, meta.kind.as_str());
    extend_str(&mut v, ") — ");
    let d = usize_to_chars(entities);
    extend_chars(&mut v, d.as_slice());
    extend_str(&mut v, " entities");
    string_of(v.as_slice())
}

// ---------------------------------------------------------------------------
// The note on a source
// ---------------------------------------------------------------------------

/// The Markdown note on a source: a frontmatter naming the source, then the
/// summary, the key points, the candidate entities and the tags.
pub open spec fn note_markdown(id: Seq<char>, title: Seq<char>, kind: Seq<char>, n_tldr: Seq<char>, points: Seq<Seq<char>>, cands: Seq<(Seq<char>, Seq<char>, Seq<char>)>, tags: Seq<Seq<char>>) -> Seq<char> {
    "---\nsource: "@ + id + "\ntitle: "@ + title + "\nkind: "@ + kind + "\n---\n\n## TL;DR\n"@ + n_tldr
        + "\n\n## Key points\n"@ + join(points.map_values(|x: Seq<char>| "- "@ + x), "\n"@)
        + "\n\n## Candidate entities\n"@ + join(
        cands.map_values(
            |e: (Seq<char>, Seq<char>, Seq<char>)| "- "@ + e.0 + " ("@ + e.1 + ") — "@ + e.2,
        ),
        "\n"@,
    ) + "\n\n## Tags\n"@ + join(tags.map_values(|x: Seq<char>| "#"@ + x), " "@) + "\n"@
}

/// The note on a source, in Markdown.
pub fn render_note(meta: &SourceMeta, n: &Note) -> (r: String)
    ensures
        r@ == note_markdown(
            meta.id@,
            meta.title@,
            meta.kind@,
            n.tldr@,
            strs_view(n.key_points@),
            candidates_view(n.candidate_entities@),
            strs_view(n.tags@),
        ),
{
    let ghost pts = strs_view(n.key_points@).map_values(|x: Seq<char>| "- "@ + x);
    let mut pp: Vec<Vec<char>> = Vec::new();
    for k in 0..n.key_points.len()
        invariant
            pts == strs_view(n.key_points@).map_values(|x: Seq<char>| "- "@ + x),
            crate::ai::vv(pp@) == pts.take(k as int),
    {
        let mut x = chars_of("- ");
        extend_str(&mut x, n.key_points[k].as_str());
        let ghost before = crate::ai::vv(pp@);
        pp.push(x);
        assert(crate::ai::vv(pp@) =~= before.push(pts[k as int]));
        assert(pts.take(k + 1) =~= pts.take(k as int).push(pts[k as int]));
    }
    assert(pts.take(n.key_points@.len() as int) == pts);
    let ghost cs = candidates_view(n.candidate_entities@).map_values(
        |e: (Seq<char>, Seq<char>, Seq<char>)| "- "@ + e.0 + " ("@ + e.1 + ") — "@ + e.2,
    );
    let mut cp: Vec<Vec<char>> = Vec::new();
    for k in 0..n.candidate_entities.len()
        invariant
            cs == candidates_view(n.candidate_entities@).map_values(
                |e: (Seq<char>, Seq<char>, Seq<char>)| "- "@ + e.0 + " ("@ + e.1 + ") — "@ + e.2,
            ),
            crate::ai::vv(cp@) == cs.take(k as int),
    {
        let c = &n.candidate_entities[k];
        let mut x = chars_of("- ");
        extend_str(&mut x, c.name.as_str());
        extend_str(&mut x, " (");
        extend_str(&mut x, c.kind.as_str());
        extend_str(&mut x, ") — ");
        extend_str(&mut x, c.why.as_str());
        let ghost before = crate::ai::vv(cp@);
        cp.push(x);
        assert(crate::ai::vv(cp@) =~= before.push(cs[k as int]));
        assert(cs.take(k + 1) =~= cs.take(k as int).push(cs[k as int]));
    }
    assert(cs.take(n.candidate_entities@.len() as int) == cs);
    let ghost ts = strs_view(n.tags@).map_values(|x: Seq<char>| "#"@ + x);
    let mut tp: Vec<Vec<char>> = Vec::new();
    for k in 0..n.tags.len()
        invariant
            ts == strs_view(n.tags@).map_values(|x: Seq<char>| "#"@ + x),
            crate::ai::vv(tp@) == ts.take(k as int),
    {
        let mut x = chars_of("#");
        extend_str(&mut x, n.tags[k].as_str());
        let ghost before = crate::ai::vv(tp@);
        tp.push(x);
        assert(crate::ai::vv(tp@) =~= before.push(ts[k as int]));
        assert(ts.take(k + 1) =~= ts.take(k as int).push(ts[k as int]));
    }
    assert(ts.take(n.tags@.len() as int) == ts);
    let mut v = chars_of("---\nsource: ");
    extend_str(&mut v, meta.id.as_str());
    extend_str(&mut v, "\ntitle: ");
    extend_str(&mut v, meta.title.as_str());
    extend_str(&mut v, "\nkind: ");
    extend_str(&mut v, meta.kind.as_str());
    extend_str(&mut v, "\n---\n\n## TL;DR\n");
    extend_str(&mut v, n.tldr.as_str());
    extend_str(&mut v, "\n\n## Key points\n");
    let a = crate::wire::join_parts(&pp, "\n");
    extend_chars(&mut v, a.as_slice());
    extend_str(&mut v, "\n\n## Candidate entities\n");
    let b = crate::wire::join_parts(&cp, "\n");
    extend_chars(&mut v, b.as_slice());
    extend_str(&mut v, "\n\n## Tags\n");
    let c = crate::wire::join_parts(&tp, " ");
    extend_chars(&mut v, c.as_slice());
    extend_str(&mut v, "\n");
    string_of(v.as_slice())
}


// ---------------------------------------------------------------------------
// Addresses a source may not be fetched from
// ---------------------------------------------------------------------------

/// An IP address: four octets or eight 16-bit segments.
#[derive(Debug, Clone, Copy, PartialEq, Eq)]
pub enum IpAddress {
    V4(u8, u8, u8, u8),
    V6(u16, u16, u16, u16, u16, u16, u16, u16),
}

/// A private, local or otherwise non-public IPv4 address: private,
/// loopback, link-local, unspecified, broadcast, multicast, documentation,
/// shared (100.64.0.0/10) or benchmark (198.18.0.0/15).
pub open spec fn private_v4(a: u8, b: u8, c: u8, d: u8) -> bool {
    ||| a == 10
    ||| (a == 172 && 16 <= b && b <= 31)
    ||| (a == 192 && b == 168)
    ||| a == 127
    ||| (a == 169 && b == 254)
    ||| (a == 0 && b == 0 && c == 0 && d == 0)
    ||| (a == 255 && b == 255 && c == 255 && d == 255)
    ||| (224 <= a && a <= 239)
    ||| (a == 192 && b == 0 && c == 2)
    ||| (a == 198 && b == 51 && c == 100)
    ||| (a == 203 && b == 0 && c == 113)
    ||| (a == 100 && 64 <= b && b <= 127)
    ||| (a == 198 && (b == 18 || b == 19))
}

/// A non-public address: an IPv4 one as above (also when mapped into IPv6
/// as `::ffff:a.b.c.d`), or the IPv6 loopback, unspecified, multicast,
/// unique-local (fc00::/7), link-local (fe80::/10) or documentation
/// (2001:db8::/32) address.
pub open spec fn private_address(ip: IpAddress) -> bool {
    match ip {
        IpAddress::V4(a, b, c, d) => private_v4(a, b, c, d),
        IpAddress::V6(s0, s1, s2, s3, s4, s5, s6, s7) => if s0 == 0 && s1 == 0 && s2 == 0 && s3 == 0
            && s4 == 0 && s5 == 0xffff {
            private_v4((s6 / 256) as u8, (s6 % 256) as u8, (s7 / 256) as u8, (s7 % 256) as u8)
        } else {
            ||| (s0 == 0 && s1 == 0 && s2 == 0 && s3 == 0 && s4 == 0 && s5 == 0 && s6 == 0 && s7 == 1)
            ||| (s0 == 0 && s1 == 0 && s2 == 0 && s3 == 0 && s4 == 0 && s5 == 0 && s6 == 0 && s7 == 0)
            ||| s0 / 256 == 0xff
            ||| (0xfc00 <= s0 && s0 <= 0xfdff)
            ||| (0xfe80 <= s0 && s0 <= 0xfebf)
            ||| (s0 == 0x2001 && s1 == 0x0db8)
        },
    }
}

fn private_v4_exec(a: u8, b: u8, c: u8, d: u8) -> (r: bool)
    ensures
        r == private_v4(a, b, c, d),
{
    a == 10 || (a == 172 && 16 <= b && b <= 31) || (a == 192 && b == 168) || a == 127 || (a == 169
        && b == 254) || (a == 0 && b == 0 && c == 0 && d == 0) || (a == 255 && b == 255 && c == 255
        && d == 255) || (224 <= a && a <= 239) || (a == 192 && b == 0 && c == 2) || (a == 198 && b
        == 51 && c == 100) || (a == 203 && b == 0 && c == 113) || (a == 100 && 64 <= b && b <= 127)
        || (a == 198 && (b == 18 || b == 19))
}

/// Whether an address is private, local or otherwise not public.
pub fn private_ip(ip: IpAddress) -> (r: bool)
    ensures
        r == private_address(ip),
{
    match ip {
        IpAddress::V4(a, b, c, d) => private_v4_exec(a, b, c, d),
        IpAddress::V6(s0, s1, s2, s3, s4, s5, s6, s7) => {
            if s0 == 0 && s1 == 0 && s2 == 0 && s3 == 0 && s4 == 0 && s5 == 0xffff {
                private_v4_exec((s6 / 256) as u8, (s6 % 256) as u8, (s7 / 256) as u8, (s7 % 256) as u8)
            } else {
                (s0 == 0 && s1 == 0 && s2 == 0 && s3 == 0 && s4 == 0 && s5 == 0 && s6 == 0 && s7 == 1)
                    || (s0 == 0 && s1 == 0 && s2 == 0 && s3 == 0 && s4 == 0 && s5 == 0 && s6 == 0
                    && s7 == 0) || s0 / 256 == 0xff || (0xfc00 <= s0 && s0 <= 0xfdff) || (0xfe80
                    <= s0 && s0 <= 0xfebf) || (s0 == 0x2001 && s1 == 0x0db8)
            }
        },
    }
}

/// Where a fetch may go: the resolved addresses of the host, of which none
/// may be non-public; the first is used.
pub fn check_addresses(addresses: &Vec<IpAddress>) -> (r: Result<usize, String>)
    ensures
        addresses@.len() == 0 ==> (r matches Err(e) && e@ == "URL host did not resolve"@),
        addresses@.len() > 0 && (exists|i: int| 0 <= i < addresses@.len() && private_address(#[trigger] addresses@[i]))
            ==> (r matches Err(e) && e@ == "private or local network URLs are not allowed"@),
        addresses@.len() > 0 && (forall|i: int| 0 <= i < addresses@.len() ==> !private_address(#[trigger] addresses@[i]))
            ==> r == Ok::<usize, String>(0),
{
    if addresses.len() == 0 {
        return Err("URL host did not resolve".to_string());
    }
    for i in 0..addresses.len()
        invariant
            forall|k: int| 0 <= k < i ==> !private_address(#[trigger] addresses@[k]),
    {
        if private_ip(addresses[i]) {
            return Err("private or local network URLs are not allowed".to_string());
        }
    }
    Ok(0)
}

} // verus!
