//! The vault: its paths, its checks on names supplied by the UI, and the
//! listings, backlinks and graph computed from its pages. Reading and
//! writing the files themselves is the application's part.
use vstd::prelude::*;
use crate::domain::{
    EntityPage, EntitySummary, GraphData, GraphEdge, GraphNode, LinkView, PageView, SourceMeta,
    strs_view,
};
use crate::order::{pos_from, stable_sort};
use crate::text::{chars_of, extend_chars, extend_str, str_eq, str_less, str_lt, string_of};

verus! {

/// `Path::join` on Unix: an absolute path replaces the base, a relative
/// one is appended after a separator unless the base is empty or already
/// ends with one.
pub open spec fn path_join(base: Seq<char>, p: Seq<char>) -> Seq<char> {
    if p.len() > 0 && p[0] == '/' {
        p
    } else if base.len() == 0 {
        p
    } else if base.last() == '/' {
        base + p
    } else {
        base + seq!['/'] + p
    }
}

pub fn path_join_exec(base: &str, p: &str) -> (r: String)
    ensures
        r@ == path_join(base@, p@),
{
    let b = chars_of(base);
    let q = chars_of(p);
    if q.len() > 0 && q[0] == '/' {
        return string_of(q.as_slice());
    }
    if b.len() == 0 {
        return string_of(q.as_slice());
    }
    let mut out = b.clone();
    assert(out@ == b@);
    if b[b.len() - 1] != '/' {
        out.push('/');
    }
    extend_chars(&mut out, q.as_slice());
    string_of(out.as_slice())
}

/// A name supplied by the UI is a single path component: non-empty, without
/// a slash or backslash, and neither `.` nor `..`.
pub open spec fn is_safe_component(v: Seq<char>) -> bool {
    v.len() > 0 && !v.contains('/') && !v.contains('\\') && v != seq!['.'] && v != seq!['.', '.']
}

/// Rejects names that are not a single path component.
pub fn safe_component(value: &str) -> (r: Result<(), String>)
    ensures
        r.is_ok() == is_safe_component(value@),
        match r {
            Err(e) => e@ == "invalid path component"@,
            _ => true,
        },
{
    let v = chars_of(value);
    let n = v.len();
    let mut bad = n == 0;
    for i in 0..n
        invariant
            n == v@.len(),
            !bad ==> n > 0 && forall|k: int| 0 <= k < i ==> v@[k] != '/' && v@[k] != '\\',
            bad ==> !is_safe_component(v@),
    {
        if v[i] == '/' || v[i] == '\\' {
            assert(v@.contains(v@[i as int]));
            bad = true;
        }
    }
    if !bad {
        if (n == 1 && v[0] == '.') || (n == 2 && v[0] == '.' && v[1] == '.') {
            assert(v@ == seq!['.'] || v@ == seq!['.', '.']);
            bad = true;
        } else {
            assert(v@ != seq!['.']);
            assert(v@ != seq!['.', '.']);
            assert(!v@.contains('/')) by {
                if v@.contains('/') {
                    let k = choose|k: int| 0 <= k < v@.len() && v@[k] == '/';
                }
            }
            assert(!v@.contains('\\')) by {
                if v@.contains('\\') {
                    let k = choose|k: int| 0 <= k < v@.len() && v@[k] == '\\';
                }
            }
        }
    }
    if bad {
        Err("invalid path component".to_owned())
    } else {
        Ok(())
    }
}

/// The vault, rooted at a directory.
#[derive(Debug, Clone, PartialEq, Eq)]
pub struct Vault {
    pub root: String,
}

/// `base` with ".md" appended.
pub open spec fn md_name(base: Seq<char>) -> Seq<char> {
    base + ".md"@
}

/// Whether an entity page holds a link to `target`.
pub open spec fn page_links_to(p: PageView, target: Seq<char>) -> bool {
    exists|i: int| 0 <= i < p.links.len() && (#[trigger] p.links[i]).target_slug == target
}

/// A listing of pages: slug and page, in slug order.
pub open spec fn pages_view(pages: Seq<(String, EntityPage)>) -> Seq<(Seq<char>, PageView)> {
    pages.map_values(|x: (String, EntityPage)| (x.0@, x.1@))
}

/// The sources, newest `fetched_at` first (a stable sort).
pub open spec fn newer_first() -> spec_fn(SourceMeta, SourceMeta) -> bool {
    |a: SourceMeta, b: SourceMeta| str_lt(b.fetched_at@, a.fetched_at@)
}

/// Entity summaries by title (a stable sort).
pub open spec fn by_title() -> spec_fn(EntitySummary, EntitySummary) -> bool {
    |a: EntitySummary, b: EntitySummary| str_lt(a.title@, b.title@)
}

/// The slugs, in listing order, of the pages other than `target` that link
/// to it.
pub open spec fn backlinks_spec(pages: Seq<(Seq<char>, PageView)>, target: Seq<char>) -> Seq<Seq<char>>
    decreases pages.len(),
{
    if pages.len() == 0 {
        seq![]
    } else {
        let rest = backlinks_spec(pages.drop_last(), target);
        let (slug, p) = pages.last();
        if slug != target && page_links_to(p, target) {
            rest.push(slug)
        } else {
            rest
        }
    }
}

/// The two ends of a link in ascending order.
pub open spec fn ordered_pair(a: Seq<char>, b: Seq<char>) -> (Seq<char>, Seq<char>) {
    if str_lt(b, a) {
        (b, a)
    } else {
        (a, b)
    }
}

/// The key under which the graph treats an edge as already drawn.
pub open spec fn edge_key(e: (Seq<char>, Seq<char>)) -> Seq<char> {
    e.0 + seq!['|'] + e.1
}

pub open spec fn link_pairs(slug: Seq<char>, links: Seq<LinkView>) -> Seq<(Seq<char>, Seq<char>)>
    decreases links.len(),
{
    if links.len() == 0 {
        seq![]
    } else {
        link_pairs(slug, links.drop_last()).push(ordered_pair(slug, links.last().target_slug))
    }
}

/// Every link of every page, as ordered pairs, in listing order.
pub open spec fn all_pairs(pages: Seq<(Seq<char>, PageView)>) -> Seq<(Seq<char>, Seq<char>)>
    decreases pages.len(),
{
    if pages.len() == 0 {
        seq![]
    } else {
        all_pairs(pages.drop_last()) + link_pairs(pages.last().0, pages.last().1.links)
    }
}

/// Keeps the first pair of each key.
pub open spec fn first_of_each_key(e: Seq<(Seq<char>, Seq<char>)>) -> Seq<(Seq<char>, Seq<char>)>
    decreases e.len(),
{
    if e.len() == 0 {
        seq![]
    } else {
        let d = first_of_each_key(e.drop_last());
        if exists|i: int| 0 <= i < d.len() && edge_key(#[trigger] d[i]) == edge_key(e.last()) {
            d
        } else {
            d.push(e.last())
        }
    }
}

pub open spec fn is_node(pages: Seq<(Seq<char>, PageView)>, s: Seq<char>) -> bool {
    exists|i: int| 0 <= i < pages.len() && (#[trigger] pages[i]).0 == s
}

/// Keeps the edges whose two ends are pages.
pub open spec fn valid_edges(pages: Seq<(Seq<char>, PageView)>, e: Seq<(Seq<char>, Seq<char>)>) -> Seq<
    (Seq<char>, Seq<char>),
>
    decreases e.len(),
{
    if e.len() == 0 {
        seq![]
    } else {
        let d = valid_edges(pages, e.drop_last());
        if is_node(pages, e.last().0) && is_node(pages, e.last().1) {
            d.push(e.last())
        } else {
            d
        }
    }
}

/// The edges of the graph: each link once, with its ends in ascending order,
/// and only between existing pages.
pub open spec fn graph_edges(pages: Seq<(Seq<char>, PageView)>) -> Seq<(Seq<char>, Seq<char>)> {
    valid_edges(pages, first_of_each_key(all_pairs(pages)))
}

proof fn lemma_link_pairs_ordered(slug: Seq<char>, links: Seq<LinkView>)
    ensures
        forall|i: int|
            0 <= i < link_pairs(slug, links).len() ==> !str_lt(
                (#[trigger] link_pairs(slug, links)[i]).1,
                link_pairs(slug, links)[i].0,
            ),
    decreases links.len(),
{
    if links.len() > 0 {
        lemma_link_pairs_ordered(slug, links.drop_last());
        let t = links.last().target_slug;
        if str_lt(t, slug) {
            crate::text::lemma_str_lt_asym(t, slug);
        }
        let r = link_pairs(slug, links);
        let d = link_pairs(slug, links.drop_last());
        assert forall|i: int| 0 <= i < r.len() implies !str_lt((#[trigger] r[i]).1, r[i].0) by {
            if i < d.len() {
                assert(r[i] == d[i]);
            }
        }
    }
}

proof fn lemma_all_pairs_ordered(pages: Seq<(Seq<char>, PageView)>)
    ensures
        forall|i: int|
            0 <= i < all_pairs(pages).len() ==> !str_lt((#[trigger] all_pairs(pages)[i]).1, all_pairs(pages)[i].0),
    decreases pages.len(),
{
    if pages.len() > 0 {
        lemma_all_pairs_ordered(pages.drop_last());
        let a = all_pairs(pages.drop_last());
        let l = link_pairs(pages.last().0, pages.last().1.links);
        lemma_link_pairs_ordered(pages.last().0, pages.last().1.links);
        let r = all_pairs(pages);
        assert forall|i: int| 0 <= i < r.len() implies !str_lt((#[trigger] r[i]).1, r[i].0) by {
            if i < a.len() {
                assert(r[i] == a[i]);
            } else {
                assert(r[i] == l[i - a.len()]);
            }
        }
    }
}

proof fn lemma_first_of_each_key(e: Seq<(Seq<char>, Seq<char>)>)
    ensures
        forall|i: int| 0 <= i < first_of_each_key(e).len() ==> e.contains(#[trigger] first_of_each_key(e)[i]),
        forall|i: int, j: int|
            0 <= i < j < first_of_each_key(e).len() ==> edge_key(#[trigger] first_of_each_key(e)[i]) != edge_key(
                #[trigger] first_of_each_key(e)[j],
            ),
    decreases e.len(),
{
    if e.len() > 0 {
        let p = e.drop_last();
        lemma_first_of_each_key(p);
        let d = first_of_each_key(p);
        let r = first_of_each_key(e);
        assert forall|i: int| 0 <= i < r.len() implies e.contains(#[trigger] r[i]) by {
            if i < d.len() {
                assert(r[i] == d[i]);
                let k = choose|k: int| 0 <= k < p.len() && p[k] == d[i];
                assert(e[k] == p[k]);
            } else {
                assert(e[e.len() - 1] == e.last());
            }
        }
        assert forall|i: int, j: int| 0 <= i < j < r.len() implies edge_key(#[trigger] r[i]) != edge_key(#[trigger] r[j]) by {
            if j < d.len() {
                assert(r[i] == d[i] && r[j] == d[j]);
            } else {
                assert(r[i] == d[i]);
            }
        }
    }
}

proof fn lemma_valid_edges(pages: Seq<(Seq<char>, PageView)>, e: Seq<(Seq<char>, Seq<char>)>)
    requires
        forall|i: int, j: int| 0 <= i < j < e.len() ==> edge_key(#[trigger] e[i]) != edge_key(#[trigger] e[j]),
    ensures
        forall|i: int|
            0 <= i < valid_edges(pages, e).len() ==> e.contains(#[trigger] valid_edges(pages, e)[i]) && is_node(
                pages,
                valid_edges(pages, e)[i].0,
            ) && is_node(pages, valid_edges(pages, e)[i].1),
        forall|i: int, j: int|
            0 <= i < j < valid_edges(pages, e).len() ==> edge_key(#[trigger] valid_edges(pages, e)[i]) != edge_key(
                #[trigger] valid_edges(pages, e)[j],
            ),
    decreases e.len(),
{
    if e.len() > 0 {
        let p = e.drop_last();
        assert forall|i: int, j: int| 0 <= i < j < p.len() implies edge_key(#[trigger] p[i]) != edge_key(#[trigger] p[j]) by {
            assert(p[i] == e[i] && p[j] == e[j]);
        }
        lemma_valid_edges(pages, p);
        let d = valid_edges(pages, p);
        let r = valid_edges(pages, e);
        let n = e.len() - 1;
        assert forall|i: int| 0 <= i < r.len() implies e.contains(#[trigger] r[i]) && is_node(pages, r[i].0)
            && is_node(pages, r[i].1) by {
            if i < d.len() {
                assert(r[i] == d[i]);
                let k = choose|k: int| 0 <= k < p.len() && p[k] == d[i];
                assert(e[k] == p[k]);
            } else {
                assert(e[n] == e.last());
            }
        }
        assert forall|i: int, j: int| 0 <= i < j < r.len() implies edge_key(#[trigger] r[i]) != edge_key(#[trigger] r[j]) by {
            if j < d.len() {
                assert(r[i] == d[i] && r[j] == d[j]);
            } else {
                assert(r[i] == d[i]);
                let k = choose|k: int| 0 <= k < p.len() && p[k] == d[i];
                assert(e[k] == p[k]);
                assert(e[n] == e.last());
                assert(edge_key(e[k]) != edge_key(e[n]));
            }
        }
    }
}

/// The graph draws each pair of linked pages once: every edge joins two
/// existing pages with its ends in ascending string order, and no two
/// edges join the same two pages, whichever way round.
pub proof fn law_graph_edges(pages: Seq<(Seq<char>, PageView)>)
    ensures
        forall|i: int|
            0 <= i < graph_edges(pages).len() ==> {
                let e = #[trigger] graph_edges(pages)[i];
                &&& !str_lt(e.1, e.0)
                &&& exists|p: int| 0 <= p < pages.len() && (#[trigger] pages[p]).0 == e.0
                &&& exists|p: int| 0 <= p < pages.len() && (#[trigger] pages[p]).0 == e.1
            },
        forall|i: int, j: int|
            0 <= i < j < graph_edges(pages).len() ==> {
                let a = #[trigger] graph_edges(pages)[i];
                let b = #[trigger] graph_edges(pages)[j];
                &&& !(a.0 == b.0 && a.1 == b.1)
                &&& !(a.0 == b.1 && a.1 == b.0)
            },
{
    let all = all_pairs(pages);
    let f = first_of_each_key(all);
    let g = graph_edges(pages);
    lemma_all_pairs_ordered(pages);
    lemma_first_of_each_key(all);
    lemma_valid_edges(pages, f);
    assert forall|i: int| 0 <= i < g.len() implies !str_lt((#[trigger] g[i]).1, g[i].0) by {
        let k = choose|k: int| 0 <= k < f.len() && f[k] == g[i];
        let m = choose|m: int| 0 <= m < all.len() && all[m] == f[k];
    }
    assert forall|i: int, j: int| 0 <= i < j < g.len() implies {
        let a = #[trigger] g[i];
        let b = #[trigger] g[j];
        &&& !(a.0 == b.0 && a.1 == b.1)
        &&& !(a.0 == b.1 && a.1 == b.0)
    } by {
        let a = g[i];
        let b = g[j];
        assert(edge_key(a) != edge_key(b));
        assert(!str_lt(a.1, a.0));
        assert(!str_lt(b.1, b.0));
        if a.0 == b.1 && a.1 == b.0 {
            crate::text::lemma_str_lt_total(a.0, a.1);
            assert(a.0 == a.1);
        }
    }
}

impl Vault {
    /// A vault at `root`. Creating its directories, log, `.gitignore` and Git
    /// repository is the application's part.
    pub fn new(root: String) -> (v: Vault)
        ensures
            v.root@ == root@,
    {
        Vault { root }
    }

    /// The directory of a source snapshot.
    pub fn raw_dir(&self, id: &str) -> (r: String)
        ensures
            r@ == path_join(path_join(self.root@, "raw"@), id@),
    {
        let raw = path_join_exec(self.root.as_str(), "raw");
        path_join_exec(raw.as_str(), id)
    }

    /// The Markdown file of an entity page.
    pub fn entity_path(&self, slug: &str) -> (r: String)
        ensures
            r@ == path_join(path_join(self.root@, "wiki/entities"@), md_name(slug@)),
    {
        let dir = path_join_exec(self.root.as_str(), "wiki/entities");
        let mut name = chars_of(slug);
        extend_str(&mut name, ".md");
        let name = string_of(name.as_slice());
        path_join_exec(dir.as_str(), name.as_str())
    }

    /// The Markdown file of a source note.
    pub fn note_path(&self, id: &str) -> (r: String)
        ensures
            r@ == path_join(path_join(self.root@, "wiki/notes"@), md_name(id@)),
    {
        let dir = path_join_exec(self.root.as_str(), "wiki/notes");
        let mut name = chars_of(id);
        extend_str(&mut name, ".md");
        let name = string_of(name.as_slice());
        path_join_exec(dir.as_str(), name.as_str())
    }

    /// The file that `read_raw` reads: `content.md` of the snapshot, after
    /// the id is checked to be a single path component.
    pub fn read_raw(&self, id: &str) -> (r: Result<String, String>)
        ensures
            r.is_ok() == is_safe_component(id@),
            match r {
                Ok(p) => p@ == path_join(path_join(path_join(self.root@, "raw"@), id@), "content.md"@),
                Err(e) => e@ == "invalid path component"@,
            },
    {
        safe_component(id)?;
        let dir = self.raw_dir(id);
        Ok(path_join_exec(dir.as_str(), "content.md"))
    }

    /// The text of a source between UTF-16 offsets `start` and `end`, given
    /// the source's content.
    pub fn read_raw_utf16_span(&self, content: &str, start: usize, end: usize) -> (r: Result<
        String,
        String,
    >)
        ensures
            ({
                let u = crate::utf16::encode_utf16(content@);
                if start > end || end > u.len() {
                    r == Err::<String, String>(r->Err_0) && r->Err_0@ == "provenance range out of bounds"@
                } else {
                    match crate::utf16::decode_utf16(u.subrange(start as int, end as int)) {
                        Some(s) => r.is_ok() && r->Ok_0@ == s,
                        None => r.is_err() && r->Err_0@ == "invalid utf-16: lone surrogate found"@,
                    }
                }
            }),
    {
        let c = chars_of(content);
        let units = crate::utf16::encode_utf16_exec(c.as_slice());
        if start > end || end > units.len() {
            return Err("provenance range out of bounds".to_owned());
        }
        match crate::utf16::decode_utf16_exec(units.as_slice(), start, end) {
            Some(v) => Ok(string_of(v.as_slice())),
            None => Err("invalid utf-16: lone surrogate found".to_owned()),
        }
    }

    /// Where the settings are kept: `config.json` at the root, which the
    /// vault's `.gitignore` keeps out of Git.
    pub fn config_path(&self) -> (r: String)
        ensures
            r@ == path_join(self.root@, "config.json"@),
    {
        path_join_exec(self.root.as_str(), "config.json")
    }

    /// Where a source's metadata is read from, after the id is checked.
    pub fn read_meta(&self, id: &str) -> (r: Result<String, String>)
        ensures
            r.is_ok() == is_safe_component(id@),
            match r {
                Ok(p) => p@ == path_join(path_join(path_join(self.root@, "raw"@), id@), "meta.json"@),
                Err(e) => e@ == "invalid path component"@,
            },
    {
        safe_component(id)?;
        let dir = self.raw_dir(id);
        Ok(path_join_exec(dir.as_str(), "meta.json"))
    }

    /// Where a note is read from, after the id is checked.
    pub fn read_note(&self, id: &str) -> (r: Result<String, String>)
        ensures
            r.is_ok() == is_safe_component(id@),
            match r {
                Ok(p) => p@ == path_join(path_join(self.root@, "wiki/notes"@), md_name(id@)),
                Err(e) => e@ == "invalid path component"@,
            },
    {
        safe_component(id)?;
        Ok(self.note_path(id))
    }

    /// The hash of a page's file (`None` when there is none): its SHA-256
    /// hex digest, empty when there is no file.
    pub open spec fn entity_hash_spec(&self, file: Option<Seq<u8>>) -> Seq<char> {
        match file {
            None => Seq::<char>::empty(),
            Some(b) => crate::hash::hash_hex(b),
        }
    }

    /// The hash by which a commit recognises the page it was proposed
    /// against: the SHA-256 hex digest of the page's file, empty when the
    /// page has no file.
    pub fn entity_hash(&self, file: Option<&[u8]>) -> (r: String)
        ensures
            r@ == self.entity_hash_spec(
                match file {
                    Some(b) => Some(b@),
                    None => None,
                },
            ),
    {
        match file {
            None => String::new(),
            Some(b) => crate::hash::hash_bytes(b),
        }
    }

    /// What appending a line to the log writes where: `log.md` at the root,
    /// and the line without its trailing whitespace, then a newline.
    pub fn append_log(&self, line: &str) -> (r: (String, String))
        ensures
            r.0@ == path_join(self.root@, "log.md"@),
            r.1@ == crate::text::trim_end(line@).push('\n'),
    {
        let v = chars_of(line);
        let mut j = v.len();
        assert(v@.take(j as int) == v@);
        while j > 0 && crate::text::is_whitespace(v[j - 1])
            invariant
                j <= v@.len(),
                crate::text::trim_end(v@) == crate::text::trim_end(v@.take(j as int)),
            decreases j,
        {
            assert(v@.take(j as int).drop_last() == v@.take(j - 1));
            j = j - 1;
        }
        let mut t = crate::lines::slice_chars(v.as_slice(), 0, j);
        assert(t@ == v@.take(j as int));
        t.push('\n');
        (path_join_exec(self.root.as_str(), "log.md"), string_of(t.as_slice()))
    }

    /// Where a note is written, after the id is checked.
    pub fn write_note(&self, id: &str) -> (r: Result<String, String>)
        ensures
            r.is_ok() == is_safe_component(id@),
            match r {
                Ok(p) => p@ == path_join(path_join(self.root@, "wiki/notes"@), md_name(id@)),
                Err(e) => e@ == "invalid path component"@,
            },
    {
        safe_component(id)?;
        Ok(self.note_path(id))
    }

    /// Where an entity page is read from, after the slug is checked.
    pub fn read_entity(&self, slug: &str) -> (r: Result<String, String>)
        ensures
            r.is_ok() == is_safe_component(slug@),
            match r {
                Ok(p) => p@ == path_join(path_join(self.root@, "wiki/entities"@), md_name(slug@)),
                Err(e) => e@ == "invalid path component"@,
            },
    {
        safe_component(slug)?;
        Ok(self.entity_path(slug))
    }

    /// What writing an entity page puts where: the page's file, its Markdown
    /// (with `yaml` as the frontmatter text), the bytes the file is to hold
    /// (that Markdown's UTF-8) and their SHA-256 hex digest, which the caller
    /// keeps to detect a concurrent change: it is what `entity_hash` gives
    /// for the file while the file still holds those bytes. The slug must be
    /// a single path component.
    pub fn write_entity(&self, page: &EntityPage, yaml: &str) -> (r: Result<(String, String, Vec<u8>, String), String>)
        ensures
            r.is_ok() == is_safe_component(page.slug@),
            match r {
                Ok((path, body, bytes, hash)) => {
                    &&& path@ == path_join(path_join(self.root@, "wiki/entities"@), md_name(page.slug@))
                    &&& body@ == crate::entity_md::entity_markdown(page@, yaml@)
                    &&& bytes@ == vstd::utf8::encode_utf8(body@)
                    &&& hash@ == crate::hash::hash_hex(bytes@)
                    &&& self.entity_hash_spec(Some(bytes@)) == hash@
                },
                Err(e) => e@ == "invalid path component"@,
            },
    {
        safe_component(page.slug.as_str())?;
        let body = crate::entity_md::serialize_entity(page, yaml);
        let hash = crate::hash::hash_str(body.as_str());
        let bytes = vstd::slice::slice_to_vec(body.as_str().as_bytes());
        let path = self.entity_path(page.slug.as_str());
        Ok((path, body, bytes, string_of(hash.as_slice())))
    }

    /// The source ids: the names of the snapshot directories, in ascending
    /// order. `dir_names` are the UTF-8 names of the directories under `raw/`.
    pub fn source_ids(&self, dir_names: Vec<String>) -> (r: Vec<String>)
        ensures
            strs_view(r@) == stable_sort(strs_view(dir_names@), str_order()),
    {
        sort_strings(dir_names)
    }

    /// The entity slugs: the stems of the `.md` files under
    /// `wiki/entities/`, in ascending order. `file_names` are the UTF-8 names
    /// of the entries there.
    pub fn entity_slugs(&self, file_names: Vec<String>) -> (r: Vec<String>)
        ensures
            strs_view(r@) == stable_sort(md_stems(strs_view(file_names@)), str_order()),
    {
        let mut stems: Vec<String> = Vec::new();
        let n = file_names.len();
        for i in 0..n
            invariant
                n == file_names@.len(),
                strs_view(stems@) == md_stems(strs_view(file_names@.take(i as int))),
        {
            let name = chars_of(file_names[i].as_str());
            assert(strs_view(file_names@.take(i + 1)).drop_last() == strs_view(file_names@.take(i as int)));
            assert(strs_view(file_names@.take(i + 1)).last() == file_names@[i as int]@);
            let md: Vec<char> = chars_of(".md");
            if name.len() > 3 && crate::text::ends_with_chars(name.as_slice(), md.as_slice()) {
                let mut stem: Vec<char> = Vec::new();
                let m = name.len() - 3;
                for k in 0..m
                    invariant
                        m == name@.len() - 3,
                        stem@ == name@.take(k as int),
                {
                    stem.push(name[k]);
                    assert(name@.take(k + 1) == name@.take(k as int).push(name@[k as int]));
                }
                let st = string_of(stem.as_slice());
                let ghost before = stems@;
                stems.push(st);
                assert(strs_view(stems@) =~= strs_view(before).push(st@));
            }
        }
        assert(file_names@.take(n as int) == file_names@);
        sort_strings(stems)
    }

    /// The sources, each marked whether its note exists, newest first.
    /// `metas` pairs each readable source's metadata with whether its note
    /// file exists, in `source_ids` order.
    pub fn list_sources(&self, metas: Vec<(SourceMeta, bool)>) -> (r: Vec<SourceMeta>)
        ensures
            r@ == stable_sort(marked(metas@), newer_first()),
    {
        let mut items: Vec<SourceMeta> = Vec::new();
        let mut metas = metas;
        let ghost all = metas@;
        let mut i: usize = 0;
        let n = metas.len();
        assert(all.skip(0) == all);
        while metas.len() > 0
            invariant
                n == all.len(),
                i + metas@.len() == n,
                metas@ == all.skip(i as int),
                items@ == marked(all.take(i as int)),
            decreases metas@.len(),
        {
            let (mut m, has_note) = metas.remove(0);
            assert(all.skip(i as int)[0] == all[i as int]);
            assert(metas@ =~= all.skip(i + 1));
            m.summarized = Some(has_note);
            assert(all.take(i + 1).drop_last() == all.take(i as int));
            assert(all.take(i + 1).last() == all[i as int]);
            items.push(m);
            i = i + 1;
        }
        assert(all.take(n as int) == all);
        sort_sources(items)
    }

    /// The entity summaries, by title. `pages` pairs each readable page with
    /// its slug, in `entity_slugs` order.
    pub fn list_entities(&self, pages: Vec<(String, EntityPage)>) -> (r: Vec<EntitySummary>)
        ensures
            r@ == stable_sort(summaries(pages@), by_title()),
    {
        let mut out: Vec<EntitySummary> = Vec::new();
        let mut pages = pages;
        let ghost all = pages@;
        let mut i: usize = 0;
        let n = pages.len();
        assert(all.skip(0) == all);
        while pages.len() > 0
            invariant
                n == all.len(),
                i + pages@.len() == n,
                pages@ == all.skip(i as int),
                out@ == summaries(all.take(i as int)),
            decreases pages@.len(),
        {
            let (slug, p) = pages.remove(0);
            assert(all.skip(i as int)[0] == all[i as int]);
            assert(pages@ =~= all.skip(i + 1));
            assert(all.take(i + 1).drop_last() == all.take(i as int));
            assert(all.take(i + 1).last() == all[i as int]);
            out.push(
                EntitySummary {
                    slug,
                    title: p.title,
                    kind: p.kind,
                    summary: p.summary,
                    updated: p.updated,
                },
            );
            i = i + 1;
        }
        assert(all.take(n as int) == all);
        sort_summaries(out)
    }

    /// The pages other than `target` that link to it, in listing order.
    pub fn backlinks(&self, target: &str, pages: &Vec<(String, EntityPage)>) -> (r: Vec<String>)
        ensures
            strs_view(r@) == backlinks_spec(pages_view(pages@), target@),
    {
        let mut out: Vec<String> = Vec::new();
        let ghost pv = pages_view(pages@);
        let n = pages.len();
        for i in 0..n
            invariant
                n == pages@.len(),
                pv == pages_view(pages@),
                strs_view(out@) == backlinks_spec(pv.take(i as int), target@),
        {
            let slug = &pages[i].0;
            let p = &pages[i].1;
            assert(pv.take(i + 1).drop_last() == pv.take(i as int));
            assert(pv.take(i + 1).last() == (slug@, p@));
            if !str_eq(slug.as_str(), target) && links_to_exec(p, target) {
                let ghost before = out@;
                out.push(slug.clone());
                assert(strs_view(out@) =~= strs_view(before).push(slug@));
            }
        }
        assert(pv.take(n as int) == pv);
        out
    }

    /// The graph of pages and links.
    pub fn graph(&self, pages: &Vec<(String, EntityPage)>) -> (r: GraphData)
        ensures
            r.nodes@.len() == pages@.len(),
            forall|k: int|
                0 <= k < pages@.len() ==> (#[trigger] r.nodes@[k]).slug@ == pages@[k].0@
                    && r.nodes@[k].title@ == pages@[k].1.title@ && r.nodes@[k].kind@
                    == pages@[k].1.kind@,
            edges_view(r.edges@) == graph_edges(pages_view(pages@)),
    {
        let ghost pv = pages_view(pages@);
        let mut nodes: Vec<GraphNode> = Vec::new();
        let mut edges: Vec<GraphEdge> = Vec::new();
        let mut keys: Vec<Vec<char>> = Vec::new();
        let n = pages.len();
        for i in 0..n
            invariant
                n == pages@.len(),
                pv == pages_view(pages@),
                nodes@.len() == i,
                forall|k: int|
                    0 <= k < i ==> (#[trigger] nodes@[k]).slug@ == pages@[k].0@ && nodes@[k].title@
                        == pages@[k].1.title@ && nodes@[k].kind@ == pages@[k].1.kind@,
                edges_view(edges@) == first_of_each_key(all_pairs(pv.take(i as int))),
                keys@.len() == edges@.len(),
                forall|k: int| 0 <= k < keys@.len() ==> (#[trigger] keys@[k])@ == edge_key(edges_view(edges@)[k]),
        {
            let slug = &pages[i].0;
            let p = &pages[i].1;
            assert(pv.take(i + 1).drop_last() == pv.take(i as int));
            assert(pv.take(i + 1).last() == (slug@, p@));
            nodes.push(GraphNode { slug: slug.clone(), title: p.title.clone(), kind: p.kind.clone() });
            let ghost base = all_pairs(pv.take(i as int));
            let m = p.links.len();
            assert(link_pairs(slug@, p@.links.take(0)) =~= Seq::<(Seq<char>, Seq<char>)>::empty());
            assert(base + link_pairs(slug@, p@.links.take(0)) == base);
            for j in 0..m
                invariant
                    m == p.links@.len(),
                    keys@.len() == edges@.len(),
                    forall|k: int| 0 <= k < keys@.len() ==> (#[trigger] keys@[k])@ == edge_key(edges_view(edges@)[k]),
                    edges_view(edges@) == first_of_each_key(base + link_pairs(slug@, p@.links.take(j as int))),
            {
                let t = &p.links[j].target_slug;
                let (a, b) = if str_less(t.as_str(), slug.as_str()) {
                    (t.clone(), slug.clone())
                } else {
                    (slug.clone(), t.clone())
                };
                let ghost pair = (a@, b@);
                assert(p@.links[j as int].target_slug == t@);
                assert(pair == ordered_pair(slug@, t@));
                assert(p@.links.take(j + 1).drop_last() == p@.links.take(j as int));
                assert(p@.links.take(j + 1).last() == p@.links[j as int]);
                let ghost prev = base + link_pairs(slug@, p@.links.take(j as int));
                assert(base + link_pairs(slug@, p@.links.take(j + 1)) == prev.push(pair));
                assert(prev.push(pair).drop_last() == prev);
                let mut key = chars_of(a.as_str());
                key.push('|');
                extend_str(&mut key, b.as_str());
                assert(key@ == edge_key(pair));
                let mut seen = false;
                let q = keys.len();
                for k in 0..q
                    invariant
                        q == keys@.len(),
                        keys@.len() == edges@.len(),
                        forall|z: int| 0 <= z < keys@.len() ==> (#[trigger] keys@[z])@ == edge_key(edges_view(edges@)[z]),
                        !seen ==> forall|z: int| 0 <= z < k ==> edge_key(#[trigger] edges_view(edges@)[z]) != key@,
                        seen ==> exists|z: int| 0 <= z < edges_view(edges@).len() && edge_key(#[trigger] edges_view(edges@)[z]) == key@,
                {
                    if !seen && crate::text::chars_eq(keys[k].as_slice(), key.as_slice()) {
                        assert(edge_key(edges_view(edges@)[k as int]) == key@);
                        seen = true;
                    }
                }
                if !seen {
                    let ghost ev = edges_view(edges@);
                    keys.push(key);
                    edges.push(GraphEdge { source: a, target: b });
                    assert(edges_view(edges@) =~= ev.push(pair));
                    assert forall|z: int| 0 <= z < keys@.len() implies (#[trigger] keys@[z])@ == edge_key(edges_view(edges@)[z]) by {
                        if z < ev.len() {
                            assert(edges_view(edges@)[z] == ev[z]);
                        }
                    }
                }
            }
            assert(p@.links.take(m as int) == p@.links);
            assert(all_pairs(pv.take(i + 1)) == base + link_pairs(slug@, p@.links));
        }
        assert(pv.take(n as int) == pv);
        let ghost cands = edges_view(edges@);
        let mut kept: Vec<GraphEdge> = Vec::new();
        let e_n = edges.len();
        for k in 0..e_n
            invariant
                e_n == edges@.len(),
                cands == edges_view(edges@),
                edges_view(kept@) == valid_edges(pv, cands.take(k as int)),
                nodes@.len() == n,
                n == pages@.len(),
                pv == pages_view(pages@),
                forall|z: int|
                    0 <= z < n ==> (#[trigger] nodes@[z]).slug@ == pages@[z].0@,
        {
            let e = &edges[k];
            assert(cands.take(k + 1).drop_last() == cands.take(k as int));
            assert(cands.take(k + 1).last() == (e.source@, e.target@));
            let s_ok = is_node_exec(&nodes, e.source.as_str(), Ghost(pv));
            let t_ok = is_node_exec(&nodes, e.target.as_str(), Ghost(pv));
            if s_ok && t_ok {
                let ghost kv = edges_view(kept@);
                kept.push(GraphEdge { source: e.source.clone(), target: e.target.clone() });
                assert(edges_view(kept@) =~= kv.push((e.source@, e.target@)));
            }
        }
        assert(cands.take(e_n as int) == cands);
        GraphData { nodes, edges: kept }
    }
}

pub open spec fn edges_view(e: Seq<GraphEdge>) -> Seq<(Seq<char>, Seq<char>)> {
    e.map_values(|x: GraphEdge| (x.source@, x.target@))
}

fn is_node_exec(nodes: &Vec<GraphNode>, s: &str, pv: Ghost<Seq<(Seq<char>, PageView)>>) -> (r: bool)
    requires
        nodes@.len() == pv@.len(),
        forall|z: int| 0 <= z < nodes@.len() ==> (#[trigger] nodes@[z]).slug@ == pv@[z].0,
    ensures
        r == is_node(pv@, s@),
{
    let n = nodes.len();
    for k in 0..n
        invariant
            n == nodes@.len(),
            nodes@.len() == pv@.len(),
            forall|z: int| 0 <= z < nodes@.len() ==> (#[trigger] nodes@[z]).slug@ == pv@[z].0,
            forall|z: int| 0 <= z < k ==> (#[trigger] pv@[z]).0 != s@,
    {
        if str_eq(nodes[k].slug.as_str(), s) {
            assert(pv@[k as int].0 == s@);
            return true;
        }
    }
    false
}

fn links_to_exec(p: &EntityPage, target: &str) -> (r: bool)
    ensures
        r == page_links_to(p@, target@),
{
    let n = p.links.len();
    for k in 0..n
        invariant
            n == p.links@.len(),
            forall|z: int| 0 <= z < k ==> (#[trigger] p@.links[z]).target_slug != target@,
    {
        if str_eq(p.links[k].target_slug.as_str(), target) {
            assert(p@.links[k as int].target_slug == target@);
            return true;
        }
    }
    false
}

/// The stems of the names that have the extension `md`.
pub open spec fn md_stems(names: Seq<Seq<char>>) -> Seq<Seq<char>>
    decreases names.len(),
{
    if names.len() == 0 {
        seq![]
    } else {
        let rest = md_stems(names.drop_last());
        let n = names.last();
        if n.len() > 3 && crate::text::ends_with(n, ".md"@) {
            rest.push(n.take(n.len() - 3))
        } else {
            rest
        }
    }
}

pub open spec fn str_order() -> spec_fn(Seq<char>, Seq<char>) -> bool {
    |a: Seq<char>, b: Seq<char>| str_lt(a, b)
}

pub open spec fn marked(m: Seq<(SourceMeta, bool)>) -> Seq<SourceMeta>
    decreases m.len(),
{
    if m.len() == 0 {
        seq![]
    } else {
        let (x, b) = m.last();
        marked(m.drop_last()).push(SourceMeta { summarized: Some(b), ..x })
    }
}

pub open spec fn summaries(pages: Seq<(String, EntityPage)>) -> Seq<EntitySummary>
    decreases pages.len(),
{
    if pages.len() == 0 {
        seq![]
    } else {
        let (slug, p) = pages.last();
        summaries(pages.drop_last()).push(
            EntitySummary {
                slug,
                title: p.title,
                kind: p.kind,
                summary: p.summary,
                updated: p.updated,
            },
        )
    }
}

pub fn sort_strings(items: Vec<String>) -> (r: Vec<String>)
    ensures
        strs_view(r@) == stable_sort(strs_view(items@), str_order()),
{
    let mut out: Vec<String> = Vec::new();
    let mut items = items;
    let ghost all = strs_view(items@);
    let mut i: usize = 0;
    let n = items.len();
    assert(all.skip(0) == all);
    while items.len() > 0
        invariant
            n == all.len(),
            i + items@.len() == n,
            strs_view(items@) == all.skip(i as int),
            strs_view(out@) == stable_sort(all.take(i as int), str_order()),
        decreases items@.len(),
    {
        let ghost before_items = items@;
        let x = items.remove(0);
        assert(all.skip(i as int)[0] == all[i as int]);
        assert(strs_view(before_items)[0] == x@);
        assert(strs_view(items@) =~= all.skip(i + 1)) by {
            assert(items@ == before_items.remove(0));
            assert forall|z: int| 0 <= z < items@.len() implies strs_view(items@)[z] == all.skip(i + 1)[z] by {
                assert(items@[z] == before_items[z + 1]);
                assert(strs_view(before_items)[z + 1] == before_items[z + 1]@);
            }
        }
        let mut k: usize = 0;
        let ghost ov = strs_view(out@);
        while k < out.len() && !str_less(x.as_str(), out[k].as_str())
            invariant
                0 <= k <= out@.len(),
                ov == strs_view(out@),
                pos_from(ov, x@, str_order(), 0) == pos_from(ov, x@, str_order(), k as int),
            decreases out@.len() - k,
        {
            assert(ov[k as int] == out@[k as int]@);
            k = k + 1;
        }
        if k < out.len() {
            assert(ov[k as int] == out@[k as int]@);
        }
        proof {
            crate::order::lemma_stable_sort_step(all, str_order(), i as int);
        }
        out.insert(k, x);
        assert(strs_view(out@) =~= ov.insert(k as int, x@));
        i = i + 1;
    }
    assert(all.take(n as int) == all);
    out
}

fn sort_sources(items: Vec<SourceMeta>) -> (r: Vec<SourceMeta>)
    ensures
        r@ == stable_sort(items@, newer_first()),
{
    let mut out: Vec<SourceMeta> = Vec::new();
    let mut items = items;
    let ghost all = items@;
    let mut i: usize = 0;
    let n = items.len();
    assert(all.skip(0) == all);
    while items.len() > 0
        invariant
            n == all.len(),
            i + items@.len() == n,
            items@ == all.skip(i as int),
            out@ == stable_sort(all.take(i as int), newer_first()),
        decreases items@.len(),
    {
        let x = items.remove(0);
        assert(all.skip(i as int)[0] == all[i as int]);
        assert(items@ =~= all.skip(i + 1));
        let mut k: usize = 0;
        while k < out.len() && !str_less(out[k].fetched_at.as_str(), x.fetched_at.as_str())
            invariant
                0 <= k <= out@.len(),
                pos_from(out@, x, newer_first(), 0) == pos_from(out@, x, newer_first(), k as int),
            decreases out@.len() - k,
        {
            k = k + 1;
        }
        proof {
            crate::order::lemma_stable_sort_step(all, newer_first(), i as int);
        }
        out.insert(k, x);
        i = i + 1;
    }
    assert(all.take(n as int) == all);
    out
}

pub fn sort_summaries(items: Vec<EntitySummary>) -> (r: Vec<EntitySummary>)
    ensures
        r@ == stable_sort(items@, by_title()),
{
    let mut out: Vec<EntitySummary> = Vec::new();
    let mut items = items;
    let ghost all = items@;
    let mut i: usize = 0;
    let n = items.len();
    assert(all.skip(0) == all);
    while items.len() > 0
        invariant
            n == all.len(),
            i + items@.len() == n,
            items@ == all.skip(i as int),
            out@ == stable_sort(all.take(i as int), by_title()),
        decreases items@.len(),
    {
        let x = items.remove(0);
        assert(all.skip(i as int)[0] == all[i as int]);
        assert(items@ =~= all.skip(i + 1));
        let mut k: usize = 0;
        while k < out.len() && !str_less(x.title.as_str(), out[k].title.as_str())
            invariant
                0 <= k <= out@.len(),
                pos_from(out@, x, by_title(), 0) == pos_from(out@, x, by_title(), k as int),
            decreases out@.len() - k,
        {
            k = k + 1;
        }
        proof {
            crate::order::lemma_stable_sort_step(all, by_title(), i as int);
        }
        out.insert(k, x);
        i = i + 1;
    }
    assert(all.take(n as int) == all);
    out
}


// ---------------------------------------------------------------------------
// Initialisation and snapshots
// ---------------------------------------------------------------------------

/// `.gitignore` with `rule` as a line: unchanged when some line, trimmed, is
/// the rule; otherwise the rule is appended on a line of its own.
pub open spec fn with_ignore_rule(s: Seq<char>, rule: Seq<char>) -> Seq<char> {
    if exists|i: int| 0 <= i < crate::lines::lines(s).len() && crate::text::trim(
        #[trigger] crate::lines::lines(s)[i],
    ) == rule {
        s
    } else {
        (if s.len() > 0 && s.last() != '\n' {
            s.push('\n')
        } else {
            s
        }) + rule + seq!['\n']
    }
}

/// The vault's `.gitignore`: the existing rules kept, `config.json` and
/// `.index/` added when missing.
pub open spec fn vault_gitignore(existing: Seq<char>) -> Seq<char> {
    with_ignore_rule(with_ignore_rule(existing, "config.json"@), ".index/"@)
}

/// Initialising a vault keeps the `.gitignore` it finds: the rules the
/// user wrote stay, unchanged, at its start.
pub proof fn law_gitignore_keeps_existing(existing: Seq<char>)
    ensures
        existing.len() <= vault_gitignore(existing).len(),
        vault_gitignore(existing).take(existing.len() as int) == existing,
{
    let a = with_ignore_rule(existing, "config.json"@);
    let b = with_ignore_rule(a, ".index/"@);
    assert(existing.len() <= a.len() && a.take(existing.len() as int) == existing);
    assert(a.len() <= b.len() && b.take(a.len() as int) == a);
    assert(b.take(existing.len() as int) == a.take(existing.len() as int));
}

/// Dropping a trailing whitespace character does not change the trimmed
/// text.
proof fn lemma_trim_drop_ws(x: Seq<char>)
    requires
        x.len() > 0,
        crate::text::is_ws(x.last()),
    ensures
        crate::text::trim(x.drop_last()) == crate::text::trim(x),
    decreases x.len(),
{
    let z = x.drop_last();
    if crate::text::is_ws(x[0]) {
        let y = x.drop_first();
        assert(crate::text::trim_start(x) == crate::text::trim_start(y));
        if x.len() > 1 {
            assert(z[0] == x[0]);
            assert(z.drop_first() == y.drop_last());
            assert(crate::text::trim_start(z) == crate::text::trim_start(y.drop_last()));
            assert(y.last() == x.last());
            lemma_trim_drop_ws(y);
        } else {
            assert(y =~= Seq::<char>::empty());
            assert(z =~= Seq::<char>::empty());
            assert(crate::text::trim_start(z) == z);
            assert(crate::text::trim_end(z) == z);
        }
    } else {
        assert(x.len() >= 2);
        assert(z[0] == x[0]);
        assert(crate::text::trim_start(x) == x);
        assert(crate::text::trim_start(z) == z);
        assert(crate::text::trim_end(x) == crate::text::trim_end(z));
    }
}

/// Appending text without a newline extends the last segment.
proof fn lemma_split_nl_extend(x: Seq<char>, y: Seq<char>)
    requires
        forall|i: int| 0 <= i < y.len() ==> y[i] != '\n',
    ensures
        crate::lines::split_nl(x + y) == crate::lines::split_nl(x).update(
            crate::lines::split_nl(x).len() - 1,
            crate::lines::split_nl(x).last() + y,
        ),
    decreases y.len(),
{
    crate::lines::lemma_split_nl_len(x);
    let q = crate::lines::split_nl(x);
    let n = q.len() - 1;
    if y.len() == 0 {
        assert(x + y == x);
        assert(q.last() + y == q.last());
        assert(q.update(n, q.last() + y) =~= q);
    } else {
        let y0 = y.drop_last();
        assert forall|i: int| 0 <= i < y0.len() implies y0[i] != '\n' by {
            assert(y0[i] == y[i]);
        }
        lemma_split_nl_extend(x, y0);
        let c = y[y.len() - 1];
        assert(c != '\n');
        assert((x + y).drop_last() == x + y0);
        assert((x + y).last() == c);
        let p = crate::lines::split_nl(x + y0);
        assert(p == q.update(n, q.last() + y0));
        assert(p.len() == q.len());
        assert(p.last() == q.last() + y0);
        assert(crate::lines::split_nl(x + y) == p.update(p.len() - 1, p.last().push(c)));
        assert((q.last() + y0).push(c) =~= q.last() + y);
        assert(p.update(p.len() - 1, p.last().push(c)) =~= q.update(n, q.last() + y));
    }
}

/// The text that a rule is appended to: empty, or ending with a newline.
proof fn lemma_rule_base(s: Seq<char>)
    ensures
        ({
            let b = if s.len() > 0 && s.last() != '\n' { s.push('\n') } else { s };
            crate::lines::split_nl(b).last() == Seq::<char>::empty()
        }),
{
    if s.len() > 0 && s.last() != '\n' {
        assert(s.push('\n').drop_last() == s);
    } else if s.len() > 0 {
        assert(s == s.drop_last().push('\n'));
        assert(s.drop_last().push('\n').drop_last() == s.drop_last());
    }
}

/// After `with_ignore_rule`, some line of the file, trimmed, is the rule.
proof fn lemma_rule_present(s: Seq<char>, rule: Seq<char>)
    requires
        rule.len() > 0,
        forall|i: int| 0 <= i < rule.len() ==> rule[i] != '\n',
        rule.last() != '\r',
        crate::text::trim(rule) == rule,
    ensures
        exists|i: int|
            0 <= i < crate::lines::lines(with_ignore_rule(s, rule)).len() && crate::text::trim(
                #[trigger] crate::lines::lines(with_ignore_rule(s, rule))[i],
            ) == rule,
{
    let t = with_ignore_rule(s, rule);
    if !(exists|i: int|
        0 <= i < crate::lines::lines(s).len() && crate::text::trim(#[trigger] crate::lines::lines(s)[i]) == rule) {
        let b = if s.len() > 0 && s.last() != '\n' { s.push('\n') } else { s };
        lemma_rule_base(s);
        crate::lines::lemma_split_nl_len(b);
        lemma_split_nl_extend(b, rule);
        let q = crate::lines::split_nl(b);
        assert(q.last() + rule == rule);
        assert(t == (b + rule).push('\n'));
        assert((b + rule).push('\n').drop_last() == b + rule);
        let segs = crate::lines::split_nl(t);
        assert(segs == crate::lines::split_nl(b + rule).push(Seq::<char>::empty()));
        let k = q.len() - 1;
        assert(segs[k] == rule);
        assert(crate::lines::lines(t)[k] == crate::lines::strip_cr(rule));
        assert(crate::text::trim(crate::lines::lines(t)[k]) == rule);
    }
}

/// A rule line already there stays there when another rule is added.
proof fn lemma_rule_kept(a: Seq<char>, rule: Seq<char>, other: Seq<char>)
    requires
        forall|i: int| 0 <= i < other.len() ==> other[i] != '\n',
        exists|i: int|
            0 <= i < crate::lines::lines(a).len() && crate::text::trim(#[trigger] crate::lines::lines(a)[i]) == rule,
    ensures
        exists|i: int|
            0 <= i < crate::lines::lines(with_ignore_rule(a, other)).len() && crate::text::trim(
                #[trigger] crate::lines::lines(with_ignore_rule(a, other))[i],
            ) == rule,
{
    let t = with_ignore_rule(a, other);
    if t != a {
        let i = choose|i: int|
            0 <= i < crate::lines::lines(a).len() && crate::text::trim(#[trigger] crate::lines::lines(a)[i]) == rule;
        let sa = crate::lines::split_nl(a);
        crate::lines::lemma_split_nl_len(a);
        let b = if a.len() > 0 && a.last() != '\n' { a.push('\n') } else { a };
        lemma_rule_base(a);
        lemma_split_nl_extend(b, other);
        let q = crate::lines::split_nl(b);
        crate::lines::lemma_split_nl_len(b);
        assert(t == (b + other).push('\n'));
        assert((b + other).push('\n').drop_last() == b + other);
        let segs = crate::lines::split_nl(t);
        assert(segs == crate::lines::split_nl(b + other).push(Seq::<char>::empty()));
        if a.len() > 0 && a.last() != '\n' {
            assert(a.push('\n').drop_last() == a);
            assert(q == sa.push(Seq::<char>::empty()));
            assert(segs[i] == sa[i]);
            if i < sa.len() - 1 {
                assert(crate::lines::lines(t)[i] == crate::lines::lines(a)[i]);
            } else {
                let x = sa[i];
                assert(crate::lines::lines(a)[i] == x);
                assert(crate::lines::lines(t)[i] == crate::lines::strip_cr(x));
                if x.len() > 0 && x.last() == '\r' {
                    lemma_trim_drop_ws(x);
                }
            }
            assert(crate::text::trim(crate::lines::lines(t)[i]) == rule);
        } else {
            assert(q == sa);
            assert(sa.last().len() == 0);
            assert(i < sa.len() - 1);
            assert(segs[i] == sa[i]);
            assert(crate::lines::lines(t)[i] == crate::lines::lines(a)[i]);
        }
    }
}

/// A vault's `.gitignore` always lists the settings file and the index
/// directory, each on a line of its own.
pub proof fn law_gitignore_lists_rules(existing: Seq<char>)
    ensures
        exists|i: int|
            0 <= i < crate::lines::lines(vault_gitignore(existing)).len() && crate::text::trim(
                #[trigger] crate::lines::lines(vault_gitignore(existing))[i],
            ) == "config.json"@,
        exists|i: int|
            0 <= i < crate::lines::lines(vault_gitignore(existing)).len() && crate::text::trim(
                #[trigger] crate::lines::lines(vault_gitignore(existing))[i],
            ) == ".index/"@,
{
    reveal_strlit("config.json");
    reveal_strlit(".index/");
    let c = "config.json"@;
    let d = ".index/"@;
    assert(crate::text::trim_start(c) == c);
    assert(crate::text::trim_end(c) == c);
    assert(crate::text::trim_start(d) == d);
    assert(crate::text::trim_end(d) == d);
    lemma_rule_present(existing, c);
    let a = with_ignore_rule(existing, c);
    lemma_rule_present(a, d);
    lemma_rule_kept(a, c, d);
    let t = vault_gitignore(existing);
    assert(t == with_ignore_rule(a, d));
    let i = choose|i: int|
        0 <= i < crate::lines::lines(t).len() && crate::text::trim(#[trigger] crate::lines::lines(t)[i]) == c;
    assert(crate::text::trim(crate::lines::lines(t)[i]) == c);
}

/// Initialising a vault again leaves its `.gitignore` as it is.
pub proof fn law_gitignore_idempotent(existing: Seq<char>)
    ensures
        vault_gitignore(vault_gitignore(existing)) == vault_gitignore(existing),
{
    let t = vault_gitignore(existing);
    law_gitignore_lists_rules(existing);
    assert(with_ignore_rule(t, "config.json"@) == t);
    assert(with_ignore_rule(t, ".index/"@) == t);
}

fn add_ignore_rule(s: Vec<char>, rule: &str) -> (r: Vec<char>)
    ensures
        r@ == with_ignore_rule(s@, rule@),
{
    let (_, ls) = crate::lines::split_lines(s.as_slice());
    let ghost lv = ls@.map_values(|v: Vec<char>| v@);
    let rv = chars_of(rule);
    for i in 0..ls.len()
        invariant
            lv == ls@.map_values(|v: Vec<char>| v@),
            lv == crate::lines::lines(s@),
            rv@ == rule@,
            forall|k: int| 0 <= k < i ==> crate::text::trim(#[trigger] lv[k]) != rule@,
    {
        let t = crate::text::trim_chars(ls[i].as_slice());
        if crate::text::chars_eq(t.as_slice(), rv.as_slice()) {
            assert(crate::text::trim(lv[i as int]) == rule@);
            return s;
        }
    }
    let mut out = s;
    let n = out.len();
    if n > 0 && out[n - 1] != '\n' {
        out.push('\n');
    }
    extend_chars(&mut out, rv.as_slice());
    out.push('\n');
    out
}

/// The `.gitignore` a vault is initialised with, from the existing one
/// (empty when there is none).
pub fn gitignore_rules(existing: &str) -> (r: String)
    ensures
        r@ == vault_gitignore(existing@),
{
    let v = chars_of(existing);
    let a = add_ignore_rule(v, "config.json");
    let b = add_ignore_rule(a, ".index/");
    string_of(b.as_slice())
}

/// What lies at a source's snapshot directory.
pub enum Snapshot {
    /// No directory.
    Absent,
    /// A directory without its content or metadata file.
    Incomplete,
    /// A complete snapshot: its content and recorded content hash.
    Present { content: String, content_hash: String },
}

impl Vault {
    /// Whether a source snapshot is to be written: yes where there is none;
    /// no where an identical one is there; an error for an incomplete
    /// snapshot or one that differs (an id collision). Snapshots are never
    /// overwritten.
    pub fn write_raw(&self, meta: &SourceMeta, content: &str, existing: &Snapshot) -> (r: Result<bool, String>)
        ensures
            match existing {
                Snapshot::Absent => r == Ok::<bool, String>(true),
                Snapshot::Incomplete => r matches Err(e) && e@ == "incomplete immutable source snapshot"@,
                Snapshot::Present { content: c, content_hash: h } => if c@ == content@ && h@
                    == meta.content_hash@ {
                    r == Ok::<bool, String>(false)
                } else {
                    r matches Err(e) && e@ == "immutable source id collision"@
                },
            },
    {
        match existing {
            Snapshot::Absent => Ok(true),
            Snapshot::Incomplete => Err("incomplete immutable source snapshot".to_string()),
            Snapshot::Present { content: c, content_hash: h } => {
                if str_eq(c.as_str(), content) && str_eq(h.as_str(), meta.content_hash.as_str()) {
                    Ok(false)
                } else {
                    Err("immutable source id collision".to_string())
                }
            },
        }
    }
}

} // verus!
