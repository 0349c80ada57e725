//! The Markdown form of an entity page: YAML frontmatter, a summary, fact
//! lines with anchors, History, contradictions, related pages, sources and
//! provenance footnotes; and the reading of that form back into a page.
use vstd::prelude::*;
use crate::domain::{
    Contradiction, EntityPage, FactEntry, FactView, HistoryEntry, HistoryView, LinkEntry,
    LinkView, PageView, ProvView, Provenance, strs_view,
};
use crate::lines::{
    digits_end, digits_end_exec, lemma_digits_end, lemma_run_end, lines, run_end, run_end_exec,
    slice_chars, split_lines, split_nl,
};
use crate::text::{
    all_digits, chars_eq, chars_of, extend_chars, extend_str, find_chars, first_occurrence,
    occurs_at, occurs_at_exec, parse_digits_or_zero, parse_usize_or_zero, number_or_zero, number_or_zero_exec, starts_with,
    starts_with_chars, string_of, trim, trim_chars, dec, join, usize_to_chars,
};

verus! {

// ---------------------------------------------------------------------------
// Provenance footnotes
// ---------------------------------------------------------------------------

/// A footnote line `[^p_<id>]: src:<source>@<start>-<end>`: the id, and the
/// provenance with the source trimmed and each number (a run of digits as
/// `\d` matches them) read, 0 when it is not all ASCII or does not fit.
pub open spec fn parse_footnote(seg: Seq<char>) -> Option<(Seq<char>, ProvView)> {
    if !occurs_at(seg, "[^p_"@, 0) {
        None
    } else {
        let e1 = run_end(seg, 4, ']');
        if e1 == 4 || !occurs_at(seg, "]: src:"@, e1) {
            None
        } else {
            let s0 = e1 + 7;
            let e2 = run_end(seg, s0, '@');
            if e2 == s0 || e2 >= seg.len() {
                None
            } else {
                let d0 = e2 + 1;
                let e3 = digits_end(seg, d0);
                if e3 == d0 || e3 >= seg.len() || seg[e3] != '-' {
                    None
                } else {
                    let d1 = e3 + 1;
                    let e4 = digits_end(seg, d1);
                    if e4 == d1 || e4 != seg.len() {
                        None
                    } else {
                        Some(
                            (
                                seg.subrange(4, e1),
                                ProvView {
                                    source_id: trim(seg.subrange(s0, e2)),
                                    start: number_or_zero(seg.subrange(d0, e3)),
                                    end: number_or_zero(seg.subrange(d1, e4)),
                                },
                            ),
                        )
                    }
                }
            }
        }
    }
}

/// The provenance the last footnote for `id` gives, if any.
pub open spec fn prov_lookup(segs: Seq<Seq<char>>, id: Seq<char>) -> Option<ProvView>
    decreases segs.len(),
{
    if segs.len() == 0 {
        None
    } else {
        match parse_footnote(segs.last()) {
            Some((i, p)) => if i == id {
                Some(p)
            } else {
                prov_lookup(segs.drop_last(), id)
            },
            None => prov_lookup(segs.drop_last(), id),
        }
    }
}

fn lit(s: &str) -> (r: Vec<char>)
    ensures
        r@ == s@,
{
    chars_of(s)
}

pub fn parse_footnote_exec(seg: &[char]) -> (r: Option<(Vec<char>, Provenance)>)
    ensures
        match (r, parse_footnote(seg@)) {
            (Some(a), Some(b)) => a.0@ == b.0 && a.1@ == b.1,
            (None, None) => true,
            _ => false,
        },
{
    let _n: usize = seg.len();
    let p = lit("[^p_");
    if !occurs_at_exec(seg, p.as_slice(), 0) {
        return None;
    }
    proof {
        reveal_strlit("[^p_");
    }
    let e1 = run_end_exec(seg, 4, ']');
    let src = lit("]: src:");
    proof {
        reveal_strlit("]: src:");
    }
    if e1 == 4 || !occurs_at_exec(seg, src.as_slice(), e1) {
        return None;
    }
    assert(src@.len() == 7);
    let s0 = e1 + 7;
    let e2 = run_end_exec(seg, s0, '@');
    if e2 == s0 || e2 >= seg.len() {
        return None;
    }
    let d0 = e2 + 1;
    let e3 = digits_end_exec(seg, d0);
    if e3 == d0 || e3 >= seg.len() || seg[e3] != '-' {
        return None;
    }
    let d1 = e3 + 1;
    let e4 = digits_end_exec(seg, d1);
    if e4 == d1 || e4 != seg.len() {
        return None;
    }
    proof {
        lemma_digits_end(seg@, d0 as int);
        lemma_digits_end(seg@, d1 as int);
    }
    let id = slice_chars(seg, 4, e1);
    let source = slice_chars(seg, s0, e2);
    let source = trim_chars(source.as_slice());
    let a = slice_chars(seg, d0, e3);
    let b = slice_chars(seg, d1, e4);
    let start = number_or_zero_exec(a.as_slice());
    let end = number_or_zero_exec(b.as_slice());
    Some((id, Provenance { source_id: string_of(source.as_slice()), start, end }))
}

// ---------------------------------------------------------------------------
// Fact lines
// ---------------------------------------------------------------------------

/// The anchor part ` [^p_<x>] <!--fact:<id>-->` starting at `p`; gives the
/// fact id.
pub open spec fn tail_at(line: Seq<char>, p: int) -> Option<Seq<char>> {
    if !occurs_at(line, " [^p_"@, p) {
        None
    } else {
        let a = p + 5;
        let e1 = run_end(line, a, ']');
        if e1 == a || !occurs_at(line, "] <!--fact:"@, e1) {
            None
        } else {
            let b = e1 + 11;
            let e2 = run_end(line, b, '>');
            if e2 >= line.len() || e2 - b < 3 || line[e2 - 1] != '-' || line[e2 - 2] != '-' {
                None
            } else {
                Some(line.subrange(b, e2 - 2))
            }
        }
    }
}

/// The first position at or after `st` where the anchor part starts.
pub open spec fn first_tail(line: Seq<char>, st: int) -> Option<(int, Seq<char>)>
    decreases line.len() + 1 - st,
{
    if st < 0 || st > line.len() {
        None
    } else {
        match tail_at(line, st) {
            Some(f) => Some((st, f)),
            None => first_tail(line, st + 1),
        }
    }
}

/// The `(superseded <date>) ` prefix after `- `: the date and where the
/// text starts.
pub open spec fn sup_prefix(line: Seq<char>) -> Option<(Seq<char>, int)> {
    if !occurs_at(line, "- (superseded "@, 0) {
        None
    } else {
        let e = run_end(line, 14, ')');
        if e == 14 || !occurs_at(line, ") "@, e) {
            None
        } else {
            Some((line.subrange(14, e), e + 2))
        }
    }
}

/// A fact line: the optional supersession date, the (untrimmed) text and
/// the fact id; the text is the shortest that the anchor part follows, and
/// the date is taken only when such a text exists after it.
pub open spec fn fact_match(line: Seq<char>) -> Option<(Option<Seq<char>>, Seq<char>, Seq<char>)> {
    if !occurs_at(line, "- "@, 0) {
        None
    } else {
        let with_date = match sup_prefix(line) {
            Some((d, st)) => match first_tail(line, st) {
                Some((p, f)) => Some((Some(d), line.subrange(st, p), f)),
                None => None,
            },
            None => None,
        };
        if with_date.is_some() {
            with_date
        } else {
            match first_tail(line, 2) {
                Some((p, f)) => Some((None, line.subrange(2, p), f)),
                None => None,
            }
        }
    }
}

pub proof fn lemma_first_tail(line: Seq<char>, st: int)
    ensures
        match first_tail(line, st) {
            Some((p, f)) => st <= p <= line.len() && tail_at(line, p) == Some(f),
            None => true,
        },
    decreases line.len() + 1 - st,
{
    if 0 <= st <= line.len() && tail_at(line, st).is_none() {
        lemma_first_tail(line, st + 1);
    }
}

fn tail_at_exec(line: &[char], p: usize) -> (r: Option<Vec<char>>)
    requires
        p <= line@.len(),
    ensures
        match (r, tail_at(line@, p as int)) {
            (Some(a), Some(b)) => a@ == b,
            (None, None) => true,
            _ => false,
        },
{
    let _n: usize = line.len();
    let pre = lit(" [^p_");
    proof {
        reveal_strlit(" [^p_");
    }
    if !occurs_at_exec(line, pre.as_slice(), p) {
        return None;
    }
    assert(pre@.len() == 5);
    let a = p + 5;
    let e1 = run_end_exec(line, a, ']');
    let mid = lit("] <!--fact:");
    proof {
        reveal_strlit("] <!--fact:");
    }
    if e1 == a || !occurs_at_exec(line, mid.as_slice(), e1) {
        return None;
    }
    assert(mid@.len() == 11);
    let b = e1 + 11;
    let e2 = run_end_exec(line, b, '>');
    if e2 >= line.len() || e2 - b < 3 || line[e2 - 1] != '-' || line[e2 - 2] != '-' {
        return None;
    }
    Some(slice_chars(line, b, e2 - 2))
}

fn first_tail_exec(line: &[char], st: usize) -> (r: Option<(usize, Vec<char>)>)
    requires
        st <= line@.len(),
    ensures
        match (r, first_tail(line@, st as int)) {
            (Some(a), Some(b)) => a.0 == b.0 && a.1@ == b.1,
            (None, None) => true,
            _ => false,
        },
{
    let mut q: usize = st;
    while q < line.len()
        invariant
            st <= q <= line@.len(),
            first_tail(line@, st as int) == first_tail(line@, q as int),
        decreases line.len() - q,
    {
        match tail_at_exec(line, q) {
            Some(f) => {
                return Some((q, f));
            },
            None => {},
        }
        q = q + 1;
    }
    match tail_at_exec(line, q) {
        Some(f) => Some((q, f)),
        None => {
            assert(first_tail(line@, q + 1) == None::<(int, Seq<char>)>);
            None
        },
    }
}

fn sup_prefix_exec(line: &[char]) -> (r: Option<(Vec<char>, usize)>)
    ensures
        match (r, sup_prefix(line@)) {
            (Some(a), Some(b)) => a.0@ == b.0 && a.1 == b.1 && a.1 <= line@.len(),
            (None, None) => true,
            _ => false,
        },
{
    let _n: usize = line.len();
    let pre = lit("- (superseded ");
    proof {
        reveal_strlit("- (superseded ");
    }
    if !occurs_at_exec(line, pre.as_slice(), 0) {
        return None;
    }
    let e = run_end_exec(line, 14, ')');
    let close = lit(") ");
    proof {
        reveal_strlit(") ");
    }
    if e == 14 || !occurs_at_exec(line, close.as_slice(), e) {
        return None;
    }
    assert(close@.len() == 2);
    Some((slice_chars(line, 14, e), e + 2))
}

/// Reads a fact line.
pub fn fact_match_exec(line: &[char]) -> (r: Option<(Option<Vec<char>>, Vec<char>, Vec<char>)>)
    ensures
        match (r, fact_match(line@)) {
            (Some(a), Some(b)) => a.1@ == b.1 && a.2@ == b.2 && match (a.0, b.0) {
                (Some(x), Some(y)) => x@ == y,
                (None, None) => true,
                _ => false,
            },
            (None, None) => true,
            _ => false,
        },
{
    let dash = lit("- ");
    proof {
        reveal_strlit("- ");
    }
    if !occurs_at_exec(line, dash.as_slice(), 0) {
        return None;
    }
    match sup_prefix_exec(line) {
        Some((d, st)) => {
            match first_tail_exec(line, st) {
                Some((p, f)) => {
                    proof {
                        lemma_first_tail(line@, st as int);
                    }
                    let text = slice_chars(line, st, p);
                    return Some((Some(d), text, f));
                },
                None => {},
            }
        },
        None => {},
    }
    match first_tail_exec(line, 2) {
        Some((p, f)) => {
            proof {
                lemma_first_tail(line@, 2);
            }
            let text = slice_chars(line, 2, p);
            Some((None, text, f))
        },
        None => None,
    }
}

// ---------------------------------------------------------------------------
// Related links
// ---------------------------------------------------------------------------

/// A link `[[<target>]]`, optionally followed by ` (<relation>)`, starting
/// at `s`: where it ends, and the link.
pub open spec fn link_at(line: Seq<char>, s: int) -> Option<(int, LinkView)> {
    if !occurs_at(line, "[["@, s) {
        None
    } else {
        let a = s + 2;
        let e = run_end(line, a, ']');
        if e == a || !occurs_at(line, "]]"@, e) {
            None
        } else {
            let after = e + 2;
            let target = line.subrange(a, e);
            if occurs_at(line, " ("@, after) {
                let b = after + 2;
                let e2 = run_end(line, b, ')');
                if e2 > b && e2 < line.len() {
                    Some((e2 + 1, LinkView { target_slug: target, relation: Some(line.subrange(b, e2)) }))
                } else {
                    Some((after, LinkView { target_slug: target, relation: None }))
                }
            } else {
                Some((after, LinkView { target_slug: target, relation: None }))
            }
        }
    }
}

pub proof fn lemma_link_at(line: Seq<char>, s: int)
    requires
        0 <= s <= line.len(),
    ensures
        match link_at(line, s) {
            Some((end, l)) => s + 4 <= end <= line.len(),
            None => true,
        },
{
    reveal_strlit("[[");
    reveal_strlit("]]");
    reveal_strlit(" (");
    if occurs_at(line, "[["@, s) {
        lemma_run_end(line, s + 2, ']');
        let e = run_end(line, s + 2, ']');
        if occurs_at(line, " ("@, e + 2) {
            lemma_run_end(line, e + 4, ')');
        }
    }
}

/// Every link of a line, leftmost first, each search resuming after the
/// previous link.
pub open spec fn scan_links(line: Seq<char>, pos: int) -> Seq<LinkView>
    decreases line.len() - pos,
{
    if pos < 0 || pos >= line.len() {
        seq![]
    } else {
        match link_at(line, pos) {
            Some((end, l)) => {
                proof {
                    lemma_link_at(line, pos);
                }
                seq![l] + scan_links(line, end)
            },
            None => scan_links(line, pos + 1),
        }
    }
}

fn link_at_exec(line: &[char], s: usize) -> (r: Option<(usize, LinkEntry)>)
    requires
        s <= line@.len(),
    ensures
        match (r, link_at(line@, s as int)) {
            (Some(a), Some(b)) => a.0 == b.0 && a.1@ == b.1,
            (None, None) => true,
            _ => false,
        },
{
    let _n: usize = line.len();
    let open = lit("[[");
    proof {
        reveal_strlit("[[");
    }
    if !occurs_at_exec(line, open.as_slice(), s) {
        return None;
    }
    assert(open@.len() == 2);
    let a = s + 2;
    let e = run_end_exec(line, a, ']');
    let close = lit("]]");
    proof {
        reveal_strlit("]]");
    }
    if e == a || !occurs_at_exec(line, close.as_slice(), e) {
        return None;
    }
    assert(close@.len() == 2);
    let after = e + 2;
    let target = string_of(slice_chars(line, a, e).as_slice());
    let paren = lit(" (");
    proof {
        reveal_strlit(" (");
    }
    if occurs_at_exec(line, paren.as_slice(), after) {
        let b = after + 2;
        let e2 = run_end_exec(line, b, ')');
        if e2 > b && e2 < line.len() {
            let rel = string_of(slice_chars(line, b, e2).as_slice());
            return Some((e2 + 1, LinkEntry { target_slug: target, relation: Some(rel) }));
        }
    }
    Some((after, LinkEntry { target_slug: target, relation: None }))
}

fn scan_links_exec(line: &[char], out: &mut Vec<LinkEntry>)
    ensures
        final(out)@.map_values(|l: LinkEntry| l@) == old(out)@.map_values(|l: LinkEntry| l@)
            + scan_links(line@, 0),
{
    let mut pos: usize = 0;
    let ghost base = out@.map_values(|l: LinkEntry| l@);
    assert(base + scan_links(line@, 0) == base + scan_links(line@, 0));
    let ghost mut acc: Seq<LinkView> = seq![];
    while pos < line.len()
        invariant
            pos <= line@.len(),
            out@.map_values(|l: LinkEntry| l@) == base + acc,
            acc + scan_links(line@, pos as int) == scan_links(line@, 0),
        decreases line.len() - pos,
    {
        match link_at_exec(line, pos) {
            Some((end, l)) => {
                proof {
                    lemma_link_at(line@, pos as int);
                    assert(scan_links(line@, pos as int) == seq![l@] + scan_links(line@, end as int));
                    assert(acc + seq![l@] + scan_links(line@, end as int) == acc + (seq![l@] + scan_links(line@, end as int)));
                    acc = acc.push(l@);
                }
                let ghost before = out@;
                out.push(l);
                assert(out@.map_values(|l: LinkEntry| l@) =~= before.map_values(|l: LinkEntry| l@).push(l@));
                pos = end;
            },
            None => {
                pos = pos + 1;
            },
        }
    }
    assert(scan_links(line@, pos as int) =~= Seq::<LinkView>::empty());
    assert(acc + Seq::<LinkView>::empty() == acc);
}


// ---------------------------------------------------------------------------
// Frontmatter and body
// ---------------------------------------------------------------------------

/// The fields of an entity page that its YAML frontmatter holds.
#[derive(Debug, Clone, PartialEq, Eq)]
pub struct EntityFrontmatter {
    pub slug: String,
    pub title: String,
    pub kind: String,
    pub aliases: Vec<String>,
    pub sources: Vec<String>,
    pub updated: String,
}

pub ghost struct FrontmatterView {
    pub slug: Seq<char>,
    pub title: Seq<char>,
    pub kind: Seq<char>,
    pub aliases: Seq<Seq<char>>,
    pub sources: Seq<Seq<char>>,
    pub updated: Seq<char>,
}

impl View for EntityFrontmatter {
    type V = FrontmatterView;

    open spec fn view(&self) -> FrontmatterView {
        FrontmatterView {
            slug: self.slug@,
            title: self.title@,
            kind: self.kind@,
            aliases: strs_view(self.aliases@),
            sources: strs_view(self.sources@),
            updated: self.updated@,
        }
    }
}

/// A page file cut into its frontmatter text and its Markdown body: the
/// file starts with `---` and a newline, and the frontmatter runs to the
/// first line that is `---`.
pub open spec fn split_page(body: Seq<char>) -> Option<(Seq<char>, Seq<char>)> {
    if !starts_with(body, "---\n"@) {
        None
    } else {
        let rest = body.skip(4);
        match first_occurrence(rest, "\n---\n"@) {
            Some(i) => Some((rest.take(i), rest.skip(i + 5))),
            None => None,
        }
    }
}

/// Cuts a page file into its frontmatter text and its Markdown body.
pub fn split_entity(body: &str) -> (r: Result<(String, String), String>)
    ensures
        match (r, split_page(body@)) {
            (Ok((y, c)), Some((ys, cs))) => y@ == ys && c@ == cs,
            (Err(e), None) => e@ == "invalid entity frontmatter"@,
            _ => false,
        },
{
    let b = chars_of(body);
    let open = lit("---\n");
    proof {
        reveal_strlit("---\n");
        reveal_strlit("\n---\n");
    }
    if !starts_with_chars(b.as_slice(), open.as_slice()) {
        return Err("invalid entity frontmatter".to_string());
    }
    let rest = slice_chars(b.as_slice(), 4, b.len());
    assert(rest@ == body@.skip(4));
    let sep = lit("\n---\n");
    match find_chars(rest.as_slice(), sep.as_slice()) {
        Some(i) => {
            let y = slice_chars(rest.as_slice(), 0, i);
            let c = slice_chars(rest.as_slice(), i + 5, rest.len());
            assert(y@ == rest@.take(i as int));
            assert(c@ == rest@.skip(i + 5));
            Ok((string_of(y.as_slice()), string_of(c.as_slice())))
        },
        None => Err("invalid entity frontmatter".to_string()),
    }
}

/// What reading a page body gathers: the current section and the parts of
/// the page.
pub ghost struct BodyView {
    pub section: Seq<char>,
    pub summary: Seq<char>,
    pub facts: Seq<FactView>,
    pub history: Seq<HistoryView>,
    pub contradictions: Seq<Seq<char>>,
    pub links: Seq<LinkView>,
}

pub open spec fn empty_body() -> BodyView {
    BodyView {
        section: seq![],
        summary: seq![],
        facts: seq![],
        history: seq![],
        contradictions: seq![],
        links: seq![],
    }
}

/// The provenance a fact id is given: its footnote's, or `?@0-0`.
pub open spec fn prov_or_unknown(segs: Seq<Seq<char>>, id: Seq<char>) -> ProvView {
    match prov_lookup(segs, id) {
        Some(p) => p,
        None => ProvView { source_id: "?"@, start: 0, end: 0 },
    }
}

/// Reading one line of the body; `segs` are all segments of the body, in
/// which the footnotes are looked up.
pub open spec fn read_line(b: BodyView, line: Seq<char>, segs: Seq<Seq<char>>) -> BodyView {
    if starts_with(line, "## "@) {
        BodyView {
            section: trim(line.skip(3)),
            summary: b.summary,
            facts: b.facts,
            history: b.history,
            contradictions: b.contradictions,
            links: b.links,
        }
    } else {
        let t = trim(line);
        BodyView {
            section: b.section,
            summary: if b.section == "Summary"@ && b.summary.len() == 0 && t.len() > 0 && t
                != "(pending)"@ {
                t
            } else {
                b.summary
            },
            facts: match fact_match(line) {
                Some((d, text, id)) => if b.section == "Facts"@ {
                    b.facts.push(FactView { id, text: trim(text), prov: prov_or_unknown(segs, id) })
                } else {
                    b.facts
                },
                None => b.facts,
            },
            history: match fact_match(line) {
                Some((d, text, id)) => if b.section == "History"@ {
                    b.history.push(
                        HistoryView {
                            id,
                            text: trim(text),
                            prov: prov_or_unknown(segs, id),
                            superseded_at: match d {
                                Some(x) => x,
                                None => seq![],
                            },
                        },
                    )
                } else {
                    b.history
                },
                None => b.history,
            },
            contradictions: if b.section == "Contradictions"@ && starts_with(line, "- ⚠ "@) {
                b.contradictions.push(line.skip(4))
            } else {
                b.contradictions
            },
            links: if b.section == "Related"@ {
                b.links + scan_links(line, 0)
            } else {
                b.links
            },
        }
    }
}

/// Reading lines one after another, from state `b`.
pub open spec fn read_lines(b: BodyView, ls: Seq<Seq<char>>, segs: Seq<Seq<char>>) -> BodyView
    decreases ls.len(),
{
    if ls.len() == 0 {
        b
    } else {
        read_line(read_lines(b, ls.drop_last(), segs), ls.last(), segs)
    }
}

/// What a whole body reads as.
pub open spec fn read_body(content: Seq<char>) -> BodyView {
    read_lines(empty_body(), lines(content), split_nl(content))
}

/// The page a slug, its frontmatter and its body make.
pub open spec fn page_from(slug: Seq<char>, fm: FrontmatterView, b: BodyView) -> PageView {
    PageView {
        slug,
        title: fm.title,
        kind: fm.kind,
        aliases: fm.aliases,
        sources: fm.sources,
        updated: fm.updated,
        summary: b.summary,
        facts: b.facts,
        history: b.history,
        contradictions: b.contradictions,
        links: b.links,
    }
}

struct BodyAcc {
    section: Vec<char>,
    summary: Vec<char>,
    facts: Vec<FactEntry>,
    history: Vec<HistoryEntry>,
    contradictions: Vec<Contradiction>,
    links: Vec<LinkEntry>,
}

impl View for BodyAcc {
    type V = BodyView;

    closed spec fn view(&self) -> BodyView {
        BodyView {
            section: self.section@,
            summary: self.summary@,
            facts: self.facts@.map_values(|f: FactEntry| f@),
            history: self.history@.map_values(|h: HistoryEntry| h@),
            contradictions: self.contradictions@.map_values(|c: Contradiction| c.note@),
            links: self.links@.map_values(|l: LinkEntry| l@),
        }
    }
}

spec fn note_view(o: Option<(Vec<char>, Provenance)>) -> Option<(Seq<char>, ProvView)> {
    match o {
        Some((i, p)) => Some((i@, p@)),
        None => None,
    }
}

spec fn notes_match(notes: Seq<Option<(Vec<char>, Provenance)>>, segs: Seq<Seq<char>>) -> bool {
    &&& notes.len() == segs.len()
    &&& forall|k: int| 0 <= k < segs.len() ==> note_view(#[trigger] notes[k]) == parse_footnote(segs[k])
}

fn read_notes(segs: &Vec<Vec<char>>) -> (r: Vec<Option<(Vec<char>, Provenance)>>)
    ensures
        notes_match(r@, segs@.map_values(|v: Vec<char>| v@)),
{
    let ghost sv = segs@.map_values(|v: Vec<char>| v@);
    let mut r: Vec<Option<(Vec<char>, Provenance)>> = Vec::new();
    for k in 0..segs.len()
        invariant
            sv == segs@.map_values(|v: Vec<char>| v@),
            r@.len() == k,
            forall|q: int| 0 <= q < k ==> note_view(#[trigger] r@[q]) == parse_footnote(sv[q]),
    {
        let n = parse_footnote_exec(segs[k].as_slice());
        r.push(n);
    }
    r
}

fn clone_prov(p: &Provenance) -> (r: Provenance)
    ensures
        r@ == p@,
{
    Provenance { source_id: p.source_id.clone(), start: p.start, end: p.end }
}

fn lookup_prov(notes: &Vec<Option<(Vec<char>, Provenance)>>, id: &[char], Ghost(segs): Ghost<Seq<Seq<char>>>) -> (r: Provenance)
    requires
        notes_match(notes@, segs),
    ensures
        r@ == prov_or_unknown(segs, id@),
{
    let mut k: usize = notes.len();
    assert(segs.take(k as int) == segs);
    while k > 0
        invariant
            k <= notes@.len(),
            notes_match(notes@, segs),
            prov_lookup(segs, id@) == prov_lookup(segs.take(k as int), id@),
        decreases k,
    {
        let ghost t = segs.take(k as int);
        assert(t.drop_last() == segs.take(k - 1));
        assert(t.last() == segs[k - 1]);
        assert(note_view(notes@[k - 1]) == parse_footnote(segs[k - 1]));
        match &notes[k - 1] {
            Some((i, p)) => {
                if chars_eq(i.as_slice(), id) {
                    return clone_prov(p);
                }
            },
            None => {},
        }
        k = k - 1;
    }
    assert(segs.take(0).len() == 0);
    proof {
        reveal_strlit("?");
    }
    Provenance { source_id: "?".to_string(), start: 0, end: 0 }
}


fn read_line_exec(
    acc: &mut BodyAcc,
    line: &[char],
    notes: &Vec<Option<(Vec<char>, Provenance)>>,
    Ghost(segs): Ghost<Seq<Seq<char>>>,
)
    requires
        notes_match(notes@, segs),
    ensures
        final(acc)@ == read_line(old(acc)@, line@, segs),
{
    let hdr = lit("## ");
    proof {
        reveal_strlit("## ");
        reveal_strlit("- ⚠ ");
    }
    if starts_with_chars(line, hdr.as_slice()) {
        let name = slice_chars(line, 3, line.len());
        acc.section = trim_chars(name.as_slice());
        return;
    }
    let ghost b = acc@;
    let t = trim_chars(line);
    let sum_lit = lit("Summary");
    let pend = lit("(pending)");
    if chars_eq(acc.section.as_slice(), sum_lit.as_slice()) && acc.summary.len() == 0 && t.len()
        > 0 && !chars_eq(t.as_slice(), pend.as_slice()) {
        acc.summary = t;
    }
    match fact_match_exec(line) {
        Some((d, text, id)) => {
            let facts_lit = lit("Facts");
            let hist_lit = lit("History");
            proof {
                reveal_strlit("Facts");
                reveal_strlit("History");
            }
            if chars_eq(acc.section.as_slice(), facts_lit.as_slice()) {
                let p = lookup_prov(notes, id.as_slice(), Ghost(segs));
                let tt = trim_chars(text.as_slice());
                let f = FactEntry { id: string_of(id.as_slice()), text: string_of(tt.as_slice()), prov: p };
                let ghost before = acc.facts@;
                acc.facts.push(f);
                assert(acc.facts@.map_values(|f: FactEntry| f@) =~= before.map_values(|f: FactEntry| f@).push(f@));
            } else if chars_eq(acc.section.as_slice(), hist_lit.as_slice()) {
                let p = lookup_prov(notes, id.as_slice(), Ghost(segs));
                let tt = trim_chars(text.as_slice());
                let date = match d {
                    Some(x) => string_of(x.as_slice()),
                    None => String::new(),
                };
                let h = HistoryEntry {
                    id: string_of(id.as_slice()),
                    text: string_of(tt.as_slice()),
                    prov: p,
                    superseded_at: date,
                };
                let ghost before = acc.history@;
                acc.history.push(h);
                assert(acc.history@.map_values(|h: HistoryEntry| h@) =~= before.map_values(|h: HistoryEntry| h@).push(h@));
            }
        },
        None => {},
    }
    let con = lit("Contradictions");
    let warn = lit("- ⚠ ");
    if chars_eq(acc.section.as_slice(), con.as_slice()) && starts_with_chars(line, warn.as_slice()) {
        let note = slice_chars(line, 4, line.len());
        let c = Contradiction { note: string_of(note.as_slice()) };
        let ghost before = acc.contradictions@;
        acc.contradictions.push(c);
        assert(acc.contradictions@.map_values(|c: Contradiction| c.note@) =~= before.map_values(|c: Contradiction| c.note@).push(c.note@));
    }
    let rel = lit("Related");
    if chars_eq(acc.section.as_slice(), rel.as_slice()) {
        scan_links_exec(line, &mut acc.links);
    }
    let ghost e = read_line(b, line@, segs);
    assert(acc@.section == e.section);
    assert(acc@.summary == e.summary);
    assert(acc@.facts == e.facts);
    assert(acc@.history == e.history);
    assert(acc@.contradictions == e.contradictions);
    assert(acc@.links == e.links);
}

/// Builds a page from its slug, its frontmatter and its Markdown body:
/// the summary is the first other line of the Summary section, the facts
/// and the History entries are the lines of those sections that carry a
/// fact anchor, each with the provenance of its footnote, the
/// contradictions are the `- ⚠` lines of their section and the links are
/// every `[[...]]` of the Related section.
pub fn parse_entity(slug: &str, fm: EntityFrontmatter, content: &str) -> (r: EntityPage)
    ensures
        r@ == page_from(slug@, fm@, read_body(content@)),
{
    let c = chars_of(content);
    let (segs, ls) = split_lines(c.as_slice());
    let notes = read_notes(&segs);
    let ghost sv = segs@.map_values(|v: Vec<char>| v@);
    let ghost lv = ls@.map_values(|v: Vec<char>| v@);
    let mut acc = BodyAcc {
        section: Vec::new(),
        summary: Vec::new(),
        facts: Vec::new(),
        history: Vec::new(),
        contradictions: Vec::new(),
        links: Vec::new(),
    };
    assert(acc.facts@.map_values(|f: FactEntry| f@) =~= Seq::<FactView>::empty());
    assert(acc.history@.map_values(|h: HistoryEntry| h@) =~= Seq::<HistoryView>::empty());
    assert(acc.contradictions@.map_values(|c: Contradiction| c.note@) =~= Seq::<Seq<char>>::empty());
    assert(acc.links@.map_values(|l: LinkEntry| l@) =~= Seq::<LinkView>::empty());
    assert(acc@ == empty_body());
    assert(lv.take(0) =~= Seq::<Seq<char>>::empty());
    let n = ls.len();
    for i in 0..n
        invariant
            n == ls@.len(),
            lv == ls@.map_values(|v: Vec<char>| v@),
            notes_match(notes@, sv),
            acc@ == read_lines(empty_body(), lv.take(i as int), sv),
    {
        read_line_exec(&mut acc, ls[i].as_slice(), &notes, Ghost(sv));
        assert(lv.take(i + 1).drop_last() == lv.take(i as int));
        assert(lv.take(i + 1).last() == ls@[i as int]@);
    }
    assert(lv.take(n as int) == lv);
    EntityPage {
        slug: slug.to_string(),
        title: fm.title,
        kind: fm.kind,
        aliases: fm.aliases,
        sources: fm.sources,
        updated: fm.updated,
        summary: string_of(acc.summary.as_slice()),
        facts: acc.facts,
        history: acc.history,
        contradictions: acc.contradictions,
        links: acc.links,
    }
}


// ---------------------------------------------------------------------------
// Writing a page
// ---------------------------------------------------------------------------

/// A fact line: `- <prefix><text> [^p_<id>] <!--fact:<id>-->`.
pub open spec fn fact_line(id: Seq<char>, prefix: Seq<char>, text: Seq<char>) -> Seq<char> {
    "- "@ + prefix + text + " [^p_"@ + id + "] <!--fact:"@ + id + "-->"@
}

/// The prefix of a History line.
pub open spec fn superseded_prefix(date: Seq<char>) -> Seq<char> {
    "(superseded "@ + date + ") "@
}

/// A provenance footnote: `[^p_<id>]: src:<source>@<start>-<end>`.
pub open spec fn footnote_line(id: Seq<char>, p: ProvView) -> Seq<char> {
    "[^p_"@ + id + "]: src:"@ + p.source_id + "@"@ + dec(p.start) + "-"@ + dec(p.end)
}

/// A related page: `[[<target>]]`, with ` (<relation>)` when there is one.
pub open spec fn link_text(l: LinkView) -> Seq<char> {
    "[["@ + l.target_slug + "]]"@ + match l.relation {
        Some(r) => " ("@ + r + ")"@,
        None => seq![],
    }
}

/// A source reference: `[[<id>]]`.
pub open spec fn source_link(s: Seq<char>) -> Seq<char> {
    "[["@ + s + "]]"@
}

/// Lines, each ended by a newline.
pub open spec fn unlines(ls: Seq<Seq<char>>) -> Seq<char>
    decreases ls.len(),
{
    if ls.len() == 0 {
        seq![]
    } else {
        unlines(ls.drop_last()) + ls.last() + "\n"@
    }
}

pub open spec fn fact_lines(p: PageView) -> Seq<Seq<char>> {
    p.facts.map_values(|f: FactView| fact_line(f.id, seq![], f.text))
}

pub open spec fn history_lines(p: PageView) -> Seq<Seq<char>> {
    p.history.map_values(
        |h: HistoryView| fact_line(h.id, superseded_prefix(h.superseded_at), h.text),
    )
}

/// The footnotes of the facts, then those of the History entries.
pub open spec fn footnotes(p: PageView) -> Seq<Seq<char>> {
    p.facts.map_values(|f: FactView| footnote_line(f.id, f.prov)) + p.history.map_values(
        |h: HistoryView| footnote_line(h.id, h.prov),
    )
}

pub open spec fn summary_block(p: PageView) -> Seq<Seq<char>> {
    seq![
        seq![],
        "## Summary"@,
        if p.summary.len() == 0 {
            "(pending)"@
        } else {
            p.summary
        },
        seq![],
        "## Facts"@,
    ]
}

pub open spec fn facts_block(p: PageView) -> Seq<Seq<char>> {
    fact_lines(p) + if p.facts.len() == 0 {
        seq!["(none)"@]
    } else {
        seq![]
    }
}

pub open spec fn history_block(p: PageView) -> Seq<Seq<char>> {
    if p.history.len() > 0 {
        seq![seq![], "## History"@] + history_lines(p)
    } else {
        seq![]
    }
}

pub open spec fn contradictions_block(p: PageView) -> Seq<Seq<char>> {
    if p.contradictions.len() > 0 {
        seq![seq![], "## Contradictions"@] + p.contradictions.map_values(
            |c: Seq<char>| "- ⚠ "@ + c,
        )
    } else {
        seq![]
    }
}

pub open spec fn related_block(p: PageView) -> Seq<Seq<char>> {
    if p.links.len() > 0 {
        seq![seq![], "## Related"@, join(p.links.map_values(|l: LinkView| link_text(l)), " · "@)]
    } else {
        seq![]
    }
}

pub open spec fn sources_block(p: PageView) -> Seq<Seq<char>> {
    seq![
        seq![],
        "## Sources"@,
        join(p.sources.map_values(|s: Seq<char>| source_link(s)), " · "@),
        seq![],
    ]
}

pub open spec fn footnote_block(p: PageView) -> Seq<Seq<char>> {
    if footnotes(p).len() > 0 {
        footnotes(p)
    } else {
        seq![seq![]]
    }
}

/// The lines of a page body, in order: the summary, the facts, the History,
/// the contradictions, the related pages, the sources and the footnotes.
pub open spec fn page_lines(p: PageView) -> Seq<Seq<char>> {
    summary_block(p) + facts_block(p) + history_block(p) + contradictions_block(p)
        + related_block(p) + sources_block(p) + footnote_block(p)
}

/// The Markdown file of a page whose frontmatter reads `yaml`.
pub open spec fn entity_markdown(p: PageView, yaml: Seq<char>) -> Seq<char> {
    "---\n"@ + yaml + "---\n"@ + unlines(page_lines(p))
}

fn push_line(out: &mut Vec<char>, line: &[char], Ghost(ls): Ghost<Seq<Seq<char>>>, Ghost(head): Ghost<Seq<char>>)
    requires
        old(out)@ == head + unlines(ls),
    ensures
        final(out)@ == head + unlines(ls.push(line@)),
{
    extend_chars(out, line);
    out.push('\n');
    proof {
        reveal_strlit("\n");
        assert(ls.push(line@).drop_last() == ls);
        assert(unlines(ls.push(line@)) == unlines(ls) + line@ + "\n"@);
        assert(out@ == head + unlines(ls.push(line@)));
    }
}

fn fact_line_exec(id: &str, prefix: &[char], text: &str) -> (r: Vec<char>)
    ensures
        r@ == fact_line(id@, prefix@, text@),
{
    let mut v = lit("- ");
    extend_chars(&mut v, prefix);
    extend_str(&mut v, text);
    extend_str(&mut v, " [^p_");
    extend_str(&mut v, id);
    extend_str(&mut v, "] <!--fact:");
    extend_str(&mut v, id);
    extend_str(&mut v, "-->");
    v
}

fn footnote_exec(id: &str, p: &Provenance) -> (r: Vec<char>)
    ensures
        r@ == footnote_line(id@, p@),
{
    let mut v = lit("[^p_");
    extend_str(&mut v, id);
    extend_str(&mut v, "]: src:");
    extend_str(&mut v, p.source_id.as_str());
    extend_str(&mut v, "@");
    let a = usize_to_chars(p.start);
    extend_chars(&mut v, a.as_slice());
    extend_str(&mut v, "-");
    let b = usize_to_chars(p.end);
    extend_chars(&mut v, b.as_slice());
    v
}

fn link_text_exec(l: &LinkEntry) -> (r: Vec<char>)
    ensures
        r@ == link_text(l@),
{
    let mut v = lit("[[");
    extend_str(&mut v, l.target_slug.as_str());
    extend_str(&mut v, "]]");
    match &l.relation {
        Some(r) => {
            extend_str(&mut v, " (");
            extend_str(&mut v, r.as_str());
            extend_str(&mut v, ")");
        },
        None => {
            assert(v@ + Seq::<char>::empty() == v@);
        },
    }
    v
}

fn links_line(links: &Vec<LinkEntry>) -> (r: Vec<char>)
    ensures
        r@ == join(links@.map_values(|l: LinkEntry| l@).map_values(|l: LinkView| link_text(l)), " · "@),
{
    let ghost parts = links@.map_values(|l: LinkEntry| l@).map_values(|l: LinkView| link_text(l));
    let mut v: Vec<char> = Vec::new();
    let n = links.len();
    assert(parts.take(0) =~= Seq::<Seq<char>>::empty());
    for i in 0..n
        invariant
            n == links@.len(),
            parts == links@.map_values(|l: LinkEntry| l@).map_values(|l: LinkView| link_text(l)),
            v@ == join(parts.take(i as int), " · "@),
    {
        let t = link_text_exec(&links[i]);
        assert(parts.take(i + 1).drop_last() == parts.take(i as int));
        assert(parts.take(i + 1).last() == t@);
        if i > 0 {
            extend_str(&mut v, " · ");
        } else {
            assert(parts.take(1) == seq![t@]);
        }
        extend_chars(&mut v, t.as_slice());
    }
    assert(parts.take(n as int) == parts);
    v
}

fn sources_line(sources: &Vec<String>) -> (r: Vec<char>)
    ensures
        r@ == join(strs_view(sources@).map_values(|s: Seq<char>| source_link(s)), " · "@),
{
    let ghost parts = strs_view(sources@).map_values(|s: Seq<char>| source_link(s));
    let mut v: Vec<char> = Vec::new();
    let n = sources.len();
    assert(parts.take(0) =~= Seq::<Seq<char>>::empty());
    for i in 0..n
        invariant
            n == sources@.len(),
            parts == strs_view(sources@).map_values(|s: Seq<char>| source_link(s)),
            v@ == join(parts.take(i as int), " · "@),
    {
        let mut t = lit("[[");
        extend_str(&mut t, sources[i].as_str());
        extend_str(&mut t, "]]");
        assert(parts.take(i + 1).drop_last() == parts.take(i as int));
        assert(parts.take(i + 1).last() == t@);
        if i > 0 {
            extend_str(&mut v, " · ");
        } else {
            assert(parts.take(1) == seq![t@]);
        }
        extend_chars(&mut v, t.as_slice());
    }
    assert(parts.take(n as int) == parts);
    v
}


fn write_fact_lines(out: &mut Vec<char>, p: &EntityPage, Ghost(ls): Ghost<Seq<Seq<char>>>, Ghost(head): Ghost<Seq<char>>)
    requires
        old(out)@ == head + unlines(ls),
    ensures
        final(out)@ == head + unlines(ls + fact_lines(p@)),
{
    let ghost fl = fact_lines(p@);
    let ghost mut cur = ls;
    let empty: Vec<char> = Vec::new();
    assert(ls + fl.take(0) == ls);
    let n = p.facts.len();
    for i in 0..n
        invariant
            n == p.facts@.len(),
            fl == fact_lines(p@),
            empty@ == Seq::<char>::empty(),
            out@ == head + unlines(cur),
            cur == ls + fl.take(i as int),
    {
        let line = fact_line_exec(p.facts[i].id.as_str(), empty.as_slice(), p.facts[i].text.as_str());
        assert(p@.facts[i as int] == p.facts@[i as int]@);
        assert(line@ == fl[i as int]);
        push_line(out, line.as_slice(), Ghost(cur), Ghost(head));
        proof {
            assert(fl.take(i + 1) == fl.take(i as int).push(fl[i as int]));
            assert(ls + fl.take(i + 1) == (ls + fl.take(i as int)).push(line@));
            cur = cur.push(line@);
        }
    }
    assert(fl.take(n as int) == fl);
}

fn write_history_lines(out: &mut Vec<char>, p: &EntityPage, Ghost(ls): Ghost<Seq<Seq<char>>>, Ghost(head): Ghost<Seq<char>>)
    requires
        old(out)@ == head + unlines(ls),
    ensures
        final(out)@ == head + unlines(ls + history_lines(p@)),
{
    let ghost hl = history_lines(p@);
    let ghost mut cur = ls;
    assert(ls + hl.take(0) == ls);
    let n = p.history.len();
    for i in 0..n
        invariant
            n == p.history@.len(),
            hl == history_lines(p@),
            out@ == head + unlines(cur),
            cur == ls + hl.take(i as int),
    {
        let mut pre = lit("(superseded ");
        extend_str(&mut pre, p.history[i].superseded_at.as_str());
        extend_str(&mut pre, ") ");
        let line = fact_line_exec(p.history[i].id.as_str(), pre.as_slice(), p.history[i].text.as_str());
        assert(p@.history[i as int] == p.history@[i as int]@);
        assert(line@ == hl[i as int]);
        push_line(out, line.as_slice(), Ghost(cur), Ghost(head));
        proof {
            assert(hl.take(i + 1) == hl.take(i as int).push(hl[i as int]));
            assert(ls + hl.take(i + 1) == (ls + hl.take(i as int)).push(line@));
            cur = cur.push(line@);
        }
    }
    assert(hl.take(n as int) == hl);
}

fn write_contradiction_lines(out: &mut Vec<char>, p: &EntityPage, Ghost(ls): Ghost<Seq<Seq<char>>>, Ghost(head): Ghost<Seq<char>>)
    requires
        old(out)@ == head + unlines(ls),
    ensures
        final(out)@ == head + unlines(ls + p@.contradictions.map_values(|c: Seq<char>| "- ⚠ "@ + c)),
{
    let ghost cl = p@.contradictions.map_values(|c: Seq<char>| "- ⚠ "@ + c);
    let ghost mut cur = ls;
    assert(ls + cl.take(0) == ls);
    let n = p.contradictions.len();
    for i in 0..n
        invariant
            n == p.contradictions@.len(),
            cl == p@.contradictions.map_values(|c: Seq<char>| "- ⚠ "@ + c),
            out@ == head + unlines(cur),
            cur == ls + cl.take(i as int),
    {
        let mut line = lit("- ⚠ ");
        extend_str(&mut line, p.contradictions[i].note.as_str());
        assert(line@ == cl[i as int]);
        push_line(out, line.as_slice(), Ghost(cur), Ghost(head));
        proof {
            assert(cl.take(i + 1) == cl.take(i as int).push(cl[i as int]));
            assert(ls + cl.take(i + 1) == (ls + cl.take(i as int)).push(line@));
            cur = cur.push(line@);
        }
    }
    assert(cl.take(n as int) == cl);
}

fn write_footnotes(out: &mut Vec<char>, p: &EntityPage, Ghost(ls): Ghost<Seq<Seq<char>>>, Ghost(head): Ghost<Seq<char>>)
    requires
        old(out)@ == head + unlines(ls),
    ensures
        final(out)@ == head + unlines(ls + footnotes(p@)),
{
    let ghost ff = p@.facts.map_values(|f: FactView| footnote_line(f.id, f.prov));
    let ghost hf = p@.history.map_values(|h: HistoryView| footnote_line(h.id, h.prov));
    let ghost mut cur = ls;
    assert(ls + ff.take(0) == ls);
    let nf = p.facts.len();
    for i in 0..nf
        invariant
            nf == p.facts@.len(),
            ff == p@.facts.map_values(|f: FactView| footnote_line(f.id, f.prov)),
            out@ == head + unlines(cur),
            cur == ls + ff.take(i as int),
    {
        let line = footnote_exec(p.facts[i].id.as_str(), &p.facts[i].prov);
        assert(p@.facts[i as int] == p.facts@[i as int]@);
        assert(line@ == ff[i as int]);
        push_line(out, line.as_slice(), Ghost(cur), Ghost(head));
        proof {
            assert(ff.take(i + 1) == ff.take(i as int).push(ff[i as int]));
            assert(ls + ff.take(i + 1) == (ls + ff.take(i as int)).push(line@));
            cur = cur.push(line@);
        }
    }
    assert(ff.take(nf as int) == ff);
    let ghost g2 = cur;
    assert(g2 + hf.take(0) == g2);
    let nh = p.history.len();
    for i in 0..nh
        invariant
            nh == p.history@.len(),
            hf == p@.history.map_values(|h: HistoryView| footnote_line(h.id, h.prov)),
            out@ == head + unlines(cur),
            cur == g2 + hf.take(i as int),
    {
        let line = footnote_exec(p.history[i].id.as_str(), &p.history[i].prov);
        assert(p@.history[i as int] == p.history@[i as int]@);
        assert(line@ == hf[i as int]);
        push_line(out, line.as_slice(), Ghost(cur), Ghost(head));
        proof {
            assert(hf.take(i + 1) == hf.take(i as int).push(hf[i as int]));
            assert(g2 + hf.take(i + 1) == (g2 + hf.take(i as int)).push(line@));
            cur = cur.push(line@);
        }
    }
    assert(hf.take(nh as int) == hf);
    assert(g2 + hf == ls + footnotes(p@));
}

fn write_summary_block(out: &mut Vec<char>, p: &EntityPage, Ghost(ls): Ghost<Seq<Seq<char>>>, Ghost(head): Ghost<Seq<char>>)
    requires
        old(out)@ == head + unlines(ls),
    ensures
        final(out)@ == head + unlines(ls + summary_block(p@)),
{
    let ghost mut cur = ls;
    let empty: Vec<char> = Vec::new();
    push_line(out, empty.as_slice(), Ghost(cur), Ghost(head));
    proof {
        cur = cur.push(seq![]);
    }
    let h = lit("## Summary");
    push_line(out, h.as_slice(), Ghost(cur), Ghost(head));
    proof {
        cur = cur.push(h@);
    }
    let sv = chars_of(p.summary.as_str());
    let summ = if sv.len() == 0 {
        lit("(pending)")
    } else {
        sv
    };
    push_line(out, summ.as_slice(), Ghost(cur), Ghost(head));
    proof {
        cur = cur.push(summ@);
    }
    push_line(out, empty.as_slice(), Ghost(cur), Ghost(head));
    proof {
        cur = cur.push(seq![]);
    }
    let h2 = lit("## Facts");
    push_line(out, h2.as_slice(), Ghost(cur), Ghost(head));
    proof {
        cur = cur.push(h2@);
    }
    assert(cur == ls + summary_block(p@));
}

fn write_facts_block(out: &mut Vec<char>, p: &EntityPage, Ghost(ls): Ghost<Seq<Seq<char>>>, Ghost(head): Ghost<Seq<char>>)
    requires
        old(out)@ == head + unlines(ls),
    ensures
        final(out)@ == head + unlines(ls + facts_block(p@)),
{
    write_fact_lines(out, p, Ghost(ls), Ghost(head));
    let ghost cur = ls + fact_lines(p@);
    if p.facts.len() == 0 {
        let none = lit("(none)");
        push_line(out, none.as_slice(), Ghost(cur), Ghost(head));
        assert(cur.push(none@) == ls + facts_block(p@));
    } else {
        assert(cur == ls + facts_block(p@));
    }
}

fn write_middle_blocks(out: &mut Vec<char>, p: &EntityPage, Ghost(ls): Ghost<Seq<Seq<char>>>, Ghost(head): Ghost<Seq<char>>)
    requires
        old(out)@ == head + unlines(ls),
    ensures
        final(out)@ == head + unlines(ls + history_block(p@) + contradictions_block(p@) + related_block(p@)),
{
    let ghost pv = p@;
    let ghost mut cur = ls;
    let empty: Vec<char> = Vec::new();
    if p.history.len() > 0 {
        push_line(out, empty.as_slice(), Ghost(cur), Ghost(head));
        let h = lit("## History");
        push_line(out, h.as_slice(), Ghost(cur.push(seq![])), Ghost(head));
        write_history_lines(out, p, Ghost(cur.push(seq![]).push(h@)), Ghost(head));
        proof {
            cur = cur.push(seq![]).push(h@) + history_lines(pv);
        }
    }
    assert(cur == ls + history_block(pv));
    let ghost s2 = cur;
    if p.contradictions.len() > 0 {
        push_line(out, empty.as_slice(), Ghost(cur), Ghost(head));
        let h = lit("## Contradictions");
        push_line(out, h.as_slice(), Ghost(cur.push(seq![])), Ghost(head));
        write_contradiction_lines(out, p, Ghost(cur.push(seq![]).push(h@)), Ghost(head));
        proof {
            cur = cur.push(seq![]).push(h@) + pv.contradictions.map_values(|c: Seq<char>| "- ⚠ "@ + c);
        }
    }
    assert(cur == s2 + contradictions_block(pv));
    let ghost s3 = cur;
    if p.links.len() > 0 {
        push_line(out, empty.as_slice(), Ghost(cur), Ghost(head));
        let h = lit("## Related");
        push_line(out, h.as_slice(), Ghost(cur.push(seq![])), Ghost(head));
        let line = links_line(&p.links);
        push_line(out, line.as_slice(), Ghost(cur.push(seq![]).push(h@)), Ghost(head));
        proof {
            cur = cur.push(seq![]).push(h@).push(line@);
        }
    }
    assert(cur == s3 + related_block(pv));
}

fn write_tail_blocks(out: &mut Vec<char>, p: &EntityPage, Ghost(ls): Ghost<Seq<Seq<char>>>, Ghost(head): Ghost<Seq<char>>)
    requires
        old(out)@ == head + unlines(ls),
    ensures
        final(out)@ == head + unlines(ls + sources_block(p@) + footnote_block(p@)),
{
    let ghost pv = p@;
    let ghost mut cur = ls;
    let empty: Vec<char> = Vec::new();
    push_line(out, empty.as_slice(), Ghost(cur), Ghost(head));
    let h = lit("## Sources");
    push_line(out, h.as_slice(), Ghost(cur.push(seq![])), Ghost(head));
    let line = sources_line(&p.sources);
    push_line(out, line.as_slice(), Ghost(cur.push(seq![]).push(h@)), Ghost(head));
    push_line(out, empty.as_slice(), Ghost(cur.push(seq![]).push(h@).push(line@)), Ghost(head));
    proof {
        cur = cur.push(seq![]).push(h@).push(line@).push(seq![]);
    }
    assert(cur == ls + sources_block(pv));
    let ghost s5 = cur;
    write_footnotes(out, p, Ghost(cur), Ghost(head));
    proof {
        cur = cur + footnotes(pv);
    }
    if p.facts.len() == 0 && p.history.len() == 0 {
        push_line(out, empty.as_slice(), Ghost(cur), Ghost(head));
        proof {
            cur = cur.push(seq![]);
        }
    }
    assert(cur == s5 + footnote_block(pv));
}

/// The Markdown file of a page whose frontmatter the YAML text `yaml`
/// holds: the frontmatter between `---` lines, then the summary
/// (`(pending)` when empty), the facts (`(none)` when there are none), the
/// History, contradictions and related pages when there are any, the
/// sources, and one provenance footnote per fact and History entry.
pub fn serialize_entity(p: &EntityPage, yaml: &str) -> (r: String)
    ensures
        r@ == entity_markdown(p@, yaml@),
{
    let ghost pv = p@;
    let mut out = lit("---\n");
    extend_str(&mut out, yaml);
    extend_str(&mut out, "---\n");
    let ghost head = out@;
    let ghost e: Seq<Seq<char>> = seq![];
    assert(out@ == head + unlines(e));
    write_summary_block(&mut out, p, Ghost(e), Ghost(head));
    assert(e + summary_block(pv) == summary_block(pv));
    let ghost s1 = summary_block(pv);
    write_facts_block(&mut out, p, Ghost(s1), Ghost(head));
    let ghost s2 = s1 + facts_block(pv);
    write_middle_blocks(&mut out, p, Ghost(s2), Ghost(head));
    let ghost s3 = s2 + history_block(pv) + contradictions_block(pv) + related_block(pv);
    write_tail_blocks(&mut out, p, Ghost(s3), Ghost(head));
    assert(s3 + sources_block(pv) + footnote_block(pv) == page_lines(pv));
    proof {
        reveal_strlit("---\n");
    }
    string_of(out.as_slice())
}

} // verus!
