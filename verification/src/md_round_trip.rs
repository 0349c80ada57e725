//! Reading back what the page writer wrote: the Markdown form of an entity
//! page gives back the page.
use vstd::prelude::*;
use crate::domain::{FactView, HistoryView, LinkView, PageView, ProvView};
use crate::entity_md::{
    BodyView, empty_body, fact_line, fact_match, first_tail, footnote_line, parse_footnote,
    link_at, link_text, read_line, read_lines, scan_links, sup_prefix, superseded_prefix,
    tail_at, unlines, prov_or_unknown, summary_block, facts_block, history_block,
    contradictions_block, related_block, sources_block, footnote_block, fact_lines,
    history_lines, source_link, footnotes, page_lines, entity_markdown, split_page, page_from,
    prov_lookup, read_body, FrontmatterView,
};
use crate::lines::{digits_end, lemma_run_end, lines, run_end, split_nl, strip_cr};
use crate::text::{
    all_digits, contains, dec, first_occurrence, digits_value, is_digit, lemma_dec_digits, occurs_at,
    join, parse_usize_or_zero, starts_with, trim,
};

verus! {

/// No character of `s` is a newline.
pub open spec fn one_line(s: Seq<char>) -> bool {
    forall|i: int| 0 <= i < s.len() ==> s[i] != '\n'
}

pub proof fn lemma_unlines_append(a: Seq<Seq<char>>, b: Seq<Seq<char>>)
    ensures
        unlines(a + b) == unlines(a) + unlines(b),
    decreases b.len(),
{
    if b.len() == 0 {
        assert(a + b == a);
        assert(unlines(b) == Seq::<char>::empty());
        assert(unlines(a) + Seq::<char>::empty() == unlines(a));
    } else {
        lemma_unlines_append(a, b.drop_last());
        assert((a + b).drop_last() == a + b.drop_last());
        assert((a + b).last() == b.last());
        assert(unlines(a) + (unlines(b.drop_last()) + b.last() + "\n"@) == unlines(a) + unlines(
            b.drop_last(),
        ) + b.last() + "\n"@);
    }
}

/// Appending characters other than newlines extends the last segment.
proof fn lemma_split_nl_plain(s: Seq<char>, t: Seq<char>)
    requires
        one_line(t),
    ensures
        split_nl(s + t) == split_nl(s).update(
            split_nl(s).len() - 1,
            split_nl(s).last() + t,
        ),
    decreases t.len(),
{
    crate::lines::lemma_split_nl_len(s);
    if t.len() == 0 {
        assert(s + t == s);
        assert(split_nl(s).last() + t == split_nl(s).last());
        assert(split_nl(s).update(split_nl(s).len() - 1, split_nl(s).last()) == split_nl(s));
    } else {
        let t0 = t.drop_last();
        lemma_split_nl_plain(s, t0);
        assert((s + t).drop_last() == s + t0);
        assert((s + t).last() == t.last());
        assert(t.last() != '\n');
        crate::lines::lemma_split_nl_len(s + t0);
        let p = split_nl(s + t0);
        assert(split_nl(s + t) == p.update(p.len() - 1, p.last().push(t.last())));
        assert(split_nl(s).last() + t0 + seq![t.last()] == split_nl(s).last() + t);
        assert(t0.push(t.last()) == t);
        assert(p.last() == split_nl(s).last() + t0);
        assert(p.last().push(t.last()) == split_nl(s).last() + t);
    }
}

/// The segments of lines joined by newlines are those lines and an empty
/// last segment.
pub proof fn lemma_split_unlines(ls: Seq<Seq<char>>)
    requires
        forall|k: int| 0 <= k < ls.len() ==> one_line(#[trigger] ls[k]),
    ensures
        split_nl(unlines(ls)) == ls.push(seq![]),
    decreases ls.len(),
{
    if ls.len() == 0 {
        assert(unlines(ls) == Seq::<char>::empty());
    } else {
        let a = ls.drop_last();
        let l = ls.last();
        assert forall|k: int| 0 <= k < a.len() implies one_line(#[trigger] a[k]) by {
            assert(a[k] == ls[k]);
        }
        lemma_split_unlines(a);
        let u = unlines(a);
        assert(one_line(ls[ls.len() - 1]));
        lemma_split_nl_plain(u, l);
        let v = u + l;
        assert(unlines(ls) == v + "\n"@);
        reveal_strlit("\n");
        assert((v + "\n"@).drop_last() == v);
        assert((v + "\n"@).last() == '\n');
        assert(split_nl(v + "\n"@) == split_nl(v).push(seq![]));
        assert(a.push(seq![]).update(a.len() as int, Seq::<char>::empty() + l) == ls);
        assert(Seq::<char>::empty() + l == l);
    }
}

/// Lines without newlines, none ending in a carriage return, joined by
/// newlines read back as themselves.
pub proof fn lemma_lines_unlines(ls: Seq<Seq<char>>)
    requires
        forall|k: int| 0 <= k < ls.len() ==> one_line(#[trigger] ls[k]),
        forall|k: int| 0 <= k < ls.len() ==> strip_cr(#[trigger] ls[k]) == ls[k],
    ensures
        lines(unlines(ls)) == ls,
{
    lemma_split_unlines(ls);
    let segs = split_nl(unlines(ls));
    assert(segs.last().len() == 0);
    let l = lines(unlines(ls));
    assert(l.len() == ls.len());
    assert forall|k: int| 0 <= k < ls.len() implies l[k] == ls[k] by {
        assert(segs[k] == ls[k]);
    }
    assert(l == ls);
}

/// Reading two runs of lines one after the other.
pub proof fn lemma_read_lines_append(
    b: BodyView,
    x: Seq<Seq<char>>,
    y: Seq<Seq<char>>,
    segs: Seq<Seq<char>>,
)
    ensures
        read_lines(b, x + y, segs) == read_lines(read_lines(b, x, segs), y, segs),
    decreases y.len(),
{
    if y.len() == 0 {
        assert(x + y == x);
    } else {
        lemma_read_lines_append(b, x, y.drop_last(), segs);
        assert((x + y).drop_last() == x + y.drop_last());
        assert((x + y).last() == y.last());
    }
}


proof fn lemma_run_end_to(s: Seq<char>, from: int, k: int, c: char)
    requires
        0 <= from <= k <= s.len(),
        forall|j: int| from <= j < k ==> s[j] != c,
        k == s.len() || s[k] == c,
    ensures
        run_end(s, from, c) == k,
    decreases k - from,
{
    if from < k {
        lemma_run_end_to(s, from + 1, k, c);
    }
}

proof fn lemma_digits_end_to(s: Seq<char>, from: int, k: int)
    requires
        0 <= from <= k <= s.len(),
        forall|j: int| from <= j < k ==> is_digit(#[trigger] s[j]),
        k == s.len() || !crate::text::unicode_digit(s[k]),
    ensures
        digits_end(s, from) == k,
    decreases k - from,
{
    if from < k {
        assert(crate::text::unicode_digit(s[from]));
        lemma_digits_end_to(s, from + 1, k);
    }
}

/// No character of `s` is `c`.
pub open spec fn lacks(s: Seq<char>, c: char) -> bool {
    forall|i: int| 0 <= i < s.len() ==> s[i] != c
}

/// A provenance its footnote gives back: a non-empty trimmed source without
/// `@`, and offsets that fit in a `usize`.
pub open spec fn prov_writable(p: ProvView) -> bool {
    &&& p.source_id.len() > 0
    &&& lacks(p.source_id, '@')
    &&& one_line(p.source_id)
    &&& trim(p.source_id) == p.source_id
    &&& p.start <= usize::MAX
    &&& p.end <= usize::MAX
}

/// A fact id its anchors and footnote give back.
pub open spec fn id_writable(id: Seq<char>) -> bool {
    &&& id.len() > 0
    &&& lacks(id, ']')
    &&& lacks(id, '>')
    &&& one_line(id)
}

pub proof fn lemma_footnote_reads_back(id: Seq<char>, p: ProvView)
    requires
        id_writable(id),
        prov_writable(p),
    ensures
        parse_footnote(footnote_line(id, p)) == Some((id, p)),
{
    reveal_strlit("[^p_");
    reveal_strlit("]: src:");
    reveal_strlit("@");
    reveal_strlit("-");
    let a = dec(p.start);
    let b = dec(p.end);
    lemma_dec_digits(p.start);
    lemma_dec_digits(p.end);
    let seg = footnote_line(id, p);
    let e1: int = 4 + id.len() as int;
    let s0: int = e1 + 7;
    let e2: int = s0 + p.source_id.len() as int;
    let d0: int = e2 + 1;
    let e3: int = d0 + a.len() as int;
    let d1: int = e3 + 1;
    assert(seg.len() == d1 + b.len());
    assert(seg.subrange(0, 4) == "[^p_"@);
    assert(seg.subrange(4, e1) == id);
    assert(seg.subrange(e1, s0) == "]: src:"@);
    assert(seg.subrange(s0, e2) == p.source_id);
    assert(seg[e2] == '@');
    assert(seg.subrange(d0, e3) == a);
    assert(seg[e3] == '-');
    assert(seg.subrange(d1, seg.len() as int) == b);
    assert(occurs_at(seg, "[^p_"@, 0));
    assert forall|j: int| 4 <= j < e1 implies seg[j] != ']' by {
        assert(seg[j] == id[j - 4]);
    }
    lemma_run_end_to(seg, 4, e1, ']');
    assert(occurs_at(seg, "]: src:"@, e1));
    assert forall|j: int| s0 <= j < e2 implies seg[j] != '@' by {
        assert(seg[j] == p.source_id[j - s0]);
    }
    lemma_run_end_to(seg, s0, e2, '@');
    assert forall|j: int| d0 <= j < e3 implies is_digit(#[trigger] seg[j]) by {
        assert(seg[j] == a[j - d0]);
    }
    assert(!crate::text::unicode_digit('-'));
    lemma_digits_end_to(seg, d0, e3);
    assert forall|j: int| d1 <= j < seg.len() implies is_digit(#[trigger] seg[j]) by {
        assert(seg[j] == b[j - d1]);
    }
    lemma_digits_end_to(seg, d1, seg.len() as int);
    assert(seg.subrange(d1, seg.len() as int) == b);
    assert(crate::text::number_or_zero(a) == parse_usize_or_zero(a));
    assert(crate::text::number_or_zero(b) == parse_usize_or_zero(b));
}


proof fn lemma_first_tail_at(line: Seq<char>, st: int, q0: int, f: Seq<char>)
    requires
        0 <= st <= q0 <= line.len(),
        forall|q: int| st <= q < q0 ==> tail_at(line, q).is_none(),
        tail_at(line, q0) == Some(f),
    ensures
        first_tail(line, st) == Some((q0, f)),
    decreases q0 - st,
{
    if st < q0 {
        lemma_first_tail_at(line, st + 1, q0, f);
    }
}

/// The anchor that ends a fact line.
pub open spec fn anchor(id: Seq<char>) -> Seq<char> {
    " [^p_"@ + id + "] <!--fact:"@ + id + "-->"@
}

proof fn lemma_concat_at(x: Seq<char>, y: Seq<char>, a: int, b: int)
    requires
        0 <= a <= b <= y.len(),
    ensures
        (x + y).subrange(x.len() + a, x.len() + b) == y.subrange(a, b),
        forall|j: int| a <= j < b ==> (x + y)[x.len() + j] == y[j],
{
    assert((x + y).subrange(x.len() + a, x.len() + b) =~= y.subrange(a, b));
}

#[verifier::spinoff_prover]
#[verifier::rlimit(40)]
proof fn lemma_anchor_at(x: Seq<char>, id: Seq<char>)
    requires
        id_writable(id),
    ensures
        tail_at(x + anchor(id), x.len() as int) == Some(id),
{
    reveal_strlit(" [^p_");
    reveal_strlit("] <!--fact:");
    reveal_strlit("-->");
    let anc = anchor(id);
    let line = x + anc;
    let k = x.len() as int;
    let n = id.len() as int;
    assert(anc.len() == n + n + 19);
    assert(anc.subrange(0, 5) == " [^p_"@);
    assert(anc.subrange(5, 5 + n) == id);
    assert(anc.subrange(5 + n, 16 + n) == "] <!--fact:"@);
    assert(anc.subrange(16 + n, 16 + n + n) == id);
    assert(anc.subrange(16 + n + n, 19 + n + n) == "-->"@);
    lemma_concat_at(x, anc, 0, 5);
    lemma_concat_at(x, anc, 5, 5 + n);
    lemma_concat_at(x, anc, 5 + n, 16 + n);
    lemma_concat_at(x, anc, 16 + n, 16 + n + n);
    lemma_concat_at(x, anc, 16 + n + n, 19 + n + n);
    lemma_concat_at(x, anc, 0, 19 + n + n);
    assert(occurs_at(line, " [^p_"@, k));
    assert forall|j: int| k + 5 <= j < k + 5 + n implies line[j] != ']' by {
        assert(line[j] == anc[j - k]);
        assert(anc[j - k] == anc.subrange(5, 5 + n)[j - k - 5]);
    }
    assert(line[k + 5 + n] == anc[5 + n]);
    assert(anc[5 + n] == ']');
    lemma_run_end_to(line, k + 5, k + 5 + n, ']');
    assert(occurs_at(line, "] <!--fact:"@, k + 5 + n));
    let b = k + 16 + n;
    let e2 = b + n + 2;
    assert forall|j: int| b <= j < e2 implies line[j] != '>' by {
        assert(line[j] == anc[j - k]);
        if j < b + n {
            assert(anc[j - k] == anc.subrange(16 + n, 16 + n + n)[j - k - 16 - n]);
        } else {
            assert(anc[j - k] == anc.subrange(16 + n + n, 19 + n + n)[j - k - 16 - n - n]);
        }
    }
    assert(line[e2] == anc[e2 - k]);
    assert(anc[e2 - k] == anc.subrange(16 + n + n, 19 + n + n)[2]);
    lemma_run_end_to(line, b, e2, '>');
    assert(line[e2 - 1] == anc.subrange(16 + n + n, 19 + n + n)[1]);
    assert(line[e2 - 2] == anc.subrange(16 + n + n, 19 + n + n)[0]);
    assert(line.subrange(b, e2 - 2) == id);
}

proof fn lemma_no_anchor_in_text(x: Seq<char>, text: Seq<char>, y: Seq<char>, q: int)
    requires
        !contains(text, " [^p_"@),
        y.len() > 0,
        y[0] == ' ',
        x.len() <= q < x.len() + text.len(),
    ensures
        !occurs_at(x + text + y, " [^p_"@, q),
{
    reveal_strlit(" [^p_");
    let line = x + text + y;
    let st = x.len() as int;
    let q0 = st + text.len();
    if occurs_at(line, " [^p_"@, q) {
        if q + 5 <= q0 {
            assert(line.subrange(q, q + 5) =~= text.subrange(q - st, q - st + 5));
            assert(occurs_at(text, " [^p_"@, q - st));
        } else {
            assert(line[q0] == ' ');
            assert(line.subrange(q, q + 5)[q0 - q] == line[q0]);
        }
    }
}

/// A text followed by a fact anchor: the anchor is found right after the
/// text, and it gives back the id.
proof fn lemma_anchor_after_text(pre: Seq<char>, text: Seq<char>, id: Seq<char>)
    requires
        id_writable(id),
        !contains(text, " [^p_"@),
    ensures
        first_tail(pre + text + anchor(id), pre.len() as int) == Some(
            (pre.len() + text.len() as int, id),
        ),
{
    reveal_strlit(" [^p_");
    let line = pre + text + anchor(id);
    let st = pre.len() as int;
    let q0 = st + text.len();
    lemma_anchor_at(pre + text, id);
    assert forall|q: int| st <= q < q0 implies tail_at(line, q).is_none() by {
        lemma_no_anchor_in_text(pre, text, anchor(id), q);
    }
    lemma_first_tail_at(line, st, q0, id);
}

/// A fact text that a fact line gives back: one line, trimmed, holding no
/// anchor opening, and not read as a supersession date.
pub open spec fn fact_text_writable(text: Seq<char>) -> bool {
    &&& one_line(text)
    &&& trim(text) == text
    &&& !contains(text, " [^p_"@)
    &&& !starts_with(text + " "@, "(superseded "@)
}

/// A History text that a History line gives back.
pub open spec fn history_text_writable(text: Seq<char>) -> bool {
    &&& one_line(text)
    &&& trim(text) == text
    &&& !contains(text, " [^p_"@)
}

/// A supersession date that a History line gives back.
pub open spec fn date_writable(d: Seq<char>) -> bool {
    &&& d.len() > 0
    &&& lacks(d, ')')
    &&& one_line(d)
}

pub proof fn lemma_fact_line_reads_back(id: Seq<char>, text: Seq<char>)
    requires
        id_writable(id),
        fact_text_writable(text),
    ensures
        fact_match(fact_line(id, seq![], text)) == Some((None::<Seq<char>>, text, id)),
{
    reveal_strlit("- ");
    reveal_strlit("- (superseded ");
    reveal_strlit("(superseded ");
    reveal_strlit(" ");
    reveal_strlit(" [^p_");
    let pre = "- "@;
    let line = fact_line(id, seq![], text);
    assert(line =~= pre + text + anchor(id));
    lemma_anchor_after_text(pre, text, id);
    let m = text.len() as int;
    lemma_concat_at(Seq::<char>::empty(), line, 0, 2);
    assert(line.subrange(0, 2) =~= pre);
    assert(occurs_at(line, "- "@, 0));
    assert(line.subrange(2, 2 + m) =~= text);
    assert(line[2 + m] == ' ');
    if occurs_at(line, "- (superseded "@, 0) {
        let t1 = text + " "@;
        if t1.len() >= 12 {
            assert(t1.subrange(0, 12) =~= line.subrange(2, 14));
            assert(line.subrange(2, 14) =~= "- (superseded "@.subrange(2, 14));
            assert(t1.subrange(0, 12) =~= "(superseded "@);
            assert(starts_with(t1, "(superseded "@));
        } else {
            assert(line[2 + m] == line.subrange(0, 14)[2 + m]);
            assert(line[2 + m] == "- (superseded "@[2 + m]);
        }
    }
    assert(sup_prefix(line).is_none());
}

pub proof fn lemma_history_line_reads_back(id: Seq<char>, d: Seq<char>, text: Seq<char>)
    requires
        id_writable(id),
        date_writable(d),
        history_text_writable(text),
    ensures
        fact_match(fact_line(id, superseded_prefix(d), text)) == Some((Some(d), text, id)),
{
    reveal_strlit("- ");
    reveal_strlit("- (superseded ");
    reveal_strlit("(superseded ");
    reveal_strlit(") ");
    let pre = "- "@ + superseded_prefix(d);
    let line = fact_line(id, superseded_prefix(d), text);
    assert(line =~= pre + text + anchor(id));
    let e = 14 + d.len() as int;
    lemma_anchor_after_text(pre, text, id);
    assert(pre.len() == e + 2);
    assert(pre.subrange(0, 14) =~= "- (superseded "@);
    assert(pre.subrange(14, e) =~= d);
    assert(pre.subrange(e, e + 2) =~= ") "@);
    lemma_concat_at(Seq::<char>::empty(), line, 0, e + 2);
    assert(line.subrange(0, e + 2) =~= pre);
    assert(line.subrange(0, 2) =~= "- "@);
    assert(occurs_at(line, "- "@, 0));
    assert(line.subrange(0, 14) =~= "- (superseded "@);
    assert(line.subrange(14, e) =~= d);
    assert forall|j: int| 14 <= j < e implies line[j] != ')' by {
        assert(line[j] == d[j - 14]);
    }
    assert(line[e] == pre[e]);
    lemma_run_end_to(line, 14, e, ')');
    assert(line.subrange(e, e + 2) =~= ") "@);
    assert(sup_prefix(line) == Some((d, e + 2)));
    assert(line.subrange(e + 2, e + 2 + text.len() as int) =~= text);
}


proof fn lemma_run_end_shift(s: Seq<char>, pos: int, from: int, c: char)
    requires
        0 <= pos <= from,
        pos <= s.len(),
    ensures
        run_end(s, from, c) == pos + run_end(s.skip(pos), from - pos, c),
    decreases s.len() - from,
{
    if from < s.len() {
        assert(s.skip(pos)[from - pos] == s[from]);
        if s[from] != c {
            lemma_run_end_shift(s, pos, from + 1, c);
        }
    }
}

proof fn lemma_occurs_shift(s: Seq<char>, pat: Seq<char>, pos: int, i: int)
    requires
        0 <= pos <= i,
        pos <= s.len(),
    ensures
        occurs_at(s, pat, i) == occurs_at(s.skip(pos), pat, i - pos),
{
    if i + pat.len() <= s.len() {
        assert(s.skip(pos).subrange(i - pos, i - pos + pat.len()) =~= s.subrange(i, i + pat.len()));
    }
}

proof fn lemma_link_at_shift(s: Seq<char>, pos: int)
    requires
        0 <= pos <= s.len(),
    ensures
        link_at(s, pos) == match link_at(s.skip(pos), 0) {
            Some((e, l)) => Some((e + pos, l)),
            None => None,
        },
{
    reveal_strlit("[[");
    reveal_strlit("]]");
    reveal_strlit(" (");
    let t = s.skip(pos);
    lemma_occurs_shift(s, "[["@, pos, pos);
    if occurs_at(s, "[["@, pos) {
        let a = pos + 2;
        lemma_run_end_shift(s, pos, a, ']');
        lemma_run_end(s, a, ']');
        let e = run_end(s, a, ']');
        lemma_occurs_shift(s, "]]"@, pos, e);
        if e != a && occurs_at(s, "]]"@, e) {
            assert(t.subrange(2, e - pos) =~= s.subrange(a, e));
            let after = e + 2;
            lemma_occurs_shift(s, " ("@, pos, after);
            if occurs_at(s, " ("@, after) {
                let b = after + 2;
                lemma_run_end_shift(s, pos, b, ')');
                lemma_run_end(s, b, ')');
                let e2 = run_end(s, b, ')');
                if e2 > b && e2 < s.len() {
                    assert(t.subrange(b - pos, e2 - pos) =~= s.subrange(b, e2));
                }
            }
        }
    }
}

proof fn lemma_scan_shift(s: Seq<char>, pos: int)
    requires
        0 <= pos <= s.len(),
    ensures
        scan_links(s, pos) == scan_links(s.skip(pos), 0),
    decreases s.len() - pos,
{
    let t = s.skip(pos);
    if pos < s.len() {
        lemma_link_at_shift(s, pos);
        crate::entity_md::lemma_link_at(s, pos);
        match link_at(s, pos) {
            Some((end, l)) => {
                lemma_scan_shift(s, end);
                lemma_scan_shift(t, end - pos);
                assert(t.skip(end - pos) =~= s.skip(end));
            },
            None => {
                lemma_scan_shift(s, pos + 1);
                lemma_scan_shift(t, 1);
                assert(t.skip(1) =~= s.skip(pos + 1));
            },
        }
    } else {
        assert(t.len() == 0);
    }
}

/// A related page that its link gives back.
pub open spec fn link_writable(l: LinkView) -> bool {
    &&& l.target_slug.len() > 0
    &&& lacks(l.target_slug, ']')
    &&& one_line(l.target_slug)
    &&& match l.relation {
        Some(r) => r.len() > 0 && lacks(r, ')') && one_line(r),
        None => true,
    }
}

proof fn lemma_concat_prefix(x: Seq<char>, y: Seq<char>, a: int, b: int)
    requires
        0 <= a <= b <= x.len(),
    ensures
        (x + y).subrange(a, b) == x.subrange(a, b),
        forall|j: int| a <= j < b ==> (x + y)[j] == x[j],
{
    assert((x + y).subrange(a, b) =~= x.subrange(a, b));
}

/// The opening `[[<target>]]` of a link, followed by anything.
proof fn lemma_link_head(t: Seq<char>, more: Seq<char>)
    requires
        t.len() > 0,
        lacks(t, ']'),
    ensures
        ({
            let line = "[["@ + t + "]]"@ + more;
            &&& occurs_at(line, "[["@, 0)
            &&& run_end(line, 2, ']') == 2 + t.len()
            &&& occurs_at(line, "]]"@, 2 + t.len() as int)
            &&& line.subrange(2, 2 + t.len() as int) == t
            &&& line.skip(4 + t.len() as int) == more
        }),
{
    reveal_strlit("[[");
    reveal_strlit("]]");
    let n = t.len() as int;
    let head = "[["@ + t + "]]"@;
    let line = head + more;
    assert(head.len() == 4 + n);
    assert(head.subrange(0, 2) =~= "[["@);
    assert(head.subrange(2, 2 + n) =~= t);
    assert(head.subrange(2 + n, 4 + n) =~= "]]"@);
    lemma_concat_prefix(head, more, 0, 2);
    lemma_concat_prefix(head, more, 2, 2 + n);
    lemma_concat_prefix(head, more, 2 + n, 4 + n);
    assert forall|j: int| 2 <= j < 2 + n implies line[j] != ']' by {
        assert(line[j] == head[j]);
        assert(head[j] == head.subrange(2, 2 + n)[j - 2]);
    }
    assert(line[2 + n] == head.subrange(2 + n, 4 + n)[0]);
    lemma_run_end_to(line, 2, 2 + n, ']');
    assert(line.skip(4 + n) =~= more);
}

/// The ` (<relation>)` part of a link, at `k`, followed by anything.
proof fn lemma_link_relation(x: Seq<char>, r: Seq<char>, more: Seq<char>)
    requires
        r.len() > 0,
        lacks(r, ')'),
    ensures
        ({
            let line = x + (" ("@ + r + ")"@ + more);
            let k = x.len() as int;
            &&& occurs_at(line, " ("@, k)
            &&& run_end(line, k + 2, ')') == k + 2 + r.len()
            &&& k + 2 + r.len() < line.len()
            &&& line.subrange(k + 2, k + 2 + r.len() as int) == r
        }),
{
    reveal_strlit(" (");
    reveal_strlit(")");
    let m = r.len() as int;
    let tl = " ("@ + r + ")"@;
    let y = tl + more;
    let line = x + y;
    let k = x.len() as int;
    assert(tl.subrange(0, 2) =~= " ("@);
    assert(tl.subrange(2, 2 + m) =~= r);
    assert(tl[2 + m] == ')');
    lemma_concat_prefix(tl, more, 0, 3 + m);
    lemma_concat_at(x, y, 0, 3 + m);
    assert(line.subrange(k, k + 2) == y.subrange(0, 2));
    assert(y.subrange(0, 2) =~= tl.subrange(0, 2));
    assert(line.subrange(k + 2, k + 2 + m) == y.subrange(2, 2 + m));
    assert(y.subrange(2, 2 + m) =~= tl.subrange(2, 2 + m));
    assert forall|j: int| k + 2 <= j < k + 2 + m implies line[j] != ')' by {
        assert(line[j] == y[j - k]);
        assert(y[j - k] == tl[j - k]);
        assert(tl[j - k] == tl.subrange(2, 2 + m)[j - k - 2]);
    }
    assert(line[k + 2 + m] == y[2 + m]);
    lemma_run_end_to(line, k + 2, k + 2 + m, ')');
}

proof fn lemma_link_text_at(l: LinkView, rest: Seq<char>)
    requires
        link_writable(l),
        !occurs_at(rest, " ("@, 0),
    ensures
        link_at(link_text(l) + rest, 0) == Some((link_text(l).len() as int, l)),
{
    reveal_strlit("[[");
    reveal_strlit("]]");
    reveal_strlit(" (");
    reveal_strlit(")");
    let t = l.target_slug;
    let n = t.len() as int;
    let head = "[["@ + t + "]]"@;
    assert(head.len() == 4 + n);
    match l.relation {
        Some(r) => {
            let m = r.len() as int;
            let more = " ("@ + r + ")"@ + rest;
            let line = head + more;
            assert(link_text(l) + rest =~= line);
            assert(link_text(l).len() == 7 + n + m);
            lemma_link_head(t, more);
            lemma_link_relation(head, r, rest);
            assert(run_end(line, 2, ']') == 2 + n);
            assert(occurs_at(line, "]]"@, 2 + n));
            assert(occurs_at(line, " ("@, 4 + n));
            assert(run_end(line, 6 + n, ')') == 6 + n + m);
            let lv = LinkView { target_slug: line.subrange(2, 2 + n), relation: Some(line.subrange(6 + n, 6 + n + m)) };
            assert(lv == l);
            assert(link_at(line, 0) == Some((7 + n + m, lv)));
        },
        None => {
            let line = head + rest;
            assert(link_text(l) + rest =~= line);
            assert(link_text(l).len() == 4 + n);
            lemma_link_head(t, rest);
            lemma_occurs_shift(line, " ("@, 4 + n, 4 + n);
            assert(!occurs_at(line, " ("@, 4 + n));
            let lv = LinkView { target_slug: line.subrange(2, 2 + n), relation: None };
            assert(lv == l);
            assert(link_at(line, 0) == Some((4 + n, lv)));
        },
    }
}

proof fn lemma_join_front(p: Seq<Seq<char>>, sep: Seq<char>)
    requires
        p.len() >= 2,
    ensures
        join(p, sep) == p[0] + sep + join(p.drop_first(), sep),
    decreases p.len(),
{
    if p.len() == 2 {
        assert(p.drop_last().len() == 1);
        assert(p.drop_first().len() == 1);
        assert(join(p.drop_last(), sep) == p[0]);
        assert(join(p.drop_first(), sep) == p[1]);
    } else {
        lemma_join_front(p.drop_last(), sep);
        assert(p.drop_first().drop_last() =~= p.drop_last().drop_first());
        assert(p.drop_first().last() == p.last());
        assert(join(p.drop_first(), sep) == join(p.drop_first().drop_last(), sep) + sep
            + p.drop_first().last());
        assert(join(p, sep) =~= p[0] + sep + join(p.drop_first(), sep));
    }
}

/// The links of a Related line read back as the links written.
#[verifier::spinoff_prover]
#[verifier::rlimit(40)]
pub proof fn lemma_related_line_reads_back(links: Seq<LinkView>)
    requires
        forall|k: int| 0 <= k < links.len() ==> link_writable(#[trigger] links[k]),
    ensures
        scan_links(join(links.map_values(|l: LinkView| link_text(l)), " · "@), 0) == links,
    decreases links.len(),
{
    reveal_strlit(" · ");
    reveal_strlit(" (");
    reveal_strlit("[[");
    let parts = links.map_values(|l: LinkView| link_text(l));
    let line = join(parts, " · "@);
    if links.len() == 0 {
        assert(line.len() == 0);
    } else if links.len() == 1 {
        assert(line == link_text(links[0]));
        lemma_link_text_at(links[0], Seq::<char>::empty());
        assert(link_text(links[0]) + Seq::<char>::empty() == line);
        crate::entity_md::lemma_link_at(line, 0);
        assert(scan_links(line, line.len() as int) == Seq::<LinkView>::empty());
        assert(scan_links(line, 0) =~= seq![links[0]]);
    } else {
        let rest_links = links.drop_first();
        assert forall|k: int| 0 <= k < rest_links.len() implies link_writable(#[trigger] rest_links[k]) by {
            assert(rest_links[k] == links[k + 1]);
        }
        lemma_related_line_reads_back(rest_links);
        lemma_join_front(parts, " · "@);
        assert(parts.drop_first() =~= rest_links.map_values(|l: LinkView| link_text(l)));
        let j = join(rest_links.map_values(|l: LinkView| link_text(l)), " · "@);
        let rest = " · "@ + j;
        let lt = link_text(links[0]);
        assert(line =~= lt + rest);
        assert(rest[1] == '·');
        assert(!occurs_at(rest, " ("@, 0)) by {
            if occurs_at(rest, " ("@, 0) {
                assert(rest.subrange(0, 2)[1] == rest[1]);
            }
        }
        lemma_link_text_at(links[0], rest);
        crate::entity_md::lemma_link_at(line, 0);
        lemma_scan_shift(line, lt.len() as int);
        assert(line.skip(lt.len() as int) =~= rest);
        assert(rest[0] == ' ' && rest[2] == ' ');
        assert(link_at(rest, 0).is_none()) by {
            if occurs_at(rest, "[["@, 0) {
                assert(rest.subrange(0, 2)[0] == rest[0]);
            }
        }
        assert(link_at(rest, 1).is_none()) by {
            if occurs_at(rest, "[["@, 1) {
                assert(rest.subrange(1, 3)[0] == rest[1]);
            }
        }
        assert(link_at(rest, 2).is_none()) by {
            if occurs_at(rest, "[["@, 2) {
                assert(rest.subrange(2, 4)[0] == rest[2]);
            }
        }
        assert(scan_links(rest, 0) == scan_links(rest, 1));
        assert(scan_links(rest, 1) == scan_links(rest, 2));
        assert(scan_links(rest, 2) == scan_links(rest, 3));
        lemma_scan_shift(rest, 3);
        assert(rest.skip(3) =~= j);
        assert(scan_links(line, 0) == seq![links[0]] + scan_links(line, lt.len() as int));
        assert(seq![links[0]] + rest_links =~= links);
    }
}


/// An empty line changes nothing.
proof fn lemma_read_empty_line(b: BodyView, segs: Seq<Seq<char>>)
    ensures
        read_line(b, seq![], segs) == b,
{
    reveal_strlit("## ");
    reveal_strlit("- ");
    reveal_strlit("- ⚠ ");
    let e = Seq::<char>::empty();
    assert(trim(e).len() == 0);
    assert(fact_match(e).is_none());
    assert(scan_links(e, 0) == Seq::<LinkView>::empty());
    assert(b.links + Seq::<LinkView>::empty() == b.links);
}

/// A heading line `## <name>` enters section `name`.
proof fn lemma_read_heading(b: BodyView, name: Seq<char>, segs: Seq<Seq<char>>)
    requires
        trim(name) == name,
    ensures
        read_line(b, "## "@ + name, segs) == (BodyView { section: name, ..b }),
{
    reveal_strlit("## ");
    let line = "## "@ + name;
    assert(line.subrange(0, 3) =~= "## "@);
    assert(line.skip(3) =~= name);
}

/// Outside the sections that gather anything, a line that is no heading
/// changes nothing.
proof fn lemma_read_inert(b: BodyView, line: Seq<char>, segs: Seq<Seq<char>>)
    requires
        !starts_with(line, "## "@),
        b.section != "Summary"@,
        b.section != "Facts"@,
        b.section != "History"@,
        b.section != "Contradictions"@,
        b.section != "Related"@,
    ensures
        read_line(b, line, segs) == b,
{
}

proof fn lemma_trim_word(w: Seq<char>)
    requires
        w.len() > 0,
        !crate::text::is_ws(w[0]),
        !crate::text::is_ws(w.last()),
    ensures
        trim(w) == w,
{
    assert(crate::text::trim_start(w) == w);
    assert(crate::text::trim_end(w) == w);
}

proof fn lemma_section_names()
    ensures
        trim("Summary"@) == "Summary"@,
        trim("Facts"@) == "Facts"@,
        trim("History"@) == "History"@,
        trim("Contradictions"@) == "Contradictions"@,
        trim("Related"@) == "Related"@,
        trim("Sources"@) == "Sources"@,
        "## Summary"@ == "## "@ + "Summary"@,
        "## Facts"@ == "## "@ + "Facts"@,
        "## History"@ == "## "@ + "History"@,
        "## Contradictions"@ == "## "@ + "Contradictions"@,
        "## Related"@ == "## "@ + "Related"@,
        "## Sources"@ == "## "@ + "Sources"@,
        "Summary"@ != "Facts"@,
        "Summary"@ != "History"@,
        "Summary"@ != "Contradictions"@,
        "Summary"@ != "Related"@,
        "Facts"@ != "History"@,
        "Facts"@ != "Contradictions"@,
        "Facts"@ != "Related"@,
        "History"@ != "Contradictions"@,
        "History"@ != "Related"@,
        "Contradictions"@ != "Related"@,
        "Sources"@ != "Summary"@,
        "Sources"@ != "Facts"@,
        "Sources"@ != "History"@,
        "Sources"@ != "Contradictions"@,
        "Sources"@ != "Related"@,
{
    reveal_strlit("Summary");
    reveal_strlit("Facts");
    reveal_strlit("History");
    reveal_strlit("Contradictions");
    reveal_strlit("Related");
    reveal_strlit("Sources");
    reveal_strlit("## ");
    reveal_strlit("## Summary");
    reveal_strlit("## Facts");
    reveal_strlit("## History");
    reveal_strlit("## Contradictions");
    reveal_strlit("## Related");
    reveal_strlit("## Sources");
    lemma_trim_word("Summary"@);
    lemma_trim_word("Facts"@);
    lemma_trim_word("History"@);
    lemma_trim_word("Contradictions"@);
    lemma_trim_word("Related"@);
    lemma_trim_word("Sources"@);
    assert("## Summary"@ =~= "## "@ + "Summary"@);
    assert("## Facts"@ =~= "## "@ + "Facts"@);
    assert("## History"@ =~= "## "@ + "History"@);
    assert("## Contradictions"@ =~= "## "@ + "Contradictions"@);
    assert("## Related"@ =~= "## "@ + "Related"@);
    assert("## Sources"@ =~= "## "@ + "Sources"@);
    assert("Summary"@[0] != "Facts"@[0]);
    assert("Summary"@[0] != "History"@[0]);
    assert("Summary"@[0] != "Contradictions"@[0]);
    assert("Summary"@[0] != "Related"@[0]);
    assert("Facts"@[0] != "History"@[0]);
    assert("Facts"@[0] != "Contradictions"@[0]);
    assert("Facts"@[0] != "Related"@[0]);
    assert("History"@[0] != "Contradictions"@[0]);
    assert("History"@[0] != "Related"@[0]);
    assert("Contradictions"@[0] != "Related"@[0]);
    assert("Sources"@[1] != "Summary"@[1]);
    assert("Sources"@[0] != "Facts"@[0]);
    assert("Sources"@[0] != "History"@[0]);
    assert("Sources"@[0] != "Contradictions"@[0]);
    assert("Sources"@[0] != "Related"@[0]);
}


/// A fact that its fact line and its footnote give back.
pub open spec fn fact_writable(f: FactView) -> bool {
    &&& id_writable(f.id)
    &&& fact_text_writable(f.text)
    &&& prov_writable(f.prov)
}

/// A History entry that its line and its footnote give back.
pub open spec fn history_writable(h: HistoryView) -> bool {
    &&& id_writable(h.id)
    &&& history_text_writable(h.text)
    &&& date_writable(h.superseded_at)
    &&& prov_writable(h.prov)
}

proof fn lemma_not_heading(line: Seq<char>)
    requires
        line.len() > 0,
        line[0] != '#',
    ensures
        !starts_with(line, "## "@),
{
    reveal_strlit("## ");
    if starts_with(line, "## "@) {
        assert(line.subrange(0, 3)[0] == line[0]);
    }
}

proof fn lemma_read_fact_lines(b: BodyView, facts: Seq<FactView>, segs: Seq<Seq<char>>)
    requires
        b.section == "Facts"@,
        forall|k: int| 0 <= k < facts.len() ==> fact_writable(#[trigger] facts[k]),
        forall|k: int|
            0 <= k < facts.len() ==> prov_or_unknown(segs, (#[trigger] facts[k]).id)
                == facts[k].prov,
    ensures
        read_lines(b, facts.map_values(|f: FactView| fact_line(f.id, seq![], f.text)), segs)
            == (BodyView { facts: b.facts + facts, ..b }),
    decreases facts.len(),
{
    let ls = facts.map_values(|f: FactView| fact_line(f.id, seq![], f.text));
    if facts.len() == 0 {
        assert(ls.len() == 0);
        assert(b.facts + facts =~= b.facts);
    } else {
        let init = facts.drop_last();
        assert forall|k: int| 0 <= k < init.len() implies fact_writable(#[trigger] init[k]) by {
            assert(init[k] == facts[k]);
        }
        assert forall|k: int| 0 <= k < init.len() implies prov_or_unknown(segs, (#[trigger] init[k]).id)
            == init[k].prov by {
            assert(init[k] == facts[k]);
        }
        lemma_read_fact_lines(b, init, segs);
        assert(ls.drop_last() =~= init.map_values(|f: FactView| fact_line(f.id, seq![], f.text)));
        let f = facts.last();
        assert(fact_writable(facts[facts.len() - 1]));
        assert(prov_or_unknown(segs, facts[facts.len() - 1].id) == facts[facts.len() - 1].prov);
        let mid = BodyView { facts: b.facts + init, ..b };
        let line = fact_line(f.id, seq![], f.text);
        assert(ls.last() == line);
        lemma_fact_line_reads_back(f.id, f.text);
        reveal_strlit("- ");
        assert(line[0] == '-');
        lemma_not_heading(line);
        lemma_section_names();
        assert(read_line(mid, line, segs).facts == mid.facts.push(f));
        assert(b.facts + facts =~= (b.facts + init).push(f));
    }
}

proof fn lemma_read_history_lines(b: BodyView, hs: Seq<HistoryView>, segs: Seq<Seq<char>>)
    requires
        b.section == "History"@,
        forall|k: int| 0 <= k < hs.len() ==> history_writable(#[trigger] hs[k]),
        forall|k: int|
            0 <= k < hs.len() ==> prov_or_unknown(segs, (#[trigger] hs[k]).id) == hs[k].prov,
    ensures
        read_lines(
            b,
            hs.map_values(
                |h: HistoryView| fact_line(h.id, superseded_prefix(h.superseded_at), h.text),
            ),
            segs,
        ) == (BodyView { history: b.history + hs, ..b }),
    decreases hs.len(),
{
    let ls = hs.map_values(
        |h: HistoryView| fact_line(h.id, superseded_prefix(h.superseded_at), h.text),
    );
    if hs.len() == 0 {
        assert(ls.len() == 0);
        assert(b.history + hs =~= b.history);
    } else {
        let init = hs.drop_last();
        assert forall|k: int| 0 <= k < init.len() implies history_writable(#[trigger] init[k]) by {
            assert(init[k] == hs[k]);
        }
        assert forall|k: int| 0 <= k < init.len() implies prov_or_unknown(segs, (#[trigger] init[k]).id)
            == init[k].prov by {
            assert(init[k] == hs[k]);
        }
        lemma_read_history_lines(b, init, segs);
        assert(ls.drop_last() =~= init.map_values(
            |h: HistoryView| fact_line(h.id, superseded_prefix(h.superseded_at), h.text),
        ));
        let h = hs.last();
        assert(history_writable(hs[hs.len() - 1]));
        assert(prov_or_unknown(segs, hs[hs.len() - 1].id) == hs[hs.len() - 1].prov);
        let mid = BodyView { history: b.history + init, ..b };
        let line = fact_line(h.id, superseded_prefix(h.superseded_at), h.text);
        assert(ls.last() == line);
        lemma_history_line_reads_back(h.id, h.superseded_at, h.text);
        reveal_strlit("- ");
        assert(line[0] == '-');
        lemma_not_heading(line);
        lemma_section_names();
        assert(read_line(mid, line, segs).history == mid.history.push(h));
        assert(b.history + hs =~= (b.history + init).push(h));
    }
}

/// A contradiction note that its line gives back.
pub open spec fn note_writable(c: Seq<char>) -> bool {
    &&& one_line(c)
    &&& (c.len() == 0 || c.last() != '\r')
}

proof fn lemma_read_contradiction_lines(b: BodyView, cs: Seq<Seq<char>>, segs: Seq<Seq<char>>)
    requires
        b.section == "Contradictions"@,
    ensures
        read_lines(b, cs.map_values(|c: Seq<char>| "- ⚠ "@ + c), segs) == (BodyView {
            contradictions: b.contradictions + cs,
            ..b
        }),
    decreases cs.len(),
{
    let ls = cs.map_values(|c: Seq<char>| "- ⚠ "@ + c);
    if cs.len() == 0 {
        assert(ls.len() == 0);
        assert(b.contradictions + cs =~= b.contradictions);
    } else {
        let init = cs.drop_last();
        lemma_read_contradiction_lines(b, init, segs);
        assert(ls.drop_last() =~= init.map_values(|c: Seq<char>| "- ⚠ "@ + c));
        let c = cs.last();
        let mid = BodyView { contradictions: b.contradictions + init, ..b };
        let line = "- ⚠ "@ + c;
        assert(ls.last() == line);
        reveal_strlit("- ⚠ ");
        assert(line[0] == '-');
        lemma_not_heading(line);
        lemma_section_names();
        assert(line.subrange(0, 4) =~= "- ⚠ "@);
        assert(line.skip(4) =~= c);
        assert(read_line(mid, line, segs).contradictions == mid.contradictions.push(c));
        assert(b.contradictions + cs =~= (b.contradictions + init).push(c));
    }
}


proof fn lemma_read_lines_push(b: BodyView, ls: Seq<Seq<char>>, l: Seq<char>, segs: Seq<Seq<char>>)
    ensures
        read_lines(b, ls.push(l), segs) == read_line(read_lines(b, ls, segs), l, segs),
{
    assert(ls.push(l).drop_last() == ls);
}

proof fn lemma_join_first(p: Seq<Seq<char>>, sep: Seq<char>)
    requires
        p.len() > 0,
        p[0].len() > 0,
    ensures
        join(p, sep).len() > 0,
        join(p, sep)[0] == p[0][0],
    decreases p.len(),
{
    if p.len() > 1 {
        let q = p.drop_last();
        assert(q[0] == p[0]);
        lemma_join_first(q, sep);
    }
}

/// A summary that its line gives back: one trimmed line that is no heading
/// and not the placeholder.
pub open spec fn summary_writable(s: Seq<char>) -> bool {
    &&& one_line(s)
    &&& trim(s) == s
    &&& s != "(pending)"@
    &&& !starts_with(s, "## "@)
}

proof fn lemma_read_summary_block(p: PageView, segs: Seq<Seq<char>>)
    requires
        summary_writable(p.summary),
    ensures
        read_lines(empty_body(), summary_block(p), segs) == (BodyView {
            section: "Facts"@,
            summary: p.summary,
            ..empty_body()
        }),
{
    lemma_section_names();
    reveal_strlit("(pending)");
    reveal_strlit("## ");
    let e = Seq::<char>::empty();
    let st = if p.summary.len() == 0 {
        "(pending)"@
    } else {
        p.summary
    };
    let blk = summary_block(p);
    assert(blk =~= seq![e].push("## Summary"@).push(st).push(e).push("## Facts"@));
    let b0 = empty_body();
    assert(seq![e] =~= Seq::<Seq<char>>::empty().push(e));
    lemma_read_lines_push(b0, Seq::<Seq<char>>::empty(), e, segs);
    lemma_read_empty_line(b0, segs);
    let l1 = seq![e];
    lemma_read_lines_push(b0, l1, "## Summary"@, segs);
    lemma_read_heading(b0, "Summary"@, segs);
    let b2 = BodyView { section: "Summary"@, ..b0 };
    let l2 = l1.push("## Summary"@);
    lemma_read_lines_push(b0, l2, st, segs);
    if p.summary.len() == 0 {
        assert(st[0] == '(');
        lemma_not_heading(st);
        assert(trim(st) == st) by {
            lemma_trim_word(st);
        }
    }
    assert(!starts_with(st, "## "@));
    let b3 = BodyView { summary: p.summary, ..b2 };
    assert(trim(st) == st);
    let r = read_line(b2, st, segs);
    assert(r.section == b3.section);
    assert(r.summary == b3.summary);
    assert(r.facts == b3.facts);
    assert(r.history == b3.history);
    assert(r.contradictions == b3.contradictions);
    assert(r.links == b3.links);
    assert(r == b3);
    let l3 = l2.push(st);
    lemma_read_lines_push(b0, l3, e, segs);
    lemma_read_empty_line(b3, segs);
    let l4 = l3.push(e);
    lemma_read_lines_push(b0, l4, "## Facts"@, segs);
    lemma_read_heading(b3, "Facts"@, segs);
}

proof fn lemma_read_facts_block(b: BodyView, p: PageView, segs: Seq<Seq<char>>)
    requires
        b.section == "Facts"@,
        forall|k: int| 0 <= k < p.facts.len() ==> fact_writable(#[trigger] p.facts[k]),
        forall|k: int|
            0 <= k < p.facts.len() ==> prov_or_unknown(segs, (#[trigger] p.facts[k]).id)
                == p.facts[k].prov,
    ensures
        read_lines(b, facts_block(p), segs) == (BodyView { facts: b.facts + p.facts, ..b }),
{
    lemma_read_fact_lines(b, p.facts, segs);
    let mid = BodyView { facts: b.facts + p.facts, ..b };
    if p.facts.len() == 0 {
        reveal_strlit("(none)");
        reveal_strlit("- ");
        lemma_section_names();
        let none = "(none)"@;
        lemma_read_lines_push(b, fact_lines(p), none, segs);
        assert(facts_block(p) == fact_lines(p).push(none));
        assert(none[0] == '(');
        lemma_not_heading(none);
        if occurs_at(none, "- "@, 0) {
            assert(none.subrange(0, 2)[0] == none[0]);
        }
        assert(fact_match(none).is_none());
        assert(read_line(mid, none, segs) == mid);
    } else {
        assert(facts_block(p) =~= fact_lines(p));
    }
}

proof fn lemma_read_history_block(b: BodyView, p: PageView, segs: Seq<Seq<char>>)
    requires
        forall|k: int| 0 <= k < p.history.len() ==> history_writable(#[trigger] p.history[k]),
        forall|k: int|
            0 <= k < p.history.len() ==> prov_or_unknown(segs, (#[trigger] p.history[k]).id)
                == p.history[k].prov,
    ensures
        read_lines(b, history_block(p), segs) == (if p.history.len() > 0 {
            BodyView { section: "History"@, history: b.history + p.history, ..b }
        } else {
            b
        }),
{
    if p.history.len() > 0 {
        lemma_section_names();
        let e = Seq::<char>::empty();
        let hd = seq![e, "## History"@];
        assert(hd =~= Seq::<Seq<char>>::empty().push(e).push("## History"@));
        lemma_read_lines_push(b, Seq::<Seq<char>>::empty(), e, segs);
        lemma_read_empty_line(b, segs);
        lemma_read_lines_push(b, seq![e], "## History"@, segs);
        assert(seq![e] =~= Seq::<Seq<char>>::empty().push(e));
        lemma_read_heading(b, "History"@, segs);
        let b2 = BodyView { section: "History"@, ..b };
        assert(read_lines(b, hd, segs) == b2);
        lemma_read_lines_append(b, hd, history_lines(p), segs);
        lemma_read_history_lines(b2, p.history, segs);
    } else {
        assert(history_block(p).len() == 0);
    }
}

proof fn lemma_read_contradictions_block(b: BodyView, p: PageView, segs: Seq<Seq<char>>)
    ensures
        read_lines(b, contradictions_block(p), segs) == (if p.contradictions.len() > 0 {
            BodyView {
                section: "Contradictions"@,
                contradictions: b.contradictions + p.contradictions,
                ..b
            }
        } else {
            b
        }),
{
    if p.contradictions.len() > 0 {
        lemma_section_names();
        let e = Seq::<char>::empty();
        let hd = seq![e, "## Contradictions"@];
        assert(hd =~= Seq::<Seq<char>>::empty().push(e).push("## Contradictions"@));
        lemma_read_lines_push(b, Seq::<Seq<char>>::empty(), e, segs);
        lemma_read_empty_line(b, segs);
        lemma_read_lines_push(b, seq![e], "## Contradictions"@, segs);
        assert(seq![e] =~= Seq::<Seq<char>>::empty().push(e));
        lemma_read_heading(b, "Contradictions"@, segs);
        let b2 = BodyView { section: "Contradictions"@, ..b };
        assert(read_lines(b, hd, segs) == b2);
        lemma_read_lines_append(
            b,
            hd,
            p.contradictions.map_values(|c: Seq<char>| "- ⚠ "@ + c),
            segs,
        );
        lemma_read_contradiction_lines(b2, p.contradictions, segs);
    } else {
        assert(contradictions_block(p).len() == 0);
    }
}

proof fn lemma_read_related_block(b: BodyView, p: PageView, segs: Seq<Seq<char>>)
    requires
        forall|k: int| 0 <= k < p.links.len() ==> link_writable(#[trigger] p.links[k]),
    ensures
        read_lines(b, related_block(p), segs) == (if p.links.len() > 0 {
            BodyView { section: "Related"@, links: b.links + p.links, ..b }
        } else {
            b
        }),
{
    if p.links.len() > 0 {
        lemma_section_names();
        reveal_strlit("[[");
        let e = Seq::<char>::empty();
        let parts = p.links.map_values(|l: LinkView| link_text(l));
        let line = join(parts, " · "@);
        assert(related_block(p) =~= Seq::<Seq<char>>::empty().push(e).push("## Related"@).push(
            line,
        ));
        lemma_read_lines_push(b, Seq::<Seq<char>>::empty(), e, segs);
        lemma_read_empty_line(b, segs);
        assert(seq![e] =~= Seq::<Seq<char>>::empty().push(e));
        lemma_read_lines_push(b, seq![e], "## Related"@, segs);
        lemma_read_heading(b, "Related"@, segs);
        let b2 = BodyView { section: "Related"@, ..b };
        lemma_read_lines_push(b, seq![e, "## Related"@], line, segs);
        assert(seq![e, "## Related"@] =~= seq![e].push("## Related"@));
        assert(parts[0] == link_text(p.links[0]));
        assert(parts[0][0] == '[');
        lemma_join_first(parts, " · "@);
        lemma_not_heading(line);
        lemma_related_line_reads_back(p.links);
        assert(read_line(b2, line, segs) == BodyView { links: b.links + p.links, ..b2 });
    } else {
        assert(related_block(p).len() == 0);
    }
}

proof fn lemma_read_inert_lines(b: BodyView, ls: Seq<Seq<char>>, segs: Seq<Seq<char>>)
    requires
        b.section == "Sources"@,
        forall|k: int| 0 <= k < ls.len() ==> !starts_with(#[trigger] ls[k], "## "@),
    ensures
        read_lines(b, ls, segs) == b,
    decreases ls.len(),
{
    lemma_section_names();
    if ls.len() > 0 {
        let init = ls.drop_last();
        assert forall|k: int| 0 <= k < init.len() implies !starts_with(#[trigger] init[k], "## "@) by {
            assert(init[k] == ls[k]);
        }
        lemma_read_inert_lines(b, init, segs);
        assert(!starts_with(ls[ls.len() - 1], "## "@));
        lemma_read_inert(b, ls.last(), segs);
    }
}

proof fn lemma_read_tail_blocks(b: BodyView, p: PageView, segs: Seq<Seq<char>>)
    ensures
        read_lines(b, sources_block(p) + footnote_block(p), segs) == (BodyView {
            section: "Sources"@,
            ..b
        }),
{
    lemma_section_names();
    reveal_strlit("[[");
    reveal_strlit("[^p_");
    let e = Seq::<char>::empty();
    let parts = p.sources.map_values(|s: Seq<char>| source_link(s));
    let line = join(parts, " · "@);
    assert(sources_block(p) =~= seq![e].push("## Sources"@).push(line).push(e));
    assert(seq![e] =~= Seq::<Seq<char>>::empty().push(e));
    lemma_read_lines_push(b, Seq::<Seq<char>>::empty(), e, segs);
    lemma_read_empty_line(b, segs);
    lemma_read_lines_push(b, seq![e], "## Sources"@, segs);
    lemma_read_heading(b, "Sources"@, segs);
    let b2 = BodyView { section: "Sources"@, ..b };
    if parts.len() > 0 {
        assert(parts[0] == source_link(p.sources[0]));
        assert(parts[0][0] == '[');
        lemma_join_first(parts, " · "@);
        lemma_not_heading(line);
    } else {
        assert(line.len() == 0);
        reveal_strlit("## ");
    }
    lemma_read_lines_push(b, seq![e].push("## Sources"@), line, segs);
    lemma_read_inert(b2, line, segs);
    lemma_read_lines_push(b, seq![e].push("## Sources"@).push(line), e, segs);
    lemma_read_empty_line(b2, segs);
    assert(read_lines(b, sources_block(p), segs) == b2);
    lemma_read_lines_append(b, sources_block(p), footnote_block(p), segs);
    let fb = footnote_block(p);
    assert forall|k: int| 0 <= k < fb.len() implies !starts_with(#[trigger] fb[k], "## "@) by {
        reveal_strlit("## ");
        if footnotes(p).len() > 0 {
            let ff = p.facts.map_values(|f: FactView| footnote_line(f.id, f.prov));
            let hf = p.history.map_values(|h: HistoryView| footnote_line(h.id, h.prov));
            assert(fb == ff + hf);
            if k < ff.len() {
                assert(fb[k] == footnote_line(p.facts[k].id, p.facts[k].prov));
            } else {
                assert(fb[k] == footnote_line(p.history[k - ff.len()].id, p.history[k - ff.len()].prov));
            }
            assert(fb[k][0] == '[');
            lemma_not_heading(fb[k]);
        } else {
            assert(fb[k].len() == 0);
        }
    }
    lemma_read_inert_lines(b2, fb, segs);
}


// ---------------------------------------------------------------------------
// The lines of a written page
// ---------------------------------------------------------------------------

/// A line that `str::lines` gives back as it is.
pub open spec fn line_ok(l: Seq<char>) -> bool {
    &&& one_line(l)
    &&& (l.len() == 0 || l.last() != '\r')
}

proof fn lemma_one_line_concat(a: Seq<char>, b: Seq<char>)
    requires
        one_line(a),
        one_line(b),
    ensures
        one_line(a + b),
{
    assert forall|i: int| 0 <= i < (a + b).len() implies (a + b)[i] != '\n' by {
        if i < a.len() {
            assert((a + b)[i] == a[i]);
        } else {
            assert((a + b)[i] == b[i - a.len()]);
        }
    }
}

proof fn lemma_join_one_line(p: Seq<Seq<char>>, sep: Seq<char>)
    requires
        forall|k: int| 0 <= k < p.len() ==> one_line(#[trigger] p[k]),
        one_line(sep),
    ensures
        one_line(join(p, sep)),
        p.len() > 0 && p.last().len() > 0 ==> join(p, sep).len() > 0 && join(p, sep).last()
            == p.last().last(),
    decreases p.len(),
{
    if p.len() == 1 {
        assert(one_line(p[0]));
    } else if p.len() > 1 {
        let q = p.drop_last();
        assert forall|k: int| 0 <= k < q.len() implies one_line(#[trigger] q[k]) by {
            assert(q[k] == p[k]);
        }
        lemma_join_one_line(q, sep);
        assert(one_line(p[p.len() - 1]));
        lemma_one_line_concat(join(q, sep), sep);
        lemma_one_line_concat(join(q, sep) + sep, p.last());
    }
}

proof fn lemma_trim_start_len(s: Seq<char>)
    ensures
        crate::text::trim_start(s).len() <= s.len(),
        crate::text::trim_start(s).len() == s.len() ==> crate::text::trim_start(s) == s,
    decreases s.len(),
{
    if s.len() > 0 && crate::text::is_ws(s[0]) {
        lemma_trim_start_len(s.drop_first());
    }
}

proof fn lemma_trim_end_len(s: Seq<char>)
    ensures
        crate::text::trim_end(s).len() <= s.len(),
    decreases s.len(),
{
    if s.len() > 0 && crate::text::is_ws(s.last()) {
        lemma_trim_end_len(s.drop_last());
    }
}

proof fn lemma_trimmed_last(s: Seq<char>)
    requires
        trim(s) == s,
        s.len() > 0,
    ensures
        !crate::text::is_ws(s.last()),
{
    let u = crate::text::trim_start(s);
    lemma_trim_start_len(s);
    lemma_trim_end_len(u);
    assert(u == s);
    if crate::text::is_ws(s.last()) {
        lemma_trim_end_len(s.drop_last());
    }
}

proof fn lemma_dec_one_line(n: nat)
    ensures
        one_line(dec(n)),
        dec(n).len() > 0,
        is_digit(dec(n).last()),
{
    lemma_dec_digits(n);
    let d = dec(n);
    assert forall|i: int| 0 <= i < d.len() implies d[i] != '\n' by {
        assert(is_digit(d[i]));
    }
    assert(is_digit(d[d.len() - 1]));
}

proof fn lemma_fact_line_ok(id: Seq<char>, prefix: Seq<char>, text: Seq<char>)
    requires
        one_line(id),
        one_line(prefix),
        one_line(text),
    ensures
        line_ok(fact_line(id, prefix, text)),
{
    reveal_strlit("- ");
    reveal_strlit(" [^p_");
    reveal_strlit("] <!--fact:");
    reveal_strlit("-->");
    let a = "- "@;
    lemma_one_line_concat(a, prefix);
    lemma_one_line_concat(a + prefix, text);
    lemma_one_line_concat(a + prefix + text, " [^p_"@);
    lemma_one_line_concat(a + prefix + text + " [^p_"@, id);
    lemma_one_line_concat(a + prefix + text + " [^p_"@ + id, "] <!--fact:"@);
    lemma_one_line_concat(a + prefix + text + " [^p_"@ + id + "] <!--fact:"@, id);
    lemma_one_line_concat(a + prefix + text + " [^p_"@ + id + "] <!--fact:"@ + id, "-->"@);
    assert(fact_line(id, prefix, text).last() == '>');
}

proof fn lemma_footnote_ok(id: Seq<char>, p: ProvView)
    requires
        one_line(id),
        one_line(p.source_id),
    ensures
        line_ok(footnote_line(id, p)),
{
    reveal_strlit("[^p_");
    reveal_strlit("]: src:");
    reveal_strlit("@");
    reveal_strlit("-");
    lemma_dec_one_line(p.start);
    lemma_dec_one_line(p.end);
    let a = "[^p_"@;
    lemma_one_line_concat(a, id);
    lemma_one_line_concat(a + id, "]: src:"@);
    lemma_one_line_concat(a + id + "]: src:"@, p.source_id);
    lemma_one_line_concat(a + id + "]: src:"@ + p.source_id, "@"@);
    lemma_one_line_concat(a + id + "]: src:"@ + p.source_id + "@"@, dec(p.start));
    lemma_one_line_concat(a + id + "]: src:"@ + p.source_id + "@"@ + dec(p.start), "-"@);
    lemma_one_line_concat(a + id + "]: src:"@ + p.source_id + "@"@ + dec(p.start) + "-"@, dec(p.end));
    let l = footnote_line(id, p);
    assert(l.last() == dec(p.end).last());
    assert(is_digit(l.last()));
}

proof fn lemma_link_text_ok(l: LinkView)
    requires
        link_writable(l),
    ensures
        one_line(link_text(l)),
        link_text(l).len() > 0,
        link_text(l)[0] == '[',
        link_text(l).last() == ']' || link_text(l).last() == ')',
{
    reveal_strlit("[[");
    reveal_strlit("]]");
    reveal_strlit(" (");
    reveal_strlit(")");
    let h = "[["@ + l.target_slug + "]]"@;
    lemma_one_line_concat("[["@, l.target_slug);
    lemma_one_line_concat("[["@ + l.target_slug, "]]"@);
    match l.relation {
        Some(r) => {
            lemma_one_line_concat(" ("@, r);
            lemma_one_line_concat(" ("@ + r, ")"@);
            lemma_one_line_concat(h, " ("@ + r + ")"@);
        },
        None => {
            assert(h + Seq::<char>::empty() == h);
        },
    }
}

proof fn lemma_source_link_ok(s: Seq<char>)
    requires
        one_line(s),
    ensures
        one_line(source_link(s)),
        source_link(s).len() > 0,
        source_link(s)[0] == '[',
        source_link(s).last() == ']',
{
    reveal_strlit("[[");
    reveal_strlit("]]");
    lemma_one_line_concat("[["@, s);
    lemma_one_line_concat("[["@ + s, "]]"@);
}


pub open spec fn all_ok(ls: Seq<Seq<char>>) -> bool {
    forall|k: int| 0 <= k < ls.len() ==> line_ok(#[trigger] ls[k])
}

proof fn lemma_all_ok_concat(a: Seq<Seq<char>>, b: Seq<Seq<char>>)
    requires
        all_ok(a),
        all_ok(b),
    ensures
        all_ok(a + b),
{
    assert forall|k: int| 0 <= k < (a + b).len() implies line_ok(#[trigger] (a + b)[k]) by {
        if k < a.len() {
            assert((a + b)[k] == a[k]);
        } else {
            assert((a + b)[k] == b[k - a.len()]);
        }
    }
}

proof fn lemma_literal_ok(s: Seq<char>)
    requires
        forall|i: int| 0 <= i < s.len() ==> s[i] != '\n' && s[i] != '\r',
    ensures
        line_ok(s),
{
    if s.len() > 0 {
        assert(s[s.len() - 1] != '\r');
    }
}

/// The ids of the facts, then of the History entries.
pub open spec fn all_ids(p: PageView) -> Seq<Seq<char>> {
    p.facts.map_values(|f: FactView| f.id) + p.history.map_values(|h: HistoryView| h.id)
}

/// The provenances of the facts, then of the History entries.
pub open spec fn all_provs(p: PageView) -> Seq<ProvView> {
    p.facts.map_values(|f: FactView| f.prov) + p.history.map_values(|h: HistoryView| h.prov)
}

/// A page that its Markdown form gives back: every part fits on its line
/// and reads back as written, and no two facts or History entries share an
/// id.
pub open spec fn page_writable(p: PageView) -> bool {
    &&& summary_writable(p.summary)
    &&& forall|k: int| 0 <= k < p.facts.len() ==> fact_writable(#[trigger] p.facts[k])
    &&& forall|k: int| 0 <= k < p.history.len() ==> history_writable(#[trigger] p.history[k])
    &&& forall|i: int, j: int|
        0 <= i < j < all_ids(p).len() ==> #[trigger] all_ids(p)[i] != #[trigger] all_ids(p)[j]
    &&& forall|k: int| 0 <= k < p.contradictions.len() ==> note_writable(#[trigger] p.contradictions[k])
    &&& forall|k: int| 0 <= k < p.links.len() ==> link_writable(#[trigger] p.links[k])
    &&& forall|k: int| 0 <= k < p.sources.len() ==> one_line(#[trigger] p.sources[k])
}

proof fn lemma_headings_ok()
    ensures
        line_ok("## Summary"@),
        line_ok("## Facts"@),
        line_ok("## History"@),
        line_ok("## Contradictions"@),
        line_ok("## Related"@),
        line_ok("## Sources"@),
        line_ok("(pending)"@),
        line_ok("(none)"@),
        line_ok(Seq::<char>::empty()),
        one_line(" · "@),
        one_line("- ⚠ "@),
{
    reveal_strlit("## Summary");
    reveal_strlit("## Facts");
    reveal_strlit("## History");
    reveal_strlit("## Contradictions");
    reveal_strlit("## Related");
    reveal_strlit("## Sources");
    reveal_strlit("(pending)");
    reveal_strlit("(none)");
    reveal_strlit(" · ");
    reveal_strlit("- ⚠ ");
    lemma_literal_ok("## Summary"@);
    lemma_literal_ok("## Facts"@);
    lemma_literal_ok("## History"@);
    lemma_literal_ok("## Contradictions"@);
    lemma_literal_ok("## Related"@);
    lemma_literal_ok("## Sources"@);
    lemma_literal_ok("(pending)"@);
    lemma_literal_ok("(none)"@);
}

proof fn lemma_page_lines_ok(p: PageView)
    requires
        page_writable(p),
    ensures
        all_ok(page_lines(p)),
{
    lemma_headings_ok();
    let e = Seq::<char>::empty();
    let st = if p.summary.len() == 0 {
        "(pending)"@
    } else {
        p.summary
    };
    if p.summary.len() > 0 {
        lemma_trimmed_last(p.summary);
    }
    assert(line_ok(st));
    let a = summary_block(p);
    assert(all_ok(a));
    let fl = fact_lines(p);
    assert forall|k: int| 0 <= k < fl.len() implies line_ok(#[trigger] fl[k]) by {
        let f = p.facts[k];
        assert(fact_writable(f));
        assert(one_line(Seq::<char>::empty()));
        lemma_fact_line_ok(f.id, seq![], f.text);
    }
    let b = facts_block(p);
    lemma_all_ok_concat(fl, if p.facts.len() == 0 { seq!["(none)"@] } else { seq![] });
    let hl = history_lines(p);
    assert forall|k: int| 0 <= k < hl.len() implies line_ok(#[trigger] hl[k]) by {
        let h = p.history[k];
        assert(history_writable(h));
        reveal_strlit("(superseded ");
        reveal_strlit(") ");
        lemma_literal_ok("(superseded "@);
        lemma_literal_ok(") "@);
        lemma_one_line_concat("(superseded "@, h.superseded_at);
        lemma_one_line_concat("(superseded "@ + h.superseded_at, ") "@);
        lemma_fact_line_ok(h.id, superseded_prefix(h.superseded_at), h.text);
    }
    let c = history_block(p);
    if p.history.len() > 0 {
        lemma_all_ok_concat(seq![e, "## History"@], hl);
    }
    let cl = p.contradictions.map_values(|c: Seq<char>| "- ⚠ "@ + c);
    assert forall|k: int| 0 <= k < cl.len() implies line_ok(#[trigger] cl[k]) by {
        let n = p.contradictions[k];
        assert(note_writable(n));
        lemma_one_line_concat("- ⚠ "@, n);
        reveal_strlit("- ⚠ ");
        if n.len() > 0 {
            assert(cl[k].last() == n.last());
        } else {
            assert(cl[k].last() == ' ');
        }
    }
    let d = contradictions_block(p);
    if p.contradictions.len() > 0 {
        lemma_all_ok_concat(seq![e, "## Contradictions"@], cl);
    }
    let parts = p.links.map_values(|l: LinkView| link_text(l));
    assert forall|k: int| 0 <= k < parts.len() implies one_line(#[trigger] parts[k]) by {
        lemma_link_text_ok(p.links[k]);
    }
    lemma_join_one_line(parts, " · "@);
    if p.links.len() > 0 {
        lemma_link_text_ok(p.links[p.links.len() - 1]);
        assert(parts.last() == link_text(p.links[p.links.len() - 1]));
    }
    let ee = related_block(p);
    assert(all_ok(ee));
    let sp = p.sources.map_values(|s: Seq<char>| source_link(s));
    assert forall|k: int| 0 <= k < sp.len() implies one_line(#[trigger] sp[k]) by {
        lemma_source_link_ok(p.sources[k]);
    }
    lemma_join_one_line(sp, " · "@);
    if p.sources.len() > 0 {
        lemma_source_link_ok(p.sources[p.sources.len() - 1]);
        assert(sp.last() == source_link(p.sources[p.sources.len() - 1]));
    }
    let f = sources_block(p);
    assert(all_ok(f));
    let fb = footnote_block(p);
    assert forall|k: int| 0 <= k < fb.len() implies line_ok(#[trigger] fb[k]) by {
        if footnotes(p).len() > 0 {
            let ff = p.facts.map_values(|f: FactView| footnote_line(f.id, f.prov));
            if k < ff.len() {
                assert(fact_writable(p.facts[k]));
                assert(fb[k] == footnote_line(p.facts[k].id, p.facts[k].prov));
                lemma_footnote_ok(p.facts[k].id, p.facts[k].prov);
            } else {
                let j = k - ff.len();
                assert(history_writable(p.history[j]));
                assert(fb[k] == footnote_line(p.history[j].id, p.history[j].prov));
                lemma_footnote_ok(p.history[j].id, p.history[j].prov);
            }
        }
    }
    lemma_all_ok_concat(a, b);
    lemma_all_ok_concat(a + b, c);
    lemma_all_ok_concat(a + b + c, d);
    lemma_all_ok_concat(a + b + c + d, ee);
    lemma_all_ok_concat(a + b + c + d + ee, f);
    lemma_all_ok_concat(a + b + c + d + ee + f, fb);
}


// ---------------------------------------------------------------------------
// Provenance lookup and the frontmatter split
// ---------------------------------------------------------------------------

proof fn lemma_prov_lookup_notes(
    pre: Seq<Seq<char>>,
    notes: Seq<Seq<char>>,
    ids: Seq<Seq<char>>,
    provs: Seq<ProvView>,
    k: int,
)
    requires
        notes.len() == ids.len(),
        provs.len() == ids.len(),
        0 <= k < ids.len(),
        forall|j: int|
            0 <= j < notes.len() ==> #[trigger] notes[j] == footnote_line(ids[j], provs[j]),
        forall|j: int| 0 <= j < ids.len() ==> id_writable(#[trigger] ids[j]),
        forall|j: int| 0 <= j < provs.len() ==> prov_writable(#[trigger] provs[j]),
        forall|i: int, j: int| 0 <= i < j < ids.len() ==> #[trigger] ids[i] != #[trigger] ids[j],
    ensures
        prov_lookup(pre + notes, ids[k]) == Some(provs[k]),
    decreases notes.len(),
{
    let n = notes.len() as int;
    let all = pre + notes;
    assert(all.last() == notes[n - 1]);
    lemma_footnote_reads_back(ids[n - 1], provs[n - 1]);
    if k < n - 1 {
        assert(ids[k] != ids[n - 1]);
        assert(all.drop_last() =~= pre + notes.drop_last());
        let ids2 = ids.drop_last();
        let provs2 = provs.drop_last();
        assert forall|j: int| 0 <= j < n - 1 implies #[trigger] notes.drop_last()[j] == footnote_line(ids2[j], provs2[j]) by {
            assert(notes.drop_last()[j] == notes[j]);
        }
        assert forall|j: int| 0 <= j < ids2.len() implies id_writable(#[trigger] ids2[j]) by {
            assert(ids2[j] == ids[j]);
        }
        assert forall|j: int| 0 <= j < provs2.len() implies prov_writable(#[trigger] provs2[j]) by {
            assert(provs2[j] == provs[j]);
        }
        assert forall|i: int, j: int| 0 <= i < j < ids2.len() implies #[trigger] ids2[i] != #[trigger] ids2[j] by {
            assert(ids2[i] == ids[i] && ids2[j] == ids[j]);
        }
        lemma_prov_lookup_notes(pre, notes.drop_last(), ids2, provs2, k);
    }
}

/// Every fact and History entry of a written page gets its own provenance
/// from the footnotes.
proof fn lemma_provs_found(p: PageView, x: Seq<Seq<char>>)
    requires
        page_writable(p),
    ensures
        forall|k: int|
            0 <= k < p.facts.len() ==> prov_or_unknown(
                (x + footnotes(p)).push(seq![]),
                (#[trigger] p.facts[k]).id,
            ) == p.facts[k].prov,
        forall|k: int|
            0 <= k < p.history.len() ==> prov_or_unknown(
                (x + footnotes(p)).push(seq![]),
                (#[trigger] p.history[k]).id,
            ) == p.history[k].prov,
{
    reveal_strlit("[^p_");
    let segs = (x + footnotes(p)).push(seq![]);
    let ids = all_ids(p);
    let provs = all_provs(p);
    let notes = footnotes(p);
    let nf = p.facts.len() as int;
    assert(segs.drop_last() == x + notes);
    assert(parse_footnote(segs.last()).is_none());
    assert forall|j: int| 0 <= j < notes.len() implies #[trigger] notes[j] == footnote_line(ids[j], provs[j]) by {
        if j < nf {
            assert(notes[j] == footnote_line(p.facts[j].id, p.facts[j].prov));
        } else {
            assert(notes[j] == footnote_line(p.history[j - nf].id, p.history[j - nf].prov));
        }
    }
    assert forall|j: int| 0 <= j < ids.len() implies id_writable(#[trigger] ids[j]) by {
        if j < nf {
            assert(fact_writable(p.facts[j]));
        } else {
            assert(history_writable(p.history[j - nf]));
        }
    }
    assert forall|j: int| 0 <= j < provs.len() implies prov_writable(#[trigger] provs[j]) by {
        if j < nf {
            assert(fact_writable(p.facts[j]));
        } else {
            assert(history_writable(p.history[j - nf]));
        }
    }
    assert forall|k: int| 0 <= k < p.facts.len() implies prov_or_unknown(segs, (#[trigger] p.facts[k]).id)
        == p.facts[k].prov by {
        lemma_prov_lookup_notes(x, notes, ids, provs, k);
        assert(ids[k] == p.facts[k].id);
        assert(provs[k] == p.facts[k].prov);
    }
    assert forall|k: int| 0 <= k < p.history.len() implies prov_or_unknown(segs, (#[trigger] p.history[k]).id)
        == p.history[k].prov by {
        lemma_prov_lookup_notes(x, notes, ids, provs, k + nf);
        assert(ids[k + nf] == p.history[k].id);
        assert(provs[k + nf] == p.history[k].prov);
    }
}

proof fn lemma_first_occurrence_at(s: Seq<char>, pat: Seq<char>, i: int)
    requires
        occurs_at(s, pat, i),
        forall|j: int| 0 <= j < i ==> !occurs_at(s, pat, j),
    ensures
        first_occurrence(s, pat) == Some(i),
{
    reveal(first_occurrence);
    assert(contains(s, pat));
    let c = choose|c: int| occurs_at(s, pat, c) && forall|j: int| 0 <= j < c ==> !occurs_at(s, pat, j);
    assert(c == i) by {
        if c < i {
        } else if c > i {
        }
    }
}

proof fn lemma_no_separator_before(yaml: Seq<char>, rest: Seq<char>, j: int)
    requires
        yaml.len() > 0,
        yaml.last() == '\n',
        !contains(yaml, "\n---\n"@),
        rest.len() >= yaml.len(),
        rest.subrange(0, yaml.len() as int) == yaml,
        0 <= j < yaml.len() - 1,
    ensures
        !occurs_at(rest, "\n---\n"@, j),
{
    reveal_strlit("\n---\n");
    let i = yaml.len() - 1;
    if occurs_at(rest, "\n---\n"@, j) {
        if j + 5 <= yaml.len() {
            assert(yaml.subrange(j, j + 5) =~= rest.subrange(j, j + 5));
            assert(occurs_at(yaml, "\n---\n"@, j));
        } else {
            assert(rest[i] == rest.subrange(0, yaml.len() as int)[i]);
            assert(rest[i] == '\n');
            assert(rest.subrange(j, j + 5)[i - j] == rest[i]);
        }
    }
}

/// A frontmatter text that ends with a newline and holds no `---` line
/// splits off the page where the writer put it.
proof fn lemma_split_written(yaml: Seq<char>, body: Seq<char>)
    requires
        yaml.len() > 0,
        yaml.last() == '\n',
        !contains(yaml, "\n---\n"@),
    ensures
        split_page("---\n"@ + yaml + "---\n"@ + body) == Some((yaml.drop_last(), body)),
{
    reveal_strlit("---\n");
    reveal_strlit("\n---\n");
    let md = "---\n"@ + yaml + "---\n"@ + body;
    assert(md.subrange(0, 4) =~= "---\n"@);
    let rest = md.skip(4);
    assert(rest =~= yaml + ("---\n"@ + body));
    let i = yaml.len() - 1;
    assert(rest.subrange(0, yaml.len() as int) =~= yaml);
    assert(rest.subrange(i, i + 5) =~= "\n---\n"@);
    assert forall|j: int| 0 <= j < i implies !occurs_at(rest, "\n---\n"@, j) by {
        lemma_no_separator_before(yaml, rest, j);
    }
    lemma_first_occurrence_at(rest, "\n---\n"@, i);
    assert(rest.take(i) =~= yaml.drop_last());
    assert(rest.skip(i + 5) =~= body);
}


// ---------------------------------------------------------------------------
// The round trip
// ---------------------------------------------------------------------------

/// The frontmatter that a page's own fields make.
pub open spec fn frontmatter_of(p: PageView) -> FrontmatterView {
    FrontmatterView {
        slug: p.slug,
        title: p.title,
        kind: p.kind,
        aliases: p.aliases,
        sources: p.sources,
        updated: p.updated,
    }
}

/// Reading back a written page: a page file written with a frontmatter
/// text is split back into that text (less its last newline) and the body,
/// and that body, read with the page's frontmatter, gives back the page:
/// its summary, its facts and History entries with their provenance, its
/// contradictions and its links.
pub proof fn law_entity_round_trip(p: PageView, yaml: Seq<char>)
    requires
        page_writable(p),
        yaml.len() > 0,
        yaml.last() == '\n',
        !contains(yaml, "\n---\n"@),
    ensures
        split_page(entity_markdown(p, yaml)) == Some((yaml.drop_last(), unlines(page_lines(p)))),
        page_from(p.slug, frontmatter_of(p), read_body(unlines(page_lines(p)))) == p,
{
    let ls = page_lines(p);
    let u = unlines(ls);
    lemma_split_written(yaml, u);
    lemma_page_lines_ok(p);
    assert forall|k: int| 0 <= k < ls.len() implies one_line(#[trigger] ls[k]) by {
        assert(line_ok(ls[k]));
    }
    assert forall|k: int| 0 <= k < ls.len() implies strip_cr(#[trigger] ls[k]) == ls[k] by {
        assert(line_ok(ls[k]));
    }
    lemma_lines_unlines(ls);
    lemma_split_unlines(ls);
    let segs = ls.push(seq![]);
    assert(read_body(u) == read_lines(empty_body(), ls, segs));
    let a = summary_block(p);
    let b = facts_block(p);
    let c = history_block(p);
    let d = contradictions_block(p);
    let e = related_block(p);
    let f = sources_block(p);
    let g = footnote_block(p);
    let x = a + b + c + d + e + f;
    if p.facts.len() > 0 || p.history.len() > 0 {
        assert(footnotes(p).len() > 0);
        assert(g == footnotes(p));
        assert(segs == (x + footnotes(p)).push(seq![]));
        lemma_provs_found(p, x);
    }
    lemma_section_names();
    let s1 = BodyView { section: "Facts"@, summary: p.summary, ..empty_body() };
    lemma_read_summary_block(p, segs);
    lemma_read_lines_append(empty_body(), a, b, segs);
    lemma_read_facts_block(s1, p, segs);
    let s2 = BodyView { facts: s1.facts + p.facts, ..s1 };
    lemma_read_lines_append(empty_body(), a + b, c, segs);
    lemma_read_history_block(s2, p, segs);
    let s3 = read_lines(empty_body(), a + b + c, segs);
    lemma_read_lines_append(empty_body(), a + b + c, d, segs);
    lemma_read_contradictions_block(s3, p, segs);
    let s4 = read_lines(empty_body(), a + b + c + d, segs);
    lemma_read_lines_append(empty_body(), a + b + c + d, e, segs);
    lemma_read_related_block(s4, p, segs);
    let s5 = read_lines(empty_body(), a + b + c + d + e, segs);
    assert(ls == (a + b + c + d + e) + (f + g));
    lemma_read_lines_append(empty_body(), a + b + c + d + e, f + g, segs);
    lemma_read_tail_blocks(s5, p, segs);
    let r = read_lines(empty_body(), ls, segs);
    assert(r.summary == p.summary);
    assert(r.facts == Seq::<FactView>::empty() + p.facts);
    assert(Seq::<FactView>::empty() + p.facts == p.facts);
    assert(r.history == Seq::<HistoryView>::empty() + p.history);
    assert(Seq::<HistoryView>::empty() + p.history == p.history);
    assert(r.contradictions == Seq::<Seq<char>>::empty() + p.contradictions);
    assert(Seq::<Seq<char>>::empty() + p.contradictions == p.contradictions);
    assert(r.links == Seq::<LinkView>::empty() + p.links);
    assert(Seq::<LinkView>::empty() + p.links == p.links);
}

} // verus!
