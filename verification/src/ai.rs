//! The text heuristics of the offline provider: sentences, tokens and their
//! overlap, cue words, years and capitalised names.
use vstd::prelude::*;
use crate::text::{
    alphanumeric, chars_of, chars_eq, contains, contains_chars, is_alphanumeric, lemma_pieces_step,
    lowercase, pieces, string_of, to_lowercase, trim, trim_chars, words, ws_sep, is_whitespace,
};
use crate::order::{pos_from, stable_sort};

verus! {

// ---------------------------------------------------------------------------
// Sentences
// ---------------------------------------------------------------------------

/// A sentence terminator: `.`, `!`, `?` or their full-width forms.
pub open spec fn is_terminator(c: char) -> bool {
    c == '.' || c == '!' || c == '?' || c == '。' || c == '！' || c == '？'
}

fn is_terminator_exec(c: char) -> (r: bool)
    ensures
        r == is_terminator(c),
{
    c == '.' || c == '!' || c == '?' || c == '。' || c == '！' || c == '？'
}

/// The first terminator at or after `i`, or the end.
pub open spec fn first_terminator(s: Seq<char>, i: int) -> int
    decreases s.len() - i,
{
    if i < 0 || i >= s.len() {
        s.len() as int
    } else if is_terminator(s[i]) {
        i
    } else {
        first_terminator(s, i + 1)
    }
}

/// The end of the run of terminators that starts at `i`.
pub open spec fn terminators_end(s: Seq<char>, i: int) -> int
    decreases s.len() - i,
{
    if i < 0 || i >= s.len() {
        s.len() as int
    } else if !is_terminator(s[i]) {
        i
    } else {
        terminators_end(s, i + 1)
    }
}

pub proof fn lemma_first_terminator(s: Seq<char>, i: int)
    requires
        0 <= i <= s.len(),
    ensures
        i <= first_terminator(s, i) <= s.len(),
        first_terminator(s, i) < s.len() ==> is_terminator(s[first_terminator(s, i)]),
    decreases s.len() - i,
{
    if i < s.len() && !is_terminator(s[i]) {
        lemma_first_terminator(s, i + 1);
    }
}

pub proof fn lemma_terminators_end(s: Seq<char>, i: int)
    requires
        0 <= i <= s.len(),
    ensures
        i <= terminators_end(s, i) <= s.len(),
        i < s.len() && is_terminator(s[i]) ==> i < terminators_end(s, i),
    decreases s.len() - i,
{
    if i < s.len() && is_terminator(s[i]) {
        lemma_terminators_end(s, i + 1);
    }
}

/// The sentences from position `pos` on: each run of other characters with
/// the terminators after it, trimmed; empty ones are dropped, and text after
/// the last terminator is no sentence.
pub open spec fn sentences_from(s: Seq<char>, pos: int) -> Seq<Seq<char>>
    decreases s.len() - pos,
{
    if pos < 0 || pos >= s.len() {
        seq![]
    } else {
        let t = first_terminator(s, pos);
        if t >= s.len() {
            seq![]
        } else {
            let e = terminators_end(s, t);
            proof {
                lemma_first_terminator(s, pos);
                lemma_terminators_end(s, t);
            }
            let m = trim(s.subrange(pos, e));
            if m.len() > 0 {
                seq![m] + sentences_from(s, e)
            } else {
                sentences_from(s, e)
            }
        }
    }
}

/// The sentences of a text.
pub open spec fn sentences_of(s: Seq<char>) -> Seq<Seq<char>> {
    sentences_from(s, 0)
}

pub open spec fn strings_view(v: Seq<String>) -> Seq<Seq<char>> {
    v.map_values(|x: String| x@)
}

/// The sentences of a text: every run of characters up to and including a
/// run of sentence terminators, trimmed, the empty ones left out.
pub fn sentences(s: &str) -> (r: Vec<String>)
    ensures
        strings_view(r@) == sentences_of(s@),
{
    let v = chars_of(s);
    let n = v.len();
    let mut out: Vec<String> = Vec::new();
    let mut pos: usize = 0;
    while pos < n
        invariant
            n == v@.len(),
            v@ == s@,
            pos <= n,
            strings_view(out@) + sentences_from(v@, pos as int) == sentences_of(v@),
        decreases n - pos,
    {
        let mut t = pos;
        while t < n && !is_terminator_exec(v[t])
            invariant
                n == v@.len(),
                pos <= t <= n,
                first_terminator(v@, pos as int) == first_terminator(v@, t as int),
            decreases n - t,
        {
            t = t + 1;
        }
        if t >= n {
            assert(sentences_from(v@, pos as int) == Seq::<Seq<char>>::empty());
            assert(strings_view(out@) + Seq::<Seq<char>>::empty() == strings_view(out@));
            pos = n;
        } else {
            let mut e = t;
            while e < n && is_terminator_exec(v[e])
                invariant
                    n == v@.len(),
                    t <= e <= n,
                    terminators_end(v@, t as int) == terminators_end(v@, e as int),
                decreases n - e,
            {
                e = e + 1;
            }
            proof {
                lemma_first_terminator(v@, pos as int);
                lemma_terminators_end(v@, t as int);
            }
            let piece = crate::lines::slice_chars(v.as_slice(), pos, e);
            let m = trim_chars(piece.as_slice());
            let ghost before = out@;
            if m.len() > 0 {
                out.push(string_of(m.as_slice()));
                assert(strings_view(out@) == strings_view(before).push(m@));
                assert(strings_view(before).push(m@) + sentences_from(v@, e as int) == strings_view(
                    before,
                ) + (seq![m@] + sentences_from(v@, e as int)));
            }
            pos = e;
        }
    }
    assert(sentences_from(v@, pos as int) == Seq::<Seq<char>>::empty());
    assert(strings_view(out@) + Seq::<Seq<char>>::empty() == strings_view(out@));
    out
}


// ---------------------------------------------------------------------------
// Tokens and their overlap
// ---------------------------------------------------------------------------

pub open spec fn not_alnum() -> spec_fn(char) -> bool {
    |c: char| !alphanumeric(c)
}

/// The distinct tokens of a text: the runs of alphanumeric characters of
/// its lower-cased form.
pub open spec fn tokens(s: Seq<char>) -> Set<Seq<char>> {
    pieces(lowercase(s), not_alnum()).to_set()
}

/// Token overlap as a fraction `(shared, all)` of distinct tokens; `(0, 1)`,
/// that is zero, when either text has no token.
pub open spec fn jaccard_ratio(a: Seq<char>, b: Seq<char>) -> (nat, nat) {
    let ta = tokens(a);
    let tb = tokens(b);
    if ta.len() == 0 || tb.len() == 0 {
        (0, 1)
    } else {
        (ta.intersect(tb).len(), (ta + tb).len())
    }
}

pub open spec fn vv(x: Seq<Vec<char>>) -> Seq<Seq<char>> {
    x.map_values(|v: Vec<char>| v@)
}

/// The runs of alphanumeric characters.
fn alnum_pieces(v: &[char]) -> (r: Vec<Vec<char>>)
    ensures
        vv(r@) == pieces(v@, not_alnum()),
{
    let n = v.len();
    let mut out: Vec<Vec<char>> = Vec::new();
    let mut prev_alnum = false;
    for i in 0..n
        invariant
            n == v@.len(),
            vv(out@) == pieces(v@.take(i as int), not_alnum()),
            i >= 1 ==> prev_alnum == alphanumeric(v@[i - 1]),
            i == 0 ==> !prev_alnum,
    {
        let c = v[i];
        proof {
            lemma_pieces_step(v@, not_alnum(), i as int);
        }
        let a = is_alphanumeric(c);
        if !a {
        } else if prev_alnum {
            let k = out.len() - 1;
            let ghost before = vv(out@);
            let mut last = out.pop().unwrap();
            last.push(c);
            out.push(last);
            assert(vv(out@) =~= before.update(k as int, before[k as int].push(c)));
        } else {
            let ghost before = vv(out@);
            let mut w: Vec<char> = Vec::new();
            w.push(c);
            out.push(w);
            assert(vv(out@) =~= before.push(seq![c]));
        }
        prev_alnum = a;
    }
    assert(v@.take(n as int) == v@);
    out
}

fn has_piece(list: &Vec<Vec<char>>, x: &[char]) -> (r: bool)
    ensures
        r == vv(list@).contains(x@),
{
    let n = list.len();
    for i in 0..n
        invariant
            n == list@.len(),
            forall|k: int| 0 <= k < i ==> vv(list@)[k] != x@,
    {
        if chars_eq(list[i].as_slice(), x) {
            assert(vv(list@)[i as int] == x@);
            return true;
        }
    }
    false
}

/// The distinct pieces, first occurrences first.
fn distinct_pieces(ps: Vec<Vec<char>>) -> (r: Vec<Vec<char>>)
    ensures
        vv(r@).no_duplicates(),
        vv(r@).to_set() == vv(ps@).to_set(),
{
    let n = ps.len();
    let mut out: Vec<Vec<char>> = Vec::new();
    for i in 0..n
        invariant
            n == ps@.len(),
            vv(out@).no_duplicates(),
            vv(out@).to_set() == vv(ps@).take(i as int).to_set(),
    {
        let ghost before = vv(out@);
        assert(vv(ps@).take(i + 1) == vv(ps@).take(i as int).push(vv(ps@)[i as int]));
        proof {
            vv(ps@).take(i as int).lemma_push_to_set_commute(vv(ps@)[i as int]);
            before.lemma_push_to_set_commute(vv(ps@)[i as int]);
        }
        if !has_piece(&out, ps[i].as_slice()) {
            out.push(ps[i].clone());
            assert(vv(out@) =~= before.push(ps@[i as int]@));
        } else {
            assert(before.to_set().contains(vv(ps@)[i as int]));
            assert(before.to_set() =~= before.to_set().insert(vv(ps@)[i as int]));
        }
    }
    assert(vv(ps@).take(n as int) == vv(ps@));
    out
}

/// The distinct tokens of a text (its lower-cased runs of alphanumeric
/// characters), in order of first occurrence.
pub fn tokenize(s: &str) -> (r: Vec<Vec<char>>)
    ensures
        vv(r@).no_duplicates(),
        vv(r@).to_set() == tokens(s@),
{
    let lower = to_lowercase(s);
    let v = chars_of(lower.as_str());
    distinct_pieces(alnum_pieces(v.as_slice()))
}

/// Token overlap of two texts, as the fraction `(shared, all)` of their
/// distinct tokens; `(0, 1)` when either has none.
pub fn jaccard(a: &str, b: &str) -> (r: (usize, usize))
    ensures
        r.0 == jaccard_ratio(a@, b@).0,
        r.1 == jaccard_ratio(a@, b@).1,
{
    broadcast use vstd::set::group_set_axioms;
    broadcast use vstd::seq_lib::seq_to_set_is_finite;
    let la = tokenize(a);
    let lb = tokenize(b);
    let ghost sa = vv(la@);
    let ghost sb = vv(lb@);
    proof {
        sa.unique_seq_to_set();
        sb.unique_seq_to_set();
    }
    if la.len() == 0 || lb.len() == 0 {
        return (0, 1);
    }
    let mut inter: usize = 0;
    let ghost mut shared: Seq<Seq<char>> = seq![];
    let n = la.len();
    for i in 0..n
        invariant
            n == la@.len(),
            sa == vv(la@),
            sb == vv(lb@),
            sa.no_duplicates(),
            inter == shared.len(),
            inter <= i,
            shared.no_duplicates(),
            shared.to_set() == sa.take(i as int).to_set().intersect(sb.to_set()),
            forall|k: int| 0 <= k < shared.len() ==> sa.take(i as int).contains(#[trigger] shared[k]),
    {
        let x = &la[i];
        assert(sa.take(i + 1) == sa.take(i as int).push(sa[i as int]));
        assert(!sa.take(i as int).contains(sa[i as int]));
        if has_piece(&lb, x.as_slice()) {
            proof {
                let old_shared = shared;
                shared = shared.push(sa[i as int]);
                assert forall|k: int| 0 <= k < shared.len() implies sa.take(i + 1).contains(#[trigger] shared[k]) by {
                    if k < old_shared.len() {
                        assert(sa.take(i as int).contains(old_shared[k]));
                        let j = choose|j: int| 0 <= j < i && sa.take(i as int)[j] == old_shared[k];
                        assert(sa.take(i + 1)[j] == old_shared[k]);
                    } else {
                        assert(sa.take(i + 1)[i as int] == sa[i as int]);
                    }
                }
                assert forall|a: int, b: int| 0 <= a < b < shared.len() implies shared[a] != shared[b] by {
                    if b == old_shared.len() {
                        assert(sa.take(i as int).contains(old_shared[a]));
                    }
                }
                old_shared.lemma_push_to_set_commute(sa[i as int]);
                sa.take(i as int).lemma_push_to_set_commute(sa[i as int]);
                assert(shared.to_set() =~= sa.take(i + 1).to_set().intersect(sb.to_set()));
            }
            inter = inter + 1;
        } else {
            proof {
                assert forall|k: int| 0 <= k < shared.len() implies sa.take(i + 1).contains(#[trigger] shared[k]) by {
                    let j = choose|j: int| 0 <= j < i && sa.take(i as int)[j] == shared[k];
                    assert(sa.take(i + 1)[j] == shared[k]);
                }
                sa.take(i as int).lemma_push_to_set_commute(sa[i as int]);
                assert(!sb.contains(sa[i as int]));
                assert(shared.to_set() =~= sa.take(i + 1).to_set().intersect(sb.to_set()));
            }
        }
    }
    proof {
        assert(sa.take(n as int) == sa);
        shared.unique_seq_to_set();
    }
    let mut all: Vec<Vec<char>> = Vec::new();
    for i in 0..n
        invariant
            n == la@.len(),
            sa == vv(la@),
            vv(all@) == sa.take(i as int),
    {
        let ghost before = vv(all@);
        all.push(la[i].clone());
        assert(vv(all@) =~= before.push(sa[i as int]));
        assert(sa.take(i + 1) == sa.take(i as int).push(sa[i as int]));
    }
    assert(sa.take(n as int) == sa);
    let m = lb.len();
    assert(sb.take(0).to_set() =~= Set::<Seq<char>>::empty());
    assert(sa.to_set() + sb.take(0).to_set() =~= sa.to_set());
    for j in 0..m
        invariant
            m == lb@.len(),
            sb == vv(lb@),
            vv(all@).no_duplicates(),
            vv(all@).to_set() == sa.to_set() + sb.take(j as int).to_set(),
    {
        let ghost before = vv(all@);
        proof {
            assert(sb.take(j + 1) == sb.take(j as int).push(sb[j as int]));
            sb.take(j as int).lemma_push_to_set_commute(sb[j as int]);
            before.lemma_push_to_set_commute(sb[j as int]);
        }
        if !has_piece(&all, lb[j].as_slice()) {
            all.push(lb[j].clone());
            assert(vv(all@) =~= before.push(sb[j as int]));
            assert(vv(all@).to_set() =~= sa.to_set() + sb.take(j + 1).to_set());
        } else {
            assert(before.to_set().contains(sb[j as int]));
            assert(vv(all@).to_set() =~= sa.to_set() + sb.take(j + 1).to_set());
        }
    }
    proof {
        assert(sb.take(m as int) == sb);
        vv(all@).unique_seq_to_set();
    }
    (inter, all.len())
}


// ---------------------------------------------------------------------------
// Cue words and years
// ---------------------------------------------------------------------------

/// Some cue word occurs in the lower-cased text.
pub open spec fn has_cue(s: Seq<char>, words: Seq<Seq<char>>) -> bool {
    exists|i: int| 0 <= i < words.len() && contains(lowercase(s), #[trigger] words[i])
}

/// Whether the lower-cased text contains any of the cue words.
pub fn cue(s: &str, words: &[&str]) -> (r: bool)
    ensures
        r == has_cue(s@, words@.map_values(|w: &str| w@)),
{
    let ghost ws = words@.map_values(|w: &str| w@);
    let lower = to_lowercase(s);
    let l = chars_of(lower.as_str());
    let n = words.len();
    for i in 0..n
        invariant
            n == words@.len(),
            ws == words@.map_values(|w: &str| w@),
            l@ == lowercase(s@),
            forall|k: int| 0 <= k < i ==> !contains(lowercase(s@), #[trigger] ws[k]),
    {
        let w = chars_of(words[i]);
        if contains_chars(l.as_slice(), w.as_slice()) {
            assert(ws[i as int] == w@);
            return true;
        }
    }
    false
}

/// A word character of a regular-expression word boundary (`\w`).
pub open spec fn is_word(c: char) -> bool {
    crate::text::word_char(c)
}

fn is_word_exec(c: char) -> (r: bool)
    ensures
        r == is_word(c),
{
    crate::text::word_char_exec(c)
}

/// Four digits (as `\d` matches them) at `i`, with no word character right
/// before or after: a match of `\b\d{4}\b`.
pub open spec fn year_at(s: Seq<char>, i: int) -> bool {
    &&& 0 <= i
    &&& i + 4 <= s.len()
    &&& forall|k: int| i <= k < i + 4 ==> crate::text::unicode_digit(#[trigger] s[k])
    &&& (i == 0 || !is_word(s[i - 1]))
    &&& (i + 4 == s.len() || !is_word(s[i + 4]))
}

/// The years of a text from position `i` on, left to right.
pub open spec fn years_from(s: Seq<char>, i: int) -> Seq<Seq<char>>
    decreases s.len() - i,
{
    if i < 0 || i >= s.len() {
        seq![]
    } else if year_at(s, i) {
        seq![s.subrange(i, i + 4)] + years_from(s, i + 4)
    } else {
        years_from(s, i + 1)
    }
}

/// Both texts name a year, and no year of the first is a year of the
/// second.
pub open spec fn years_differ(a: Seq<char>, b: Seq<char>) -> bool {
    let ya = years_from(a, 0);
    let yb = years_from(b, 0);
    ya.len() > 0 && yb.len() > 0 && forall|k: int| 0 <= k < ya.len() ==> !yb.contains(
        #[trigger] ya[k],
    )
}

fn year_at_exec(s: &[char], i: usize) -> (r: bool)
    ensures
        r == year_at(s@, i as int),
{
    if i > s.len() || s.len() - i < 4 {
        return false;
    }
    let end = i + 4;
    let mut k = i;
    while k < end
        invariant
            end == i + 4,
            i + 4 <= s@.len(),
            i <= k <= i + 4,
            forall|q: int| i <= q < k ==> crate::text::unicode_digit(#[trigger] s@[q]),
        decreases end - k,
    {
        if !crate::text::unicode_digit_exec(s[k]) {
            return false;
        }
        k = k + 1;
    }
    if i > 0 && is_word_exec(s[i - 1]) {
        return false;
    }
    if i + 4 < s.len() && is_word_exec(s[i + 4]) {
        return false;
    }
    true
}

fn years_of(s: &[char]) -> (r: Vec<Vec<char>>)
    ensures
        vv(r@) == years_from(s@, 0),
{
    let n = s.len();
    let mut out: Vec<Vec<char>> = Vec::new();
    let mut i: usize = 0;
    while i < n
        invariant
            n == s@.len(),
            i <= n + 4,
            vv(out@) + years_from(s@, i as int) == years_from(s@, 0),
        decreases n + 4 - i,
    {
        if year_at_exec(s, i) {
            let y = crate::lines::slice_chars(s, i, i + 4);
            let ghost before = vv(out@);
            out.push(y);
            assert(vv(out@) =~= before.push(y@));
            assert(before.push(y@) + years_from(s@, i + 4) =~= before + (seq![y@] + years_from(
                s@,
                i + 4,
            )));
            i = i + 4;
        } else {
            i = i + 1;
        }
    }
    assert(years_from(s@, i as int) == Seq::<Seq<char>>::empty());
    assert(vv(out@) + Seq::<Seq<char>>::empty() == vv(out@));
    out
}

/// Whether both texts name years and share none of them.
pub fn numbers_differ(a: &str, b: &str) -> (r: bool)
    ensures
        r == years_differ(a@, b@),
{
    let va = chars_of(a);
    let vb = chars_of(b);
    let ya = years_of(va.as_slice());
    let yb = years_of(vb.as_slice());
    if ya.len() == 0 || yb.len() == 0 {
        return false;
    }
    let n = ya.len();
    for k in 0..n
        invariant
            n == ya@.len(),
            vv(ya@) == years_from(a@, 0),
            vv(yb@) == years_from(b@, 0),
            forall|q: int| 0 <= q < k ==> !vv(yb@).contains(#[trigger] vv(ya@)[q]),
    {
        if has_piece(&yb, ya[k].as_slice()) {
            assert(vv(yb@).contains(vv(ya@)[k as int]));
            return false;
        }
    }
    true
}


// ---------------------------------------------------------------------------
// Capitalised names
// ---------------------------------------------------------------------------

pub open spec fn is_upper(c: char) -> bool {
    'A' <= c && c <= 'Z'
}

/// A character of a capitalised word: an ASCII letter or `.`.
pub open spec fn is_name_char(c: char) -> bool {
    ('A' <= c && c <= 'Z') || ('a' <= c && c <= 'z') || c == '.'
}

pub open spec fn word_at(s: Seq<char>, i: int) -> bool {
    0 <= i < s.len() && is_word(s[i])
}

/// A word boundary at `e`: a word character on exactly one side.
pub open spec fn boundary(s: Seq<char>, e: int) -> bool {
    word_at(s, e - 1) != word_at(s, e)
}

pub open spec fn name_run_end(s: Seq<char>, i: int) -> int
    decreases s.len() - i,
{
    if i < 0 || i >= s.len() || !is_name_char(s[i]) {
        i
    } else {
        name_run_end(s, i + 1)
    }
}

pub open spec fn space_run_end(s: Seq<char>, i: int) -> int
    decreases s.len() - i,
{
    if i < 0 || i >= s.len() || !crate::text::is_ws(s[i]) {
        i
    } else {
        space_run_end(s, i + 1)
    }
}

pub proof fn lemma_name_run_end(s: Seq<char>, i: int)
    requires
        0 <= i <= s.len(),
    ensures
        i <= name_run_end(s, i) <= s.len(),
        forall|k: int| i <= k < name_run_end(s, i) ==> is_name_char(#[trigger] s[k]),
        name_run_end(s, i) < s.len() ==> !is_name_char(s[name_run_end(s, i)]),
    decreases s.len() - i,
{
    if i < s.len() && is_name_char(s[i]) {
        lemma_name_run_end(s, i + 1);
    }
}

pub proof fn lemma_space_run_end(s: Seq<char>, i: int)
    requires
        0 <= i <= s.len(),
    ensures
        i <= space_run_end(s, i) <= s.len(),
    decreases s.len() - i,
{
    if i < s.len() && crate::text::is_ws(s[i]) {
        lemma_space_run_end(s, i + 1);
    }
}

/// A capitalised word at `q`: an ASCII capital and at least one more name
/// character.
pub open spec fn cap_word_at(s: Seq<char>, q: int) -> bool {
    0 <= q && q + 1 < s.len() && is_upper(s[q]) && is_name_char(s[q + 1])
}

/// The last position in `lo..=e` with a word boundary, searching down.
pub open spec fn last_boundary(s: Seq<char>, lo: int, e: int) -> Option<int>
    decreases e - lo + 1,
{
    if e < lo {
        None
    } else if boundary(s, e) {
        Some(e)
    } else {
        last_boundary(s, lo, e - 1)
    }
}

/// Where a name whose capitalised word starts at `q` ends: a longer name
/// (whitespace and a further capitalised word) is tried first; otherwise
/// the word is cut at its last word boundary. This is the order in which a
/// backtracking match of `[A-Z][a-zA-Z.]+(\s+[A-Z][a-zA-Z.]+)*\b` tries its
/// ends.
pub open spec fn name_end_from(s: Seq<char>, q: int) -> Option<int>
    decreases s.len() - q,
{
    if !cap_word_at(s, q) {
        None
    } else {
        let r = name_run_end(s, q + 1);
        let w = space_run_end(s, r);
        proof {
            lemma_name_run_end(s, q + 1);
            lemma_space_run_end(s, r);
        }
        let deeper = if w > r && cap_word_at(s, w) {
            name_end_from(s, w)
        } else {
            None
        };
        match deeper {
            Some(e) => Some(e),
            None => last_boundary(s, q + 2, r),
        }
    }
}

/// The end of a name that starts at `p` at a word boundary, if one does.
pub open spec fn name_at(s: Seq<char>, p: int) -> Option<int> {
    if cap_word_at(s, p) && boundary(s, p) {
        name_end_from(s, p)
    } else {
        None
    }
}

pub proof fn lemma_last_boundary(s: Seq<char>, lo: int, e: int)
    ensures
        match last_boundary(s, lo, e) {
            Some(x) => lo <= x <= e,
            None => true,
        },
    decreases e - lo + 1,
{
    if e >= lo && !boundary(s, e) {
        lemma_last_boundary(s, lo, e - 1);
    }
}

pub proof fn lemma_name_end_from(s: Seq<char>, q: int)
    ensures
        match name_end_from(s, q) {
            Some(e) => q + 2 <= e <= s.len(),
            None => true,
        },
    decreases s.len() - q,
{
    if cap_word_at(s, q) {
        let r = name_run_end(s, q + 1);
        lemma_name_run_end(s, q + 1);
        let w = space_run_end(s, r);
        lemma_space_run_end(s, r);
        if w > r && cap_word_at(s, w) {
            lemma_name_end_from(s, w);
        }
        lemma_last_boundary(s, q + 2, r);
    }
}

/// The names matched left to right from `pos`, each search resuming after
/// the previous name.
pub open spec fn names_from(s: Seq<char>, pos: int) -> Seq<Seq<char>>
    decreases s.len() - pos,
{
    if pos < 0 || pos >= s.len() {
        seq![]
    } else {
        match name_at(s, pos) {
            Some(e) => {
                proof {
                    lemma_name_end_from(s, pos);
                }
                seq![s.subrange(pos, e)] + names_from(s, e)
            },
            None => names_from(s, pos + 1),
        }
    }
}

fn is_upper_exec(c: char) -> (r: bool)
    ensures
        r == is_upper(c),
{
    'A' <= c && c <= 'Z'
}

fn is_name_char_exec(c: char) -> (r: bool)
    ensures
        r == is_name_char(c),
{
    ('A' <= c && c <= 'Z') || ('a' <= c && c <= 'z') || c == '.'
}

fn word_at_exec(s: &[char], i: usize) -> (r: bool)
    ensures
        r == word_at(s@, i as int),
{
    i < s.len() && is_word_exec(s[i])
}

fn boundary_exec(s: &[char], e: usize) -> (r: bool)
    ensures
        r == boundary(s@, e as int),
{
    let before = if e == 0 {
        false
    } else {
        word_at_exec(s, e - 1)
    };
    before != word_at_exec(s, e)
}

fn cap_word_at_exec(s: &[char], q: usize) -> (r: bool)
    ensures
        r == cap_word_at(s@, q as int),
{
    q < s.len() && s.len() - q > 1 && is_upper_exec(s[q]) && is_name_char_exec(s[q + 1])
}

fn last_boundary_exec(s: &[char], lo: usize, e: usize) -> (r: Option<usize>)
    requires
        e <= s@.len(),
    ensures
        match r {
            Some(x) => last_boundary(s@, lo as int, e as int) == Some(x as int),
            None => last_boundary(s@, lo as int, e as int).is_none(),
        },
{
    let mut k = e;
    while k >= lo
        invariant
            k <= e,
            last_boundary(s@, lo as int, e as int) == last_boundary(s@, lo as int, k as int),
        decreases k,
    {
        if boundary_exec(s, k) {
            return Some(k);
        }
        if k == 0 {
            assert(last_boundary(s@, lo as int, -1) == None::<int>);
            return None;
        }
        k = k - 1;
    }
    None
}

fn name_end_from_exec(s: &[char], q: usize) -> (r: Option<usize>)
    ensures
        match r {
            Some(x) => name_end_from(s@, q as int) == Some(x as int),
            None => name_end_from(s@, q as int).is_none(),
        },
    decreases s@.len() - q,
{
    let _n = s.len();
    if !cap_word_at_exec(s, q) {
        return None;
    }
    let mut r = q + 1;
    while r < s.len() && is_name_char_exec(s[r])
        invariant
            q + 1 <= r <= s@.len(),
            name_run_end(s@, q + 1) == name_run_end(s@, r as int),
        decreases s@.len() - r,
    {
        r = r + 1;
    }
    let mut w = r;
    while w < s.len() && crate::text::is_whitespace(s[w])
        invariant
            r <= w <= s@.len(),
            space_run_end(s@, r as int) == space_run_end(s@, w as int),
        decreases s@.len() - w,
    {
        w = w + 1;
    }
    if w > r && cap_word_at_exec(s, w) {
        match name_end_from_exec(s, w) {
            Some(e) => {
                return Some(e);
            },
            None => {},
        }
    }
    last_boundary_exec(s, q + 2, r)
}

/// The capitalised names of a text, as the regular expression
/// `\b([A-Z][a-zA-Z.]+(?:\s+[A-Z][a-zA-Z.]+)*)\b` finds them left to right.
fn name_matches(s: &[char]) -> (r: Vec<Vec<char>>)
    ensures
        vv(r@) == names_from(s@, 0),
{
    let n = s.len();
    let mut out: Vec<Vec<char>> = Vec::new();
    let mut pos: usize = 0;
    while pos < n
        invariant
            n == s@.len(),
            pos <= n,
            vv(out@) + names_from(s@, pos as int) == names_from(s@, 0),
        decreases n - pos,
    {
        let m = if cap_word_at_exec(s, pos) && boundary_exec(s, pos) {
            name_end_from_exec(s, pos)
        } else {
            None
        };
        match m {
            Some(e) => {
                proof {
                    lemma_name_end_from(s@, pos as int);
                }
                let w = crate::lines::slice_chars(s, pos, e);
                let ghost before = vv(out@);
                out.push(w);
                assert(vv(out@) =~= before.push(w@));
                assert(before.push(w@) + names_from(s@, e as int) =~= before + (seq![w@] + names_from(
                    s@,
                    e as int,
                )));
                pos = e;
            },
            None => {
                pos = pos + 1;
            },
        }
    }
    assert(names_from(s@, pos as int) == Seq::<Seq<char>>::empty());
    assert(vv(out@) + Seq::<Seq<char>>::empty() == vv(out@));
    out
}


/// The name without trailing dots.
pub open spec fn trim_dots(m: Seq<char>) -> Seq<char>
    decreases m.len(),
{
    if m.len() > 0 && m.last() == '.' {
        trim_dots(m.drop_last())
    } else {
        m
    }
}

pub open spec fn stop_words() -> Seq<Seq<char>> {
    seq![
        "The"@,
        "A"@,
        "An"@,
        "In"@,
        "On"@,
        "It"@,
        "This"@,
        "That"@,
        "Some"@,
        "He"@,
        "She"@,
        "They"@,
    ]
}

/// A name worth keeping: longer than one byte and no stop word.
pub open spec fn kept_name(n: Seq<char>) -> bool {
    vstd::utf8::encode_utf8(n).len() > 1 && !stop_words().contains(n)
}

/// The matched names without trailing dots, trimmed, the kept ones.
pub open spec fn clean_names(ms: Seq<Seq<char>>) -> Seq<Seq<char>>
    decreases ms.len(),
{
    if ms.len() == 0 {
        seq![]
    } else {
        let rest = clean_names(ms.drop_last());
        let n = trim(trim_dots(ms.last()));
        if kept_name(n) {
            rest.push(n)
        } else {
            rest
        }
    }
}

/// The first index at or after `k` whose key is `x`, or the length.
pub open spec fn key_index(t: Seq<(Seq<char>, nat)>, x: Seq<char>, k: int) -> int
    decreases t.len() - k,
{
    if k < 0 || k >= t.len() {
        t.len() as int
    } else if t[k].0 == x {
        k
    } else {
        key_index(t, x, k + 1)
    }
}

/// The distinct names with the number of times each occurs, in order of
/// first occurrence.
pub open spec fn tally(ns: Seq<Seq<char>>) -> Seq<(Seq<char>, nat)>
    decreases ns.len(),
{
    if ns.len() == 0 {
        seq![]
    } else {
        let t = tally(ns.drop_last());
        let x = ns.last();
        let i = key_index(t, x, 0);
        if 0 <= i < t.len() {
            t.update(i, (x, t[i].1 + 1))
        } else {
            t.push((x, 1))
        }
    }
}

pub open spec fn org_words() -> Seq<Seq<char>> {
    seq![
        "Inc"@,
        "Corp"@,
        "LLC"@,
        "Ltd"@,
        "Company"@,
        "Motors"@,
        "Labs"@,
        "Foundation"@,
    ]
}

/// The kind given to a name: `org` when one of its words is a company
/// word, `person` for two or more words, else `concept`.
pub open spec fn name_kind(n: Seq<char>) -> Seq<char> {
    if exists|i: int| 0 <= i < words(n).len() && org_words().contains(#[trigger] words(n)[i]) {
        "org"@
    } else if words(n).len() >= 2 {
        "person"@
    } else {
        "concept"@
    }
}

pub open spec fn by_count_desc() -> spec_fn((Seq<char>, Seq<char>, nat), (Seq<char>, Seq<char>, nat)) -> bool {
    |a: (Seq<char>, Seq<char>, nat), b: (Seq<char>, Seq<char>, nat)| a.2 > b.2
}

/// The names of a text with their kinds and counts, most frequent first;
/// names as frequent as each other come in order of first occurrence.
pub open spec fn ranked_names(s: Seq<char>) -> Seq<(Seq<char>, Seq<char>, nat)> {
    stable_sort(
        tally(clean_names(names_from(s, 0))).map_values(
            |e: (Seq<char>, nat)| (e.0, name_kind(e.0), e.1),
        ),
        by_count_desc(),
    )
}

fn lit(s: &str) -> (r: Vec<char>)
    ensures
        r@ == s@,
{
    chars_of(s)
}

fn trim_dots_exec(v: &[char]) -> (r: Vec<char>)
    ensures
        r@ == trim_dots(v@),
{
    let mut k = v.len();
    assert(v@.take(k as int) == v@);
    while k > 0 && v[k - 1] == '.'
        invariant
            k <= v@.len(),
            trim_dots(v@.take(k as int)) == trim_dots(v@),
        decreases k,
    {
        assert(v@.take(k as int).drop_last() == v@.take(k - 1));
        k = k - 1;
    }
    let r = crate::lines::slice_chars(v, 0, k);
    assert(r@ == v@.take(k as int));
    r
}

fn in_list(x: &[char], list: &Vec<Vec<char>>) -> (r: bool)
    ensures
        r == vv(list@).contains(x@),
{
    has_piece(list, x)
}

fn stop_word_list() -> (r: Vec<Vec<char>>)
    ensures
        vv(r@) == stop_words(),
{
    let v = vec![
        lit("The"),
        lit("A"),
        lit("An"),
        lit("In"),
        lit("On"),
        lit("It"),
        lit("This"),
        lit("That"),
        lit("Some"),
        lit("He"),
        lit("She"),
        lit("They"),
    ];
    assert(vv(v@) =~= stop_words());
    v
}

fn org_word_list() -> (r: Vec<Vec<char>>)
    ensures
        vv(r@) == org_words(),
{
    let v = vec![
        lit("Inc"),
        lit("Corp"),
        lit("LLC"),
        lit("Ltd"),
        lit("Company"),
        lit("Motors"),
        lit("Labs"),
        lit("Foundation"),
    ];
    assert(vv(v@) =~= org_words());
    v
}

fn clean_names_exec(ms: &Vec<Vec<char>>) -> (r: Vec<Vec<char>>)
    ensures
        vv(r@) == clean_names(vv(ms@)),
{
    let stops = stop_word_list();
    let mut out: Vec<Vec<char>> = Vec::new();
    let n = ms.len();
    for i in 0..n
        invariant
            n == ms@.len(),
            vv(stops@) == stop_words(),
            vv(out@) == clean_names(vv(ms@).take(i as int)),
    {
        assert(vv(ms@).take(i + 1).drop_last() == vv(ms@).take(i as int));
        assert(vv(ms@).take(i + 1).last() == ms@[i as int]@);
        let d = trim_dots_exec(ms[i].as_slice());
        let t = trim_chars(d.as_slice());
        let st = string_of(t.as_slice());
        let bytes = st.as_str().as_bytes();
        if bytes.len() > 1 && !in_list(t.as_slice(), &stops) {
            let ghost before = vv(out@);
            out.push(t);
            assert(vv(out@) =~= before.push(t@));
        }
    }
    assert(vv(ms@).take(n as int) == vv(ms@));
    out
}

spec fn tview(t: Seq<(Vec<char>, usize)>) -> Seq<(Seq<char>, nat)> {
    t.map_values(|e: (Vec<char>, usize)| (e.0@, e.1 as nat))
}

proof fn lemma_tally_bounds(ns: Seq<Seq<char>>)
    ensures
        forall|k: int| 0 <= k < tally(ns).len() ==> (#[trigger] tally(ns)[k]).1 <= ns.len(),
        tally(ns).len() <= ns.len(),
    decreases ns.len(),
{
    if ns.len() > 0 {
        lemma_tally_bounds(ns.drop_last());
        let t = tally(ns.drop_last());
        let i = key_index(t, ns.last(), 0);
        lemma_key_index(t, ns.last(), 0);
    }
}

proof fn lemma_key_index(t: Seq<(Seq<char>, nat)>, x: Seq<char>, k: int)
    requires
        0 <= k <= t.len(),
    ensures
        k <= key_index(t, x, k) <= t.len(),
        key_index(t, x, k) < t.len() ==> t[key_index(t, x, k)].0 == x,
    decreases t.len() - k,
{
    if k < t.len() && t[k].0 != x {
        lemma_key_index(t, x, k + 1);
    }
}

fn tally_exec(ns: &Vec<Vec<char>>) -> (r: Vec<(Vec<char>, usize)>)
    ensures
        tview(r@) == tally(vv(ns@)),
{
    let mut t: Vec<(Vec<char>, usize)> = Vec::new();
    let n = ns.len();
    for i in 0..n
        invariant
            n == ns@.len(),
            tview(t@) == tally(vv(ns@).take(i as int)),
    {
        let ghost pre = vv(ns@).take(i as int);
        assert(vv(ns@).take(i + 1).drop_last() == pre);
        assert(vv(ns@).take(i + 1).last() == ns@[i as int]@);
        proof {
            lemma_tally_bounds(pre);
        }
        let ghost tv = tview(t@);
        let x = &ns[i];
        let mut k: usize = 0;
        while k < t.len() && !chars_eq(t[k].0.as_slice(), x.as_slice())
            invariant
                tv == tview(t@),
                k <= t@.len(),
                key_index(tv, x@, 0) == key_index(tv, x@, k as int),
            decreases t@.len() - k,
        {
            k = k + 1;
        }
        if k < t.len() {
            assert(tv[k as int].1 <= pre.len());
            let c = t[k].1;
            let key = x.clone();
            t.set(k, (key, c + 1));
            assert(tview(t@) =~= tv.update(k as int, (x@, tv[k as int].1 + 1)));
        } else {
            t.push((x.clone(), 1));
            assert(tview(t@) =~= tv.push((x@, 1nat)));
        }
    }
    assert(vv(ns@).take(n as int) == vv(ns@));
    t
}

fn ws_words(v: &[char]) -> (r: Vec<Vec<char>>)
    ensures
        vv(r@) == words(v@),
{
    let n = v.len();
    let mut out: Vec<Vec<char>> = Vec::new();
    let mut prev_word = false;
    for i in 0..n
        invariant
            n == v@.len(),
            vv(out@) == pieces(v@.take(i as int), ws_sep()),
            i >= 1 ==> prev_word == !crate::text::is_ws(v@[i - 1]),
            i == 0 ==> !prev_word,
    {
        let c = v[i];
        proof {
            lemma_pieces_step(v@, ws_sep(), i as int);
        }
        let sp = is_whitespace(c);
        if sp {
        } else if prev_word {
            let k = out.len() - 1;
            let ghost before = vv(out@);
            let mut last = out.pop().unwrap();
            last.push(c);
            out.push(last);
            assert(vv(out@) =~= before.update(k as int, before[k as int].push(c)));
        } else {
            let ghost before = vv(out@);
            let mut w: Vec<char> = Vec::new();
            w.push(c);
            out.push(w);
            assert(vv(out@) =~= before.push(seq![c]));
        }
        prev_word = !sp;
    }
    assert(v@.take(n as int) == v@);
    out
}

fn name_kind_exec(n: &[char], orgs: &Vec<Vec<char>>) -> (r: Vec<char>)
    requires
        vv(orgs@) == org_words(),
    ensures
        r@ == name_kind(n@),
{
    let ws = ws_words(n);
    let m = ws.len();
    for i in 0..m
        invariant
            m == ws@.len(),
            vv(ws@) == words(n@),
            vv(orgs@) == org_words(),
            forall|k: int| 0 <= k < i ==> !org_words().contains(#[trigger] words(n@)[k]),
    {
        if in_list(ws[i].as_slice(), orgs) {
            assert(org_words().contains(words(n@)[i as int]));
            return lit("org");
        }
    }
    if m >= 2 {
        lit("person")
    } else {
        lit("concept")
    }
}

spec fn rview(t: Seq<(Vec<char>, Vec<char>, usize)>) -> Seq<(Seq<char>, Seq<char>, nat)> {
    t.map_values(|e: (Vec<char>, Vec<char>, usize)| (e.0@, e.1@, e.2 as nat))
}

fn sort_by_count(items: Vec<(Vec<char>, Vec<char>, usize)>) -> (r: Vec<(Vec<char>, Vec<char>, usize)>)
    ensures
        rview(r@) == stable_sort(rview(items@), by_count_desc()),
{
    let mut out: Vec<(Vec<char>, Vec<char>, usize)> = Vec::new();
    let ghost all = rview(items@);
    let n = items.len();
    let mut i: usize = 0;
    let mut items = items;
    assert(rview(items@) == all.skip(0));
    while items.len() > 0
        invariant
            n == all.len(),
            i + items@.len() == n,
            rview(items@) == all.skip(i as int),
            rview(out@) == stable_sort(all.take(i as int), by_count_desc()),
        decreases items@.len(),
    {
        let ghost before_items = items@;
        let x = items.remove(0);
        assert(rview(before_items)[0] == all[i as int]);
        assert(rview(items@) =~= all.skip(i + 1)) by {
            assert forall|z: int| 0 <= z < items@.len() implies rview(items@)[z] == all.skip(i + 1)[z] by {
                assert(items@[z] == before_items[z + 1]);
                assert(rview(before_items)[z + 1] == all.skip(i as int)[z + 1]);
            }
        }
        let ghost ov = rview(out@);
        let ghost xv = (x.0@, x.1@, x.2 as nat);
        let mut k: usize = 0;
        while k < out.len() && !(x.2 > out[k].2)
            invariant
                0 <= k <= out@.len(),
                ov == rview(out@),
                xv == (x.0@, x.1@, x.2 as nat),
                pos_from(ov, xv, by_count_desc(), 0) == pos_from(ov, xv, by_count_desc(), k as int),
            decreases out@.len() - k,
        {
            k = k + 1;
        }
        proof {
            crate::order::lemma_stable_sort_step(all, by_count_desc(), i as int);
        }
        out.insert(k, x);
        assert(rview(out@) =~= ov.insert(k as int, xv));
        i = i + 1;
    }
    assert(all.take(n as int) == all);
    out
}

pub open spec fn triples_view(t: Seq<(String, String, usize)>) -> Seq<(Seq<char>, Seq<char>, nat)> {
    t.map_values(|e: (String, String, usize)| (e.0@, e.1@, e.2 as nat))
}

/// The capitalised names of a text (stop words and one-letter names left
/// out, trailing dots dropped), each with its kind and the number of times
/// it occurs, most frequent first.
pub fn proper_nouns(content: &str) -> (r: Vec<(String, String, usize)>)
    ensures
        triples_view(r@) == ranked_names(content@),
{
    let v = chars_of(content);
    let ms = name_matches(v.as_slice());
    let names = clean_names_exec(&ms);
    let t = tally_exec(&names);
    let orgs = org_word_list();
    let mut items: Vec<(Vec<char>, Vec<char>, usize)> = Vec::new();
    let ghost tv = tview(t@);
    let m = t.len();
    for i in 0..m
        invariant
            m == t@.len(),
            tv == tview(t@),
            vv(orgs@) == org_words(),
            rview(items@) == tv.take(i as int).map_values(
                |e: (Seq<char>, nat)| (e.0, name_kind(e.0), e.1),
            ),
    {
        let kind = name_kind_exec(t[i].0.as_slice(), &orgs);
        let ghost before = rview(items@);
        items.push((t[i].0.clone(), kind, t[i].1));
        assert(rview(items@) =~= before.push((tv[i as int].0, name_kind(tv[i as int].0), tv[i as int].1)));
        assert(tv.take(i + 1).map_values(|e: (Seq<char>, nat)| (e.0, name_kind(e.0), e.1))
            =~= tv.take(i as int).map_values(|e: (Seq<char>, nat)| (e.0, name_kind(e.0), e.1)).push(
            (tv[i as int].0, name_kind(tv[i as int].0), tv[i as int].1),
        ));
    }
    assert(tv.take(m as int) == tv);
    let sorted = sort_by_count(items);
    let mut out: Vec<(String, String, usize)> = Vec::new();
    let k = sorted.len();
    for j in 0..k
        invariant
            k == sorted@.len(),
            triples_view(out@) == rview(sorted@).take(j as int),
    {
        let ghost before = triples_view(out@);
        let e = (string_of(sorted[j].0.as_slice()), string_of(sorted[j].1.as_slice()), sorted[j].2);
        out.push(e);
        assert(triples_view(out@) =~= before.push(rview(sorted@)[j as int]));
        assert(rview(sorted@).take(j + 1) =~= rview(sorted@).take(j as int).push(rview(sorted@)[j as int]));
    }
    assert(rview(sorted@).take(k as int) == rview(sorted@));
    out
}


/// The shared tokens never outnumber all tokens, and there is at least one
/// of the latter.
pub proof fn lemma_jaccard_bounds(a: Seq<char>, b: Seq<char>)
    ensures
        jaccard_ratio(a, b).0 <= jaccard_ratio(a, b).1,
        jaccard_ratio(a, b).1 > 0,
{
    broadcast use vstd::seq_lib::seq_to_set_is_finite;
    let ta = tokens(a);
    let tb = tokens(b);
    if ta.len() > 0 && tb.len() > 0 {
        vstd::set_lib::lemma_len_intersect(ta, tb);
        vstd::set_lib::lemma_len_subset(ta, ta + tb);
    }
}

} // verus!
