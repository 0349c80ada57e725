//! Splitting text into lines, and scanning runs of characters.
use vstd::prelude::*;

verus! {

/// `str::split('\n')`: the segments between newlines, at least one.
pub open spec fn split_nl(s: Seq<char>) -> Seq<Seq<char>>
    decreases s.len(),
{
    if s.len() == 0 {
        seq![seq![]]
    } else {
        let p = split_nl(s.drop_last());
        if s.last() == '\n' {
            p.push(seq![])
        } else {
            p.update(p.len() - 1, p.last().push(s.last()))
        }
    }
}

pub proof fn lemma_split_nl_len(s: Seq<char>)
    ensures
        split_nl(s).len() >= 1,
    decreases s.len(),
{
    if s.len() > 0 {
        lemma_split_nl_len(s.drop_last());
    }
}

/// A segment without one trailing carriage return.
pub open spec fn strip_cr(s: Seq<char>) -> Seq<char> {
    if s.len() > 0 && s.last() == '\r' {
        s.drop_last()
    } else {
        s
    }
}

/// `str::lines`: the segments between newlines, each that a newline ends
/// without one trailing `\r`, and no empty last segment.
pub open spec fn lines(s: Seq<char>) -> Seq<Seq<char>> {
    let segs = split_nl(s);
    let n = if segs.last().len() == 0 {
        segs.len() - 1
    } else {
        segs.len() as int
    };
    Seq::new(
        n as nat,
        |k: int|
            if k < segs.len() - 1 {
                strip_cr(segs[k])
            } else {
                segs[k]
            },
    )
}

fn strip_cr_exec(v: Vec<char>) -> (r: Vec<char>)
    ensures
        r@ == strip_cr(v@),
{
    let mut v = v;
    if v.len() > 0 && v[v.len() - 1] == '\r' {
        v.pop();
    }
    v
}

/// The segments and the lines of a text.
pub fn split_lines(s: &[char]) -> (r: (Vec<Vec<char>>, Vec<Vec<char>>))
    ensures
        r.0@.map_values(|v: Vec<char>| v@) == split_nl(s@),
        r.1@.map_values(|v: Vec<char>| v@) == lines(s@),
{
    let mut segs: Vec<Vec<char>> = Vec::new();
    let mut done: Vec<Vec<char>> = Vec::new();
    let mut cur: Vec<char> = Vec::new();
    let n = s.len();
    assert(s@.take(0) =~= Seq::<char>::empty());
    for i in 0..n
        invariant
            n == s@.len(),
            segs@.map_values(|v: Vec<char>| v@).push(cur@) == split_nl(s@.take(i as int)),
            done@.len() == segs@.len(),
            forall|k: int| 0 <= k < segs@.len() ==> (#[trigger] done@[k])@ == strip_cr(segs@[k]@),
    {
        let c = s[i];
        let ghost sv = segs@.map_values(|v: Vec<char>| v@);
        proof {
            assert(s@.take(i + 1).drop_last() == s@.take(i as int));
            assert(s@.take(i + 1).last() == c);
            lemma_split_nl_len(s@.take(i as int));
        }
        if c == '\n' {
            let full = cur;
            cur = Vec::new();
            let stripped = strip_cr_exec(full.clone());
            segs.push(full);
            done.push(stripped);
            assert(segs@.map_values(|v: Vec<char>| v@).push(cur@) =~= sv.push(full@).push(seq![]));
            assert(sv.push(full@) =~= split_nl(s@.take(i as int)));
            assert forall|k: int| 0 <= k < segs@.len() implies (#[trigger] done@[k])@ == strip_cr(segs@[k]@) by {}
        } else {
            let ghost before = cur@;
            cur.push(c);
            assert(segs@.map_values(|v: Vec<char>| v@).push(cur@) =~= sv.push(before).update(sv.len() as int, before.push(c)));
        }
    }
    assert(s@.take(n as int) == s@);
    let ghost all = split_nl(s@);
    let ghost sv = segs@.map_values(|v: Vec<char>| v@);
    assert(all == sv.push(cur@));
    let mut lines_v = done;
    if cur.len() > 0 {
        let last = cur.clone();
        lines_v.push(last);
    }
    segs.push(cur);
    proof {
        assert(segs@.map_values(|v: Vec<char>| v@) =~= all);
        let l = lines(s@);
        let lv = lines_v@.map_values(|v: Vec<char>| v@);
        assert(lines_v@.len() == l.len());
        assert forall|k: int| 0 <= k < l.len() implies #[trigger] lv[k] == l[k] by {
            if k < sv.len() {
                assert(all[k] == sv[k]);
            }
        }
        assert(lines_v@.map_values(|v: Vec<char>| v@) =~= l);
    }
    (segs, lines_v)
}

/// The end of the run of characters other than `stop` that starts at `from`.
pub open spec fn run_end(s: Seq<char>, from: int, stop: char) -> int
    decreases s.len() - from,
{
    if from < 0 || from >= s.len() {
        s.len() as int
    } else if s[from] == stop {
        from
    } else {
        run_end(s, from + 1, stop)
    }
}

pub proof fn lemma_run_end(s: Seq<char>, from: int, stop: char)
    requires
        0 <= from <= s.len(),
    ensures
        from <= run_end(s, from, stop) <= s.len(),
        run_end(s, from, stop) < s.len() ==> s[run_end(s, from, stop)] == stop,
        forall|k: int| from <= k < run_end(s, from, stop) ==> s[k] != stop,
    decreases s.len() - from,
{
    if from < s.len() && s[from] != stop {
        lemma_run_end(s, from + 1, stop);
    }
}

pub fn run_end_exec(s: &[char], from: usize, stop: char) -> (r: usize)
    requires
        from <= s@.len(),
    ensures
        r == run_end(s@, from as int, stop),
        from <= r <= s@.len(),
{
    let mut k: usize = from;
    while k < s.len() && s[k] != stop
        invariant
            from <= k <= s@.len(),
            run_end(s@, from as int, stop) == run_end(s@, k as int, stop),
        decreases s.len() - k,
    {
        k = k + 1;
    }
    k
}

/// The end of the run of digits (as `\d` matches them) that starts at
/// `from`.
pub open spec fn digits_end(s: Seq<char>, from: int) -> int
    decreases s.len() - from,
{
    if from < 0 || from >= s.len() {
        s.len() as int
    } else if !crate::text::unicode_digit(s[from]) {
        from
    } else {
        digits_end(s, from + 1)
    }
}

pub proof fn lemma_digits_end(s: Seq<char>, from: int)
    requires
        0 <= from <= s.len(),
    ensures
        from <= digits_end(s, from) <= s.len(),
        digits_end(s, from) < s.len() ==> !crate::text::unicode_digit(s[digits_end(s, from)]),
        forall|k: int| from <= k < digits_end(s, from) ==> crate::text::unicode_digit(#[trigger] s[k]),
    decreases s.len() - from,
{
    if from < s.len() && crate::text::unicode_digit(s[from]) {
        lemma_digits_end(s, from + 1);
    }
}

pub fn digits_end_exec(s: &[char], from: usize) -> (r: usize)
    requires
        from <= s@.len(),
    ensures
        r == digits_end(s@, from as int),
        from <= r <= s@.len(),
{
    let mut k: usize = from;
    while k < s.len() && crate::text::unicode_digit_exec(s[k])
        invariant
            from <= k <= s@.len(),
            digits_end(s@, from as int) == digits_end(s@, k as int),
        decreases s.len() - k,
    {
        k = k + 1;
    }
    k
}

/// The characters `s[from..to]`.
pub fn slice_chars(s: &[char], from: usize, to: usize) -> (r: Vec<char>)
    requires
        from <= to <= s@.len(),
    ensures
        r@ == s@.subrange(from as int, to as int),
{
    let mut r: Vec<char> = Vec::new();
    let mut k: usize = from;
    while k < to
        invariant
            from <= k <= to <= s@.len(),
            r@ == s@.subrange(from as int, k as int),
        decreases to - k,
    {
        r.push(s[k]);
        assert(s@.subrange(from as int, k + 1) == s@.subrange(from as int, k as int).push(s@[k as int]));
        k = k + 1;
    }
    r
}

} // verus!
