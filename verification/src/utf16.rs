//! UTF-16 offsets: the provenance ranges that the WebView uses.
use vstd::prelude::*;

verus! {

pub open spec fn valid_scalar(x: u32) -> bool {
    x <= 0x10ffff && !(0xd800 <= x && x <= 0xdfff)
}

/// Wraps `char::from_u32`, which std documents as returning the character
/// with that code point, or `None` for a surrogate or a value above
/// `0x10FFFF`.
#[verifier::external_body]
fn char_from_u32(x: u32) -> (r: Option<char>)
    ensures
        r == (if valid_scalar(x) {
            Some(x as char)
        } else {
            None
        }),
{
    char::from_u32(x)
}

/// The UTF-16 code units of one character.
pub open spec fn units_of(c: char) -> Seq<u16> {
    let u = c as u32;
    if u < 0x10000 {
        seq![u as u16]
    } else {
        seq![(0xd800 + (u - 0x10000) / 1024) as u16, (0xdc00 + (u - 0x10000) % 1024) as u16]
    }
}

/// `str::encode_utf16`.
pub open spec fn encode_utf16(s: Seq<char>) -> Seq<u16>
    decreases s.len(),
{
    if s.len() == 0 {
        seq![]
    } else {
        encode_utf16(s.drop_last()) + units_of(s.last())
    }
}

pub open spec fn is_high(u: u16) -> bool {
    0xd800 <= u && u <= 0xdbff
}

pub open spec fn is_low(u: u16) -> bool {
    0xdc00 <= u && u <= 0xdfff
}

/// `String::from_utf16`: `None` when a surrogate is unpaired.
pub open spec fn decode_utf16(u: Seq<u16>) -> Option<Seq<char>>
    decreases u.len(),
{
    if u.len() == 0 {
        Some(seq![])
    } else if !is_high(u[0]) && !is_low(u[0]) {
        match decode_utf16(u.drop_first()) {
            Some(rest) => Some(seq![(u[0] as u32) as char] + rest),
            None => None,
        }
    } else if is_high(u[0]) && u.len() >= 2 && is_low(u[1]) {
        match decode_utf16(u.subrange(2, u.len() as int)) {
            Some(rest) => Some(
                seq![(0x10000 + (u[0] - 0xd800) * 1024 + (u[1] - 0xdc00)) as char] + rest,
            ),
            None => None,
        }
    } else {
        None
    }
}

fn units_of_exec(c: char, out: &mut Vec<u16>)
    ensures
        final(out)@ == old(out)@ + units_of(c),
{
    let u = c as u32;
    if u < 0x10000 {
        out.push(u as u16);
        assert(out@ =~= old(out)@ + units_of(c));
    } else {
        assert(u <= 0x10ffff);
        out.push((0xd800 + (u - 0x10000) / 1024) as u16);
        out.push((0xdc00 + (u - 0x10000) % 1024) as u16);
        assert(out@ =~= old(out)@ + units_of(c));
    }
}

/// The UTF-16 code units of a string.
pub fn encode_utf16_exec(s: &[char]) -> (r: Vec<u16>)
    ensures
        r@ == encode_utf16(s@),
{
    let mut r: Vec<u16> = Vec::new();
    let n = s.len();
    for i in 0..n
        invariant
            n == s@.len(),
            r@ == encode_utf16(s@.take(i as int)),
    {
        assert(s@.take(i + 1).drop_last() == s@.take(i as int));
        assert(s@.take(i + 1).last() == s@[i as int]);
        units_of_exec(s[i], &mut r);
    }
    assert(s@.take(n as int) == s@);
    r
}

/// The number of UTF-16 code units of a string.
pub fn utf16_len(s: &[char]) -> (r: usize)
    requires
        s@.len() <= usize::MAX / 2,
    ensures
        r == encode_utf16(s@).len(),
        r <= 2 * s@.len(),
{
    let mut r: usize = 0;
    let n = s.len();
    for i in 0..n
        invariant
            n == s@.len(),
            n <= usize::MAX / 2,
            r == encode_utf16(s@.take(i as int)).len(),
            r <= 2 * i,
    {
        assert(s@.take(i + 1).drop_last() == s@.take(i as int));
        assert(s@.take(i + 1).last() == s@[i as int]);
        if (s[i] as u32) < 0x10000 {
            r = r + 1;
        } else {
            r = r + 2;
        }
    }
    assert(s@.take(n as int) == s@);
    r
}

/// The number of UTF-16 code units of the first `upto` characters.
pub fn utf16_len_upto(s: &[char], upto: usize) -> (r: usize)
    requires
        upto <= s@.len(),
        s@.len() <= usize::MAX / 2,
    ensures
        r == encode_utf16(s@.take(upto as int)).len(),
        r <= 2 * upto,
{
    let mut r: usize = 0;
    for i in 0..upto
        invariant
            upto <= s@.len(),
            s@.len() <= usize::MAX / 2,
            r == encode_utf16(s@.take(i as int)).len(),
            r <= 2 * i,
    {
        assert(s@.take(i + 1).drop_last() == s@.take(i as int));
        assert(s@.take(i + 1).last() == s@[i as int]);
        if (s[i] as u32) < 0x10000 {
            r = r + 1;
        } else {
            r = r + 2;
        }
    }
    r
}

/// Decodes UTF-16 code units `u[from..to]`.
pub fn decode_utf16_exec(u: &[u16], from: usize, to: usize) -> (r: Option<Vec<char>>)
    requires
        from <= to <= u@.len(),
    ensures
        match r {
            Some(v) => decode_utf16(u@.subrange(from as int, to as int)) == Some(v@),
            None => decode_utf16(u@.subrange(from as int, to as int)).is_none(),
        },
    decreases to - from,
{
    let ghost s = u@.subrange(from as int, to as int);
    if from == to {
        return Some(Vec::new());
    }
    let a = u[from];
    if !(0xd800 <= a && a <= 0xdbff) && !(0xdc00 <= a && a <= 0xdfff) {
        assert(s.drop_first() == u@.subrange(from + 1, to as int));
        match decode_utf16_exec(u, from + 1, to) {
            Some(rest) => {
                let c = char_from_u32(a as u32);
                match c {
                    Some(ch) => {
                        let mut v: Vec<char> = Vec::new();
                        v.push(ch);
                        crate::text::extend_chars(&mut v, rest.as_slice());
                        assert(v@ =~= seq![(s[0] as u32) as char] + rest@);
                        Some(v)
                    },
                    None => {
                        assert(false);
                        None
                    },
                }
            },
            None => None,
        }
    } else if 0xd800 <= a && a <= 0xdbff && to - from >= 2 && 0xdc00 <= u[from + 1] && u[from
        + 1] <= 0xdfff {
        let b = u[from + 1];
        assert(s.subrange(2, s.len() as int) == u@.subrange(from + 2, to as int));
        match decode_utf16_exec(u, from + 2, to) {
            Some(rest) => {
                let x: u32 = 0x10000 + ((a - 0xd800) as u32) * 1024 + ((b - 0xdc00) as u32);
                let c = char_from_u32(x);
                match c {
                    Some(ch) => {
                        let mut v: Vec<char> = Vec::new();
                        v.push(ch);
                        crate::text::extend_chars(&mut v, rest.as_slice());
                        assert(v@ =~= seq![
                            (0x10000 + (s[0] - 0xd800) * 1024 + (s[1] - 0xdc00)) as char,
                        ] + rest@);
                        Some(v)
                    },
                    None => {
                        assert(false);
                        None
                    },
                }
            },
            None => None,
        }
    } else {
        None
    }
}


pub proof fn lemma_encode_concat(a: Seq<char>, b: Seq<char>)
    ensures
        encode_utf16(a + b) == encode_utf16(a) + encode_utf16(b),
    decreases b.len(),
{
    if b.len() == 0 {
        assert(a + b == a);
        assert(encode_utf16(b) =~= Seq::<u16>::empty());
    } else {
        lemma_encode_concat(a, b.drop_last());
        assert((a + b).drop_last() == a + b.drop_last());
        assert((a + b).last() == b.last());
        assert(encode_utf16(a) + encode_utf16(b) =~= encode_utf16(a) + encode_utf16(b.drop_last())
            + units_of(b.last()));
    }
}

proof fn lemma_decode_one(c: char, rest: Seq<u16>, tail: Seq<char>)
    requires
        decode_utf16(rest) == Some(tail),
    ensures
        decode_utf16(units_of(c) + rest) == Some(seq![c] + tail),
{
    let u = c as u32;
    let w = units_of(c) + rest;
    assert(u <= 0x10ffff && !(0xd800 <= u && u <= 0xdfff));
    if u < 0x10000 {
        assert(w[0] == u as u16);
        assert((u as u16) as u32 == u);
        assert(w.drop_first() == rest);
        assert(((u as u16) as u32) as char == c);
    } else {
        let q = (u - 0x10000) / 1024;
        let r = (u - 0x10000) % 1024;
        assert(q < 1024 && r < 1024 && 0x10000 + q * 1024 + r == u) by (nonlinear_arith)
            requires
                0x10000 <= u <= 0x10ffff,
                q == (u - 0x10000) / 1024,
                r == (u - 0x10000) % 1024,
        ;
        assert(w[0] == (0xd800 + q) as u16);
        assert(w[1] == (0xdc00 + r) as u16);
        assert(w.subrange(2, w.len() as int) == rest);
        assert((0x10000 + (w[0] - 0xd800) * 1024 + (w[1] - 0xdc00)) == u);
        assert((u as char) == c);
    }
}

/// Decoding the UTF-16 units of a string gives the string back.
pub proof fn lemma_decode_encode(s: Seq<char>)
    ensures
        decode_utf16(encode_utf16(s)) == Some(s),
    decreases s.len(),
{
    if s.len() == 0 {
        assert(encode_utf16(s) =~= Seq::<u16>::empty());
    } else {
        let c = s[0];
        let t = s.drop_first();
        lemma_decode_encode(t);
        assert(seq![c] + t == s);
        lemma_encode_concat(seq![c], t);
        assert(seq![c].drop_last() =~= Seq::<char>::empty());
        assert(encode_utf16(seq![c]) =~= encode_utf16(Seq::<char>::empty()) + units_of(c));
        assert(encode_utf16(Seq::<char>::empty()) =~= Seq::<u16>::empty());
        assert(encode_utf16(seq![c]) =~= units_of(c));
        lemma_decode_one(c, encode_utf16(t), t);
    }
}

/// The UTF-16 range the wikifier computes for an excerpt found at character
/// index `i` of a source reads the excerpt back: a located claim always
/// passes the writer's check against its source.
pub proof fn law_located_span_reads_back(content: Seq<char>, span: Seq<char>, i: int)
    requires
        crate::text::occurs_at(content, span, i),
    ensures
        ({
            let start = encode_utf16(content.take(i)).len();
            let end = start + encode_utf16(span).len();
            &&& end <= encode_utf16(content).len()
            &&& decode_utf16(encode_utf16(content).subrange(start as int, end as int)) == Some(span)
        }),
{
    let a = content.take(i);
    let rest = content.subrange(i + span.len(), content.len() as int);
    assert(content == a + span + rest);
    lemma_encode_concat(a + span, rest);
    lemma_encode_concat(a, span);
    let e = encode_utf16(content);
    let start = encode_utf16(a).len();
    let end = start + encode_utf16(span).len();
    assert(e == encode_utf16(a) + encode_utf16(span) + encode_utf16(rest));
    assert(e.subrange(start as int, end as int) =~= encode_utf16(span));
    lemma_decode_encode(span);
}

} // verus!
