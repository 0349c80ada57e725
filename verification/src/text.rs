use vstd::prelude::*;

verus! {

// ---------------------------------------------------------------------------
// Strings and character vectors
// ---------------------------------------------------------------------------

/// Appends one character to a string.
/// Wraps `String::push`, which std documents as appending the character to
/// the end of the string.
#[verifier::external_body]
pub(crate) fn push_char(s: &mut String, c: char)
    ensures
        final(s)@ == old(s)@.push(c),
{
    s.push(c);
}

/// The characters of a string slice, in order.
pub fn chars_of(s: &str) -> (v: Vec<char>)
    ensures
        v@ == s@,
{
    let mut v: Vec<char> = Vec::new();
    for c in it: s.chars()
        invariant
            v@ == it.seq().take(it.index() as int),
            it.seq() == s@,
    {
        v.push(c);
    }
    v
}

/// A string holding exactly the given characters.
pub fn string_of(v: &[char]) -> (s: String)
    ensures
        s@ == v@,
{
    let mut s = String::new();
    let n = v.len();
    for i in 0..n
        invariant
            n == v@.len(),
            s@ == v@.take(i as int),
    {
        push_char(&mut s, v[i]);
        assert(v@.take(i + 1) == v@.take(i as int).push(v@[i as int]));
    }
    assert(v@.take(n as int) == v@);
    s
}

/// Appends all characters of `src` to `dst`.
pub fn extend_chars(dst: &mut Vec<char>, src: &[char])
    ensures
        final(dst)@ == old(dst)@ + src@,
{
    let n = src.len();
    for i in 0..n
        invariant
            n == src@.len(),
            dst@ == old(dst)@ + src@.take(i as int),
    {
        dst.push(src[i]);
        assert(src@.take(i + 1) == src@.take(i as int).push(src@[i as int]));
    }
    assert(src@.take(n as int) == src@);
}

/// Appends all characters of a string slice to a character vector.
pub fn extend_str(dst: &mut Vec<char>, src: &str)
    ensures
        final(dst)@ == old(dst)@ + src@,
{
    let v = chars_of(src);
    extend_chars(dst, v.as_slice());
}

/// Character-wise equality of two character slices.
pub fn chars_eq(a: &[char], b: &[char]) -> (r: bool)
    ensures
        r == (a@ == b@),
{
    if a.len() != b.len() {
        return false;
    }
    let n = a.len();
    for i in 0..n
        invariant
            n == a@.len(),
            n == b@.len(),
            a@.take(i as int) == b@.take(i as int),
    {
        if a[i] != b[i] {
            assert(a@[i as int] != b@[i as int]);
            return false;
        }
        assert(a@.take(i + 1) == a@.take(i as int).push(a@[i as int]));
        assert(b@.take(i + 1) == b@.take(i as int).push(b@[i as int]));
    }
    assert(a@.take(n as int) == a@);
    assert(b@.take(n as int) == b@);
    true
}

/// Character-wise equality of two strings.
pub fn str_eq(a: &str, b: &str) -> (r: bool)
    ensures
        r == (a@ == b@),
{
    let x = chars_of(a);
    let y = chars_of(b);
    chars_eq(x.as_slice(), y.as_slice())
}

// ---------------------------------------------------------------------------
// Whitespace
// ---------------------------------------------------------------------------

/// Unicode `White_Space`, the property that `char::is_whitespace` tests.
pub open spec fn is_ws(c: char) -> bool {
    let u = c as u32;
    (0x9 <= u && u <= 0xd) || u == 0x20 || u == 0x85 || u == 0xa0 || u == 0x1680 || (0x2000
        <= u && u <= 0x200a) || u == 0x2028 || u == 0x2029 || u == 0x202f || u == 0x205f || u
        == 0x3000
}

pub fn is_whitespace(c: char) -> (b: bool)
    ensures
        b == is_ws(c),
{
    let u = c as u32;
    (0x9 <= u && u <= 0xd) || u == 0x20 || u == 0x85 || u == 0xa0 || u == 0x1680 || (0x2000
        <= u && u <= 0x200a) || u == 0x2028 || u == 0x2029 || u == 0x202f || u == 0x205f || u
        == 0x3000
}

/// The string without its leading whitespace.
pub open spec fn trim_start(s: Seq<char>) -> Seq<char>
    decreases s.len(),
{
    if s.len() > 0 && is_ws(s[0]) {
        trim_start(s.drop_first())
    } else {
        s
    }
}

/// The string without its trailing whitespace.
pub open spec fn trim_end(s: Seq<char>) -> Seq<char>
    decreases s.len(),
{
    if s.len() > 0 && is_ws(s.last()) {
        trim_end(s.drop_last())
    } else {
        s
    }
}

/// `str::trim`: the string without leading and trailing whitespace.
pub open spec fn trim(s: Seq<char>) -> Seq<char> {
    trim_end(trim_start(s))
}

proof fn lemma_trim_start_skip(s: Seq<char>, i: int)
    requires
        0 <= i <= s.len(),
        forall|k: int| 0 <= k < i ==> is_ws(#[trigger] s[k]),
    ensures
        trim_start(s) == trim_start(s.subrange(i, s.len() as int)),
    decreases i,
{
    if i > 0 {
        assert(s.drop_first() == s.subrange(1, s.len() as int));
        let t = s.drop_first();
        assert forall|k: int| 0 <= k < i - 1 implies is_ws(#[trigger] t[k]) by {
            assert(t[k] == s[k + 1]);
        }
        lemma_trim_start_skip(t, i - 1);
        assert(t.subrange(i - 1, t.len() as int) == s.subrange(i, s.len() as int));
    } else {
        assert(s.subrange(0, s.len() as int) == s);
    }
}

proof fn lemma_trim_end_skip(s: Seq<char>, j: int)
    requires
        0 <= j <= s.len(),
        forall|k: int| j <= k < s.len() ==> is_ws(#[trigger] s[k]),
    ensures
        trim_end(s) == trim_end(s.subrange(0, j)),
    decreases s.len() - j,
{
    if j < s.len() {
        let t = s.drop_last();
        assert forall|k: int| j <= k < t.len() implies is_ws(#[trigger] t[k]) by {
            assert(t[k] == s[k]);
        }
        lemma_trim_end_skip(t, j);
        assert(t.subrange(0, j) == s.subrange(0, j));
    } else {
        assert(s.subrange(0, j) == s);
    }
}

/// `str::trim` on a character slice.
pub fn trim_chars(v: &[char]) -> (r: Vec<char>)
    ensures
        r@ == trim(v@),
{
    let n = v.len();
    let mut i: usize = 0;
    while i < n && is_whitespace(v[i])
        invariant
            n == v@.len(),
            0 <= i <= n,
            forall|k: int| 0 <= k < i ==> is_ws(#[trigger] v@[k]),
        decreases n - i,
    {
        i = i + 1;
    }
    proof {
        lemma_trim_start_skip(v@, i as int);
        if i < n {
            assert(!is_ws(v@[i as int]));
            assert(trim_start(v@.subrange(i as int, n as int)) == v@.subrange(i as int, n as int));
        } else {
            assert(v@.subrange(i as int, n as int).len() == 0);
        }
    }
    let mut j: usize = n;
    while j > i && is_whitespace(v[j - 1])
        invariant
            n == v@.len(),
            0 <= i <= j <= n,
            forall|k: int| j <= k < n ==> is_ws(#[trigger] v@[k]),
        decreases j,
    {
        j = j - 1;
    }
    let ghost u = v@.subrange(i as int, n as int);
    proof {
        assert forall|k: int| j - i <= k < u.len() implies is_ws(#[trigger] u[k]) by {
            assert(u[k] == v@[k + i]);
        }
        lemma_trim_end_skip(u, j - i);
        let w = u.subrange(0, j - i);
        if j > i {
            assert(w.last() == v@[j - 1]);
        }
    }
    let mut r: Vec<char> = Vec::new();
    let mut k: usize = i;
    while k < j
        invariant
            n == v@.len(),
            0 <= i <= k <= j <= n,
            r@ == v@.subrange(i as int, k as int),
        decreases j - k,
    {
        r.push(v[k]);
        assert(v@.subrange(i as int, k + 1) == v@.subrange(i as int, k as int).push(v@[k as int]));
        k = k + 1;
    }
    assert(u.subrange(0, j - i) == v@.subrange(i as int, j as int));
    r
}

/// `str::trim`, returning an owned string.
pub fn trim_str(s: &str) -> (r: String)
    ensures
        r@ == trim(s@),
{
    let v = chars_of(s);
    let t = trim_chars(v.as_slice());
    string_of(t.as_slice())
}

// ---------------------------------------------------------------------------
// Splitting into pieces
// ---------------------------------------------------------------------------

/// The maximal runs of characters that are not separators, in order: what
/// `s.split(sep).filter(|x| !x.is_empty())` yields.
pub open spec fn pieces(s: Seq<char>, sep: spec_fn(char) -> bool) -> Seq<Seq<char>>
    decreases s.len(),
{
    if s.len() == 0 {
        seq![]
    } else {
        let p = pieces(s.drop_last(), sep);
        let c = s.last();
        if sep(c) {
            p
        } else if s.len() >= 2 && !sep(s[s.len() - 2]) {
            p.update(p.len() - 1, p.last().push(c))
        } else {
            p.push(seq![c])
        }
    }
}

/// The separator predicate for whitespace splitting.
pub open spec fn ws_sep() -> spec_fn(char) -> bool {
    |c: char| is_ws(c)
}

/// `str::split_whitespace`: the words of a string.
pub open spec fn words(s: Seq<char>) -> Seq<Seq<char>> {
    pieces(s, ws_sep())
}

/// Joins pieces with a separator between consecutive pieces.
pub open spec fn join(p: Seq<Seq<char>>, sep: Seq<char>) -> Seq<char>
    decreases p.len(),
{
    if p.len() == 0 {
        seq![]
    } else if p.len() == 1 {
        p[0]
    } else {
        join(p.drop_last(), sep) + sep + p.last()
    }
}

/// `normalize_space`: the words of the string joined by single spaces.
pub open spec fn normalized(s: Seq<char>) -> Seq<char> {
    join(words(s), seq![' '])
}

pub proof fn lemma_pieces_nonempty(s: Seq<char>, sep: spec_fn(char) -> bool)
    requires
        s.len() > 0,
        !sep(s.last()),
    ensures
        pieces(s, sep).len() > 0,
    decreases s.len(),
{
    if s.len() >= 2 && !sep(s[s.len() - 2]) {
        lemma_pieces_nonempty(s.drop_last(), sep);
    }
}

/// Every piece is non-empty and holds no separator.
pub proof fn lemma_pieces_shape(s: Seq<char>, sep: spec_fn(char) -> bool)
    ensures
        forall|k: int|
            0 <= k < pieces(s, sep).len() ==> (#[trigger] pieces(s, sep)[k]).len() > 0,
        forall|k: int, m: int|
            0 <= k < pieces(s, sep).len() && 0 <= m < pieces(s, sep)[k].len() ==> !sep(
                #[trigger] pieces(s, sep)[k][m],
            ),
    decreases s.len(),
{
    if s.len() > 0 {
        lemma_pieces_shape(s.drop_last(), sep);
        let p = pieces(s.drop_last(), sep);
        let c = s.last();
        if !sep(c) && s.len() >= 2 && !sep(s[s.len() - 2]) {
            lemma_pieces_nonempty(s.drop_last(), sep);
            let q = pieces(s, sep);
            assert forall|k: int, m: int|
                0 <= k < q.len() && 0 <= m < q[k].len() implies !sep(#[trigger] q[k][m]) by {
                if k == p.len() - 1 {
                    if m < p.last().len() {
                        assert(q[k][m] == p[k][m]);
                    }
                } else {
                    assert(q[k] == p[k]);
                }
            }
        } else if !sep(c) {
            let q = pieces(s, sep);
            assert forall|k: int, m: int|
                0 <= k < q.len() && 0 <= m < q[k].len() implies !sep(#[trigger] q[k][m]) by {
                if k < p.len() {
                    assert(q[k] == p[k]);
                }
            }
        }
    }
}

proof fn lemma_join_extend(p: Seq<Seq<char>>, sep: Seq<char>, c: char)
    requires
        p.len() > 0,
    ensures
        join(p.update(p.len() - 1, p.last().push(c)), sep) == join(p, sep).push(c),
{
    let q = p.update(p.len() - 1, p.last().push(c));
    if p.len() == 1 {
        assert(q[0] == p[0].push(c));
    } else {
        assert(q.drop_last() == p.drop_last());
        assert(q.last() == p.last().push(c));
        assert(join(q, sep) == join(q.drop_last(), sep) + sep + q.last());
        assert(join(p, sep) == join(p.drop_last(), sep) + sep + p.last());
        assert((join(p.drop_last(), sep) + sep + p.last()).push(c) == join(p.drop_last(), sep)
            + sep + p.last().push(c));
    }
}

proof fn lemma_join_push(p: Seq<Seq<char>>, sep: Seq<char>, w: Seq<char>)
    ensures
        join(p.push(w), sep) == if p.len() == 0 {
            w
        } else {
            join(p, sep) + sep + w
        },
{
    assert(p.push(w).drop_last() == p);
    if p.len() == 0 {
        assert(p.push(w)[0] == w);
    }
}

/// The step of `pieces` when one more character is read.
pub proof fn lemma_pieces_step(s: Seq<char>, sep: spec_fn(char) -> bool, i: int)
    requires
        0 <= i < s.len(),
    ensures
        pieces(s.take(i + 1), sep) == ({
            let p = pieces(s.take(i), sep);
            let c = s[i];
            if sep(c) {
                p
            } else if i >= 1 && !sep(s[i - 1]) {
                p.update(p.len() - 1, p.last().push(c))
            } else {
                p.push(seq![c])
            }
        }),
        i >= 1 && !sep(s[i - 1]) ==> pieces(s.take(i), sep).len() > 0,
{
    let t = s.take(i + 1);
    assert(t.drop_last() == s.take(i));
    assert(t.last() == s[i]);
    if i >= 1 {
        assert(t[t.len() - 2] == s[i - 1]);
        if !sep(s[i - 1]) {
            assert(s.take(i).last() == s[i - 1]);
            lemma_pieces_nonempty(s.take(i), sep);
        }
    }
}

/// `normalize_space` on a character slice; also returns the number of words.
pub fn normalize_chars(v: &[char]) -> (r: (Vec<char>, usize))
    ensures
        r.0@ == normalized(v@),
        r.1 == words(v@).len(),
{
    let n = v.len();
    let mut out: Vec<char> = Vec::new();
    let mut count: usize = 0;
    for i in 0..n
        invariant
            n == v@.len(),
            out@ == join(words(v@.take(i as int)), seq![' ']),
            count == words(v@.take(i as int)).len(),
            count <= i,
    {
        let c = v[i];
        proof {
            lemma_pieces_step(v@, ws_sep(), i as int);
        }
        if is_whitespace(c) {
        } else if i >= 1 && !is_whitespace(v[i - 1]) {
            proof {
                lemma_join_extend(words(v@.take(i as int)), seq![' '], c);
            }
            out.push(c);
        } else {
            proof {
                lemma_join_push(words(v@.take(i as int)), seq![' '], seq![c]);
            }
            if count > 0 {
                out.push(' ');
            }
            out.push(c);
            count = count + 1;
        }
    }
    assert(v@.take(n as int) == v@);
    (out, count)
}

/// Collapses every run of whitespace into one space and drops leading and
/// trailing whitespace.
pub fn normalize_space(s: &str) -> (r: String)
    ensures
        r@ == normalized(s@),
{
    let v = chars_of(s);
    let (out, _) = normalize_chars(v.as_slice());
    string_of(out.as_slice())
}

/// `s.split_whitespace().count()`.
pub fn word_count(s: &str) -> (r: usize)
    ensures
        r == words(s@).len(),
{
    let v = chars_of(s);
    let (_, count) = normalize_chars(v.as_slice());
    count
}


// ---------------------------------------------------------------------------
// Searching
// ---------------------------------------------------------------------------

/// `pat` occurs in `s` starting at character index `i`.
pub open spec fn occurs_at(s: Seq<char>, pat: Seq<char>, i: int) -> bool {
    0 <= i && i + pat.len() <= s.len() && s.subrange(i, i + pat.len()) == pat
}

/// `str::contains` with a string pattern.
pub open spec fn contains(s: Seq<char>, pat: Seq<char>) -> bool {
    exists|i: int| occurs_at(s, pat, i)
}

/// `str::starts_with`.
pub open spec fn starts_with(s: Seq<char>, pat: Seq<char>) -> bool {
    occurs_at(s, pat, 0)
}

/// `str::ends_with`.
pub open spec fn ends_with(s: Seq<char>, pat: Seq<char>) -> bool {
    occurs_at(s, pat, s.len() - pat.len())
}

/// The character index of the first occurrence of `pat` in `s`, if any.
#[verifier::opaque]
pub open spec fn first_occurrence(s: Seq<char>, pat: Seq<char>) -> Option<int> {
    if contains(s, pat) {
        Some(choose|i: int| occurs_at(s, pat, i) && forall|j: int| 0 <= j < i ==> !occurs_at(s, pat, j))
    } else {
        None
    }
}

pub fn occurs_at_exec(s: &[char], pat: &[char], i: usize) -> (r: bool)
    ensures
        r == occurs_at(s@, pat@, i as int),
{
    if i > s.len() || pat.len() > s.len() - i {
        return false;
    }
    let m = pat.len();
    for k in 0..m
        invariant
            m == pat@.len(),
            i + m <= s.len(),
            k <= m,
            forall|q: int| 0 <= q < k ==> s@[i + q] == pat@[q],
    {
        if s[i + k] != pat[k] {
            assert(s@.subrange(i as int, i + m)[k as int] != pat@[k as int]);
            return false;
        }
    }
    assert(s@.subrange(i as int, i + m) == pat@);
    true
}

/// The first occurrence of `pat` in `s` at or after `from`.
pub fn find_from(s: &[char], pat: &[char], from: usize) -> (r: Option<usize>)
    ensures
        match r {
            Some(i) => from <= i && occurs_at(s@, pat@, i as int) && forall|j: int|
                from <= j < i ==> !occurs_at(s@, pat@, j),
            None => forall|j: int| from <= j ==> !occurs_at(s@, pat@, j),
        },
{
    if pat.len() > s.len() {
        return None;
    }
    let last = s.len() - pat.len();
    let mut i: usize = from;
    while i < last
        invariant
            from <= i,
            last == s@.len() - pat@.len(),
            forall|j: int| from <= j < i ==> !occurs_at(s@, pat@, j),
        decreases last - i,
    {
        if occurs_at_exec(s, pat, i) {
            return Some(i);
        }
        i = i + 1;
    }
    if i == last && occurs_at_exec(s, pat, i) {
        return Some(i);
    }
    None
}

/// `str::find` measured in characters.
pub fn find_chars(s: &[char], pat: &[char]) -> (r: Option<usize>)
    ensures
        match r {
            Some(i) => first_occurrence(s@, pat@) == Some(i as int) && occurs_at(s@, pat@, i as int),
            None => first_occurrence(s@, pat@).is_none(),
        },
{
    reveal(first_occurrence);
    let r = find_from(s, pat, 0);
    match r {
        Some(i) => {
            assert(contains(s@, pat@));
            let ghost k = choose|k: int| occurs_at(s@, pat@, k) && forall|j: int| 0 <= j < k ==> !occurs_at(s@, pat@, j);
            assert(k == i as int) by {
                if k < i {
                } else if k > i {
                }
            }
            r
        },
        None => {
            assert(!contains(s@, pat@));
            r
        },
    }
}

/// `str::contains` with a string pattern.
pub fn contains_chars(s: &[char], pat: &[char]) -> (r: bool)
    ensures
        r == contains(s@, pat@),
{
    match find_from(s, pat, 0) {
        Some(i) => true,
        None => {
            assert forall|j: int| !occurs_at(s@, pat@, j) by {
                if j >= 0 {
                }
            }
            false
        },
    }
}

/// `str::starts_with`.
pub fn starts_with_chars(s: &[char], pat: &[char]) -> (r: bool)
    ensures
        r == starts_with(s@, pat@),
{
    occurs_at_exec(s, pat, 0)
}

/// `str::ends_with`.
pub fn ends_with_chars(s: &[char], pat: &[char]) -> (r: bool)
    ensures
        r == ends_with(s@, pat@),
{
    if pat.len() > s.len() {
        false
    } else {
        occurs_at_exec(s, pat, s.len() - pat.len())
    }
}

// ---------------------------------------------------------------------------
// Unicode case and classes
// ---------------------------------------------------------------------------

/// What `str::to_lowercase` returns for a string.
pub uninterp spec fn lowercase(s: Seq<char>) -> Seq<char>;

/// Unicode lower-casing of a whole string.
/// Wraps `str::to_lowercase`; its result is named by `lowercase`, and nothing
/// more is claimed of it.
#[verifier::external_body]
pub(crate) fn to_lowercase(s: &str) -> (r: String)
    ensures
        r@ == lowercase(s@),
{
    s.to_lowercase()
}

/// An ASCII letter or digit.
pub open spec fn ascii_alnum(c: char) -> bool {
    let u = c as u32;
    (0x30 <= u && u <= 0x39) || (0x41 <= u && u <= 0x5a) || (0x61 <= u && u <= 0x7a)
}

/// What `char::is_alphanumeric` returns for a character.
pub uninterp spec fn alphanumeric(c: char) -> bool;

/// Wraps `char::is_alphanumeric` (Unicode `Alphabetic` or `Numeric`). Its
/// result is named by `alphanumeric`; the contract also claims that on ASCII
/// characters it holds exactly of letters and digits, as the std
/// documentation of `is_alphabetic` and `is_numeric` shows.
#[verifier::external_body]
pub(crate) fn is_alphanumeric(c: char) -> (b: bool)
    ensures
        b == alphanumeric(c),
        (c as u32) < 128 ==> (b == ascii_alnum(c)),
{
    c.is_alphanumeric()
}

/// ASCII lower-casing of one character.
pub open spec fn ascii_lower(c: char) -> char {
    let u = c as u32;
    if 0x41 <= u && u <= 0x5a {
        ((u + 32) as u8) as char
    } else {
        c
    }
}

pub fn ascii_lower_exec(c: char) -> (r: char)
    ensures
        r == ascii_lower(c),
{
    let u = c as u32;
    if 0x41 <= u && u <= 0x5a {
        ((u + 32) as u8) as char
    } else {
        c
    }
}

/// `str::eq_ignore_ascii_case`.
pub open spec fn eq_ignore_ascii_case(a: Seq<char>, b: Seq<char>) -> bool {
    a.len() == b.len() && forall|i: int| 0 <= i < a.len() ==> ascii_lower(#[trigger] a[i])
        == ascii_lower(b[i])
}

pub fn eq_ignore_ascii_case_exec(a: &[char], b: &[char]) -> (r: bool)
    ensures
        r == eq_ignore_ascii_case(a@, b@),
{
    if a.len() != b.len() {
        return false;
    }
    let n = a.len();
    for i in 0..n
        invariant
            n == a@.len(),
            n == b@.len(),
            forall|k: int| 0 <= k < i ==> ascii_lower(#[trigger] a@[k]) == ascii_lower(b@[k]),
    {
        if ascii_lower_exec(a[i]) != ascii_lower_exec(b[i]) {
            return false;
        }
    }
    true
}

// ---------------------------------------------------------------------------
// Decimal numbers
// ---------------------------------------------------------------------------

pub open spec fn digit_char(d: nat) -> char {
    ((d + 48) as u8) as char
}

pub open spec fn is_digit(c: char) -> bool {
    0x30 <= (c as u32) && (c as u32) <= 0x39
}

/// What the regular-expression class `\d` (a Unicode decimal digit, as the
/// `regex` crate defines it) holds of a character.
pub uninterp spec fn digit_class(c: char) -> bool;

/// What the regular-expression class `\w` (a Unicode word character, as the
/// `regex` crate defines it) holds of a character.
pub uninterp spec fn word_class(c: char) -> bool;

/// Whether `\d` matches the character, by `regex::Regex::is_match`; named by
/// `digit_class`. Among ASCII characters the class holds exactly the digits
/// `0`-`9`.
#[verifier::external_body]
fn regex_digit(c: char) -> (b: bool)
    ensures
        b == digit_class(c),
        (c as u32) < 128 ==> b == is_digit(c),
{
    regex::Regex::new(r"\A\d\z").map(|re| re.is_match(&c.to_string())).unwrap_or(false)
}

/// Whether `\w` matches the character, by `regex::Regex::is_match`; named by
/// `word_class`. Among ASCII characters the class holds exactly the letters,
/// the digits and `_`.
#[verifier::external_body]
fn regex_word(c: char) -> (b: bool)
    ensures
        b == word_class(c),
        (c as u32) < 128 ==> b == (ascii_alnum(c) || c == '_'),
{
    regex::Regex::new(r"\A\w\z").map(|re| re.is_match(&c.to_string())).unwrap_or(false)
}

/// A character that `\d` matches: an ASCII digit, or a non-ASCII decimal
/// digit of the `regex` crate's Unicode class.
pub open spec fn unicode_digit(c: char) -> bool {
    if (c as u32) < 128 {
        is_digit(c)
    } else {
        digit_class(c)
    }
}

/// A character that `\w` matches: an ASCII letter, digit or `_`, or a
/// non-ASCII word character of the `regex` crate's Unicode class.
pub open spec fn word_char(c: char) -> bool {
    if (c as u32) < 128 {
        ascii_alnum(c) || c == '_'
    } else {
        word_class(c)
    }
}

pub fn unicode_digit_exec(c: char) -> (b: bool)
    ensures
        b == unicode_digit(c),
{
    if (c as u32) < 128 {
        0x30 <= (c as u32) && (c as u32) <= 0x39
    } else {
        regex_digit(c)
    }
}

pub fn word_char_exec(c: char) -> (b: bool)
    ensures
        b == word_char(c),
{
    if (c as u32) < 128 {
        let u = c as u32;
        (0x30 <= u && u <= 0x39) || (0x41 <= u && u <= 0x5a) || (0x61 <= u && u <= 0x7a) || c == '_'
    } else {
        regex_word(c)
    }
}

pub open spec fn digit_value(c: char) -> nat {
    ((c as u32) - 48) as nat
}

/// The decimal representation of a number, as `Display` writes it.
pub open spec fn dec(n: nat) -> Seq<char>
    decreases n,
{
    if n < 10 {
        seq![digit_char(n)]
    } else {
        dec(n / 10).push(digit_char(n % 10))
    }
}

/// The value of a string of ASCII digits.
pub open spec fn digits_value(s: Seq<char>) -> nat
    decreases s.len(),
{
    if s.len() == 0 {
        0
    } else {
        digits_value(s.drop_last()) * 10 + digit_value(s.last())
    }
}

pub open spec fn all_digits(s: Seq<char>) -> bool {
    forall|i: int| 0 <= i < s.len() ==> is_digit(#[trigger] s[i])
}

pub proof fn lemma_digit_char(d: nat)
    requires
        d < 10,
    ensures
        is_digit(digit_char(d)),
        digit_value(digit_char(d)) == d,
{
    assert(((d + 48) as u8) as u32 == d + 48);
}

pub proof fn lemma_dec_digits(n: nat)
    ensures
        all_digits(dec(n)),
        dec(n).len() > 0,
        digits_value(dec(n)) == n,
    decreases n,
{
    assert(n % 10 < 10 && (n / 10) * 10 + n % 10 == n) by (nonlinear_arith);
    lemma_digit_char(n % 10);
    if n >= 10 {
        lemma_dec_digits(n / 10);
        let d = dec(n);
        assert(d.drop_last() == dec(n / 10));
        assert(d.last() == digit_char(n % 10));
        assert(digits_value(d) == digits_value(dec(n / 10)) * 10 + digit_value(digit_char(n % 10)));
        assert forall|i: int| 0 <= i < d.len() implies is_digit(#[trigger] d[i]) by {
            if i < d.len() - 1 {
                assert(d[i] == dec(n / 10)[i]);
            }
        }
    } else {
        let d = dec(n);
        assert(n % 10 == n);
        assert(d.drop_last() =~= Seq::<char>::empty());
        assert(digits_value(d.drop_last()) == 0);
        assert(d.last() == digit_char(n));
        assert(digits_value(d) == digits_value(d.drop_last()) * 10 + digit_value(d.last()));
    }
}

/// The decimal representation of a `usize`.
pub fn usize_to_chars(n: usize) -> (r: Vec<char>)
    ensures
        r@ == dec(n as nat),
    decreases n,
{
    if n < 10 {
        let mut v: Vec<char> = Vec::new();
        v.push(((n + 48) as u8) as char);
        assert(v@ == seq![digit_char(n as nat)]);
        v
    } else {
        let mut v = usize_to_chars(n / 10);
        v.push(((n % 10 + 48) as u8) as char);
        v
    }
}

/// `str::parse::<usize>` on a non-empty string of ASCII digits, with 0 in
/// place of a value that does not fit (the caller's `unwrap_or(0)`).
pub open spec fn parse_usize_or_zero(s: Seq<char>) -> nat {
    if digits_value(s) <= usize::MAX {
        digits_value(s)
    } else {
        0
    }
}

/// `str::parse::<usize>` on a string of digits matched by `\d`, with 0 in
/// place of an error (the caller's `unwrap_or(0)`): the value when all are
/// ASCII digits and it fits, else 0.
pub open spec fn number_or_zero(s: Seq<char>) -> nat {
    if all_digits(s) {
        parse_usize_or_zero(s)
    } else {
        0
    }
}

pub fn number_or_zero_exec(s: &[char]) -> (r: usize)
    ensures
        r == number_or_zero(s@),
{
    let n = s.len();
    for i in 0..n
        invariant
            n == s@.len(),
            forall|k: int| 0 <= k < i ==> is_digit(#[trigger] s@[k]),
    {
        if !(0x30 <= (s[i] as u32) && (s[i] as u32) <= 0x39) {
            return 0;
        }
    }
    parse_digits_or_zero(s)
}

pub fn parse_digits_or_zero(s: &[char]) -> (r: usize)
    requires
        all_digits(s@),
    ensures
        r == parse_usize_or_zero(s@),
{
    let n = s.len();
    let mut acc: usize = 0;
    let mut overflow = false;
    for i in 0..n
        invariant
            n == s@.len(),
            all_digits(s@),
            !overflow ==> acc == digits_value(s@.take(i as int)),
            overflow ==> digits_value(s@.take(i as int)) > usize::MAX,
    {
        let ghost t = s@.take(i + 1);
        assert(t.drop_last() == s@.take(i as int));
        assert(is_digit(s@[i as int]));
        let d = ((s[i] as u32) - 48) as usize;
        if !overflow {
            if acc > (usize::MAX - d) / 10 {
                overflow = true;
                assert(acc * 10 + d > usize::MAX) by (nonlinear_arith)
                    requires
                        acc > (usize::MAX - d) / 10,
                        d <= 9,
                ;
            } else {
                assert(acc * 10 + d <= usize::MAX) by (nonlinear_arith)
                    requires
                        acc <= (usize::MAX - d) / 10,
                        d <= 9,
                ;
                acc = acc * 10 + d;
            }
        } else {
            assert(digits_value(t) >= digits_value(s@.take(i as int))) by (nonlinear_arith)
                requires
                    digits_value(t) == digits_value(s@.take(i as int)) * 10 + digit_value(
                        s@[i as int],
                    ),
            ;
        }
    }
    assert(s@.take(n as int) == s@);
    if overflow {
        0
    } else {
        acc
    }
}

// ---------------------------------------------------------------------------
// Lexicographic order
// ---------------------------------------------------------------------------

/// The order of `String`'s `Ord`: UTF-8 byte order, which is the order of
/// code points compared left to right.
pub open spec fn str_lt(a: Seq<char>, b: Seq<char>) -> bool
    decreases a.len(),
{
    if a.len() == 0 {
        b.len() > 0
    } else if b.len() == 0 {
        false
    } else if a[0] != b[0] {
        a[0] < b[0]
    } else {
        str_lt(a.drop_first(), b.drop_first())
    }
}

pub proof fn lemma_str_lt_irrefl(a: Seq<char>)
    ensures
        !str_lt(a, a),
    decreases a.len(),
{
    if a.len() > 0 {
        lemma_str_lt_irrefl(a.drop_first());
    }
}

pub proof fn lemma_str_lt_trans(a: Seq<char>, b: Seq<char>, c: Seq<char>)
    requires
        str_lt(a, b),
        str_lt(b, c),
    ensures
        str_lt(a, c),
    decreases a.len(),
{
    if a.len() > 0 && b.len() > 0 && c.len() > 0 && a[0] == b[0] && b[0] == c[0] {
        lemma_str_lt_trans(a.drop_first(), b.drop_first(), c.drop_first());
    }
}

pub proof fn lemma_str_lt_total(a: Seq<char>, b: Seq<char>)
    ensures
        a == b || str_lt(a, b) || str_lt(b, a),
    decreases a.len(),
{
    if a.len() > 0 && b.len() > 0 {
        if a[0] == b[0] {
            lemma_str_lt_total(a.drop_first(), b.drop_first());
            if a.drop_first() == b.drop_first() {
                assert(a == seq![a[0]] + a.drop_first());
                assert(b == seq![b[0]] + b.drop_first());
            }
        }
    } else if a.len() == 0 && b.len() == 0 {
        assert(a == b);
    }
}

pub proof fn lemma_str_lt_asym(a: Seq<char>, b: Seq<char>)
    requires
        str_lt(a, b),
    ensures
        !str_lt(b, a),
    decreases a.len(),
{
    if a.len() > 0 && b.len() > 0 && a[0] == b[0] {
        lemma_str_lt_asym(a.drop_first(), b.drop_first());
    }
}

pub fn str_lt_chars(a: &[char], b: &[char]) -> (r: bool)
    ensures
        r == str_lt(a@, b@),
{
    let mut i: usize = 0;
    assert(a@.skip(0) == a@ && b@.skip(0) == b@);
    while i < a.len() && i < b.len() && a[i] == b[i]
        invariant
            0 <= i <= a@.len(),
            i <= b@.len(),
            str_lt(a@, b@) == str_lt(a@.skip(i as int), b@.skip(i as int)),
        decreases a.len() - i,
    {
        proof {
            let x = a@.skip(i as int);
            let y = b@.skip(i as int);
            assert(x.drop_first() == a@.skip(i + 1));
            assert(y.drop_first() == b@.skip(i + 1));
        }
        i = i + 1;
    }
    let ghost x = a@.skip(i as int);
    let ghost y = b@.skip(i as int);
    if i == a.len() {
        assert(x.len() == 0);
        i < b.len()
    } else if i == b.len() {
        false
    } else {
        assert(x[0] == a@[i as int] && y[0] == b@[i as int]);
        a[i] < b[i]
    }
}

/// `String`'s `<` on two strings.
pub fn str_less(a: &str, b: &str) -> (r: bool)
    ensures
        r == str_lt(a@, b@),
{
    let x = chars_of(a);
    let y = chars_of(b);
    str_lt_chars(x.as_slice(), y.as_slice())
}

} // verus!
