//! Character-level helpers shared by the parsers and formatters.

use vstd::prelude::*;

verus! {

/// The characters of `s`, in order.
pub fn chars_of(s: &str) -> (v: Vec<char>)
    ensures
        v@ == s@,
{
    let mut v: Vec<char> = Vec::new();
    for c in it: s.chars()
        invariant
            v@ == it.seq().take(it.index() as int),
            it.seq() == s@,
    {
        v.push(c);
    }
    v
}

/// `<String as FromIterator<&char>>::from_iter` over a slice: the string
/// made of exactly the characters of `v`. Running out of memory is not
/// modelled.
#[verifier::external_body]
pub(crate) fn string_from_chars(v: &[char]) -> (s: String)
    ensures
        s@ == v@,
{
    v.iter().collect()
}

/// A copy of `v[lo..hi]`.
pub fn chars_range(v: &[char], lo: usize, hi: usize) -> (w: Vec<char>)
    requires
        lo <= hi <= v@.len(),
    ensures
        w@ == v@.subrange(lo as int, hi as int),
{
    let mut w: Vec<char> = Vec::new();
    let mut i = lo;
    while i < hi
        invariant
            lo <= i <= hi <= v@.len(),
            w@ == v@.subrange(lo as int, i as int),
        decreases hi - i,
    {
        w.push(v[i]);
        i = i + 1;
    }
    w
}

/// The string made of `v[lo..hi]`.
pub fn string_of_range(v: &[char], lo: usize, hi: usize) -> (s: String)
    requires
        lo <= hi <= v@.len(),
    ensures
        s@ == v@.subrange(lo as int, hi as int),
{
    let w = chars_range(v, lo, hi);
    string_from_chars(w.as_slice())
}

/// Unicode `White_Space`, the set `char::is_whitespace` tests.
pub open spec fn is_white_space(c: char) -> bool {
    ||| c == '\t'
    ||| c == '\n'
    ||| c == '\u{0B}'
    ||| c == '\u{0C}'
    ||| c == '\r'
    ||| c == ' '
    ||| c == '\u{85}'
    ||| c == '\u{A0}'
    ||| c == '\u{1680}'
    ||| ('\u{2000}' <= c && c <= '\u{200A}')
    ||| c == '\u{2028}'
    ||| c == '\u{2029}'
    ||| c == '\u{202F}'
    ||| c == '\u{205F}'
    ||| c == '\u{3000}'
}

/// Space or horizontal tab.
pub open spec fn is_blank(c: char) -> bool {
    c == ' ' || c == '\t'
}

/// `char::is_whitespace`.
pub fn is_whitespace(c: char) -> (b: bool)
    ensures
        b == is_white_space(c),
{
    c == '\t' || c == '\n' || c == '\u{0B}' || c == '\u{0C}' || c == '\r' || c == ' '
        || c == '\u{85}' || c == '\u{A0}' || c == '\u{1680}' || ('\u{2000}' <= c && c
        <= '\u{200A}') || c == '\u{2028}' || c == '\u{2029}' || c == '\u{202F}' || c
        == '\u{205F}' || c == '\u{3000}'
}

/// Which characters a trim removes.
#[derive(Clone, Copy, PartialEq, Eq)]
pub enum Blanks {
    /// Unicode white space (`str::trim`).
    Unicode,
    /// Space and tab only.
    SpaceTab,
    /// Space only.
    Space,
}

/// Whether `c` is removed by a trim of the given kind.
pub open spec fn is_trimmed(kind: Blanks, c: char) -> bool {
    match kind {
        Blanks::Unicode => is_white_space(c),
        Blanks::SpaceTab => is_blank(c),
        Blanks::Space => c == ' ',
    }
}

/// Executable [`is_trimmed`].
pub fn trimmed(kind: Blanks, c: char) -> (b: bool)
    ensures
        b == is_trimmed(kind, c),
{
    match kind {
        Blanks::Unicode => is_whitespace(c),
        Blanks::SpaceTab => c == ' ' || c == '\t',
        Blanks::Space => c == ' ',
    }
}

/// `s` without its leading characters of the given kind.
pub open spec fn trim_start(kind: Blanks, s: Seq<char>) -> Seq<char>
    decreases s.len(),
{
    if s.len() > 0 && is_trimmed(kind, s[0]) {
        trim_start(kind, s.drop_first())
    } else {
        s
    }
}

/// `s` without its trailing characters of the given kind.
pub open spec fn trim_end(kind: Blanks, s: Seq<char>) -> Seq<char>
    decreases s.len(),
{
    if s.len() > 0 && is_trimmed(kind, s.last()) {
        trim_end(kind, s.drop_last())
    } else {
        s
    }
}

/// `s` without leading and trailing characters of the given kind.
pub open spec fn trim(kind: Blanks, s: Seq<char>) -> Seq<char> {
    trim_end(kind, trim_start(kind, s))
}

/// Leading characters of `s[lo..]` that a trim skips.
pub proof fn lemma_trim_start_step(kind: Blanks, s: Seq<char>, lo: int)
    requires
        0 <= lo < s.len(),
        is_trimmed(kind, s[lo]),
    ensures
        trim_start(kind, s.subrange(lo, s.len() as int)) == trim_start(
            kind,
            s.subrange(lo + 1, s.len() as int),
        ),
{
    assert(s.subrange(lo, s.len() as int).drop_first() =~= s.subrange(lo + 1, s.len() as int));
}

/// The index of the first character of `v[lo..]` that a trim keeps, or
/// `v.len()`.
pub fn skip_start(kind: Blanks, v: &[char], lo: usize) -> (r: usize)
    requires
        lo <= v@.len(),
    ensures
        lo <= r <= v@.len(),
        trim_start(kind, v@.subrange(lo as int, v@.len() as int)) == v@.subrange(
            r as int,
            v@.len() as int,
        ),
        forall|i: int| lo <= i < r ==> is_trimmed(kind, #[trigger] v@[i]),
        r < v@.len() ==> !is_trimmed(kind, v@[r as int]),
{
    let mut i = lo;
    while i < v.len() && trimmed(kind, v[i])
        invariant
            lo <= i <= v@.len(),
            trim_start(kind, v@.subrange(lo as int, v@.len() as int)) == trim_start(
                kind,
                v@.subrange(i as int, v@.len() as int),
            ),
            forall|j: int| lo <= j < i ==> is_trimmed(kind, #[trigger] v@[j]),
        decreases v@.len() - i,
    {
        proof {
            lemma_trim_start_step(kind, v@, i as int);
        }
        i = i + 1;
    }
    proof {
        let t = v@.subrange(i as int, v@.len() as int);
        if i < v@.len() {
            assert(t[0] == v@[i as int]);
        }
    }
    i
}

/// The index just past the last character of `v[lo..hi]` that a trim
/// keeps, or `lo`.
pub fn skip_end(kind: Blanks, v: &[char], lo: usize, hi: usize) -> (r: usize)
    requires
        lo <= hi <= v@.len(),
    ensures
        lo <= r <= hi,
        trim_end(kind, v@.subrange(lo as int, hi as int)) == v@.subrange(lo as int, r as int),
        forall|i: int| r <= i < hi ==> is_trimmed(kind, #[trigger] v@[i]),
        r > lo ==> !is_trimmed(kind, v@[r - 1]),
{
    let mut i = hi;
    while i > lo && trimmed(kind, v[i - 1])
        invariant
            lo <= i <= hi <= v@.len(),
            trim_end(kind, v@.subrange(lo as int, hi as int)) == trim_end(
                kind,
                v@.subrange(lo as int, i as int),
            ),
            forall|j: int| i <= j < hi ==> is_trimmed(kind, #[trigger] v@[j]),
        decreases i - lo,
    {
        proof {
            let t = v@.subrange(lo as int, i as int);
            assert(t.drop_last() =~= v@.subrange(lo as int, i - 1));
            assert(t.last() == v@[i - 1]);
        }
        i = i - 1;
    }
    proof {
        let t = v@.subrange(lo as int, i as int);
        if i > lo {
            assert(t.last() == v@[i - 1]);
        }
    }
    i
}

/// The bounds `(lo, hi)` of `v` with leading and trailing characters of the
/// given kind removed.
pub fn trim_bounds(kind: Blanks, v: &[char]) -> (r: (usize, usize))
    ensures
        r.0 <= r.1 <= v@.len(),
        v@.subrange(r.0 as int, r.1 as int) == trim(kind, v@),
{
    let lo = skip_start(kind, v, 0);
    assert(v@.subrange(0, v@.len() as int) =~= v@);
    let hi = skip_end(kind, v, lo, v.len());
    (lo, hi)
}

/// The index of the last `c` in `s`, or `-1`.
pub open spec fn last_index_of(s: Seq<char>, c: char) -> int
    decreases s.len(),
{
    if s.len() == 0 {
        -1
    } else if s.last() == c {
        s.len() - 1
    } else {
        last_index_of(s.drop_last(), c)
    }
}

/// The index of the last `c` in `v[lo..hi]`, counted from the start of
/// `v`, or `None`.
pub fn rfind_char(v: &[char], c: char, lo: usize, hi: usize) -> (r: Option<usize>)
    requires
        lo <= hi <= v@.len(),
    ensures
        r is None <==> last_index_of(v@.subrange(lo as int, hi as int), c) == -1,
        r is Some ==> lo <= r->0 < hi && r->0 - lo == last_index_of(
            v@.subrange(lo as int, hi as int),
            c,
        ),
{
    let mut k = hi;
    while k > lo && v[k - 1] != c
        invariant
            lo <= k <= hi <= v@.len(),
            last_index_of(v@.subrange(lo as int, hi as int), c) == last_index_of(
                v@.subrange(lo as int, k as int),
                c,
            ),
        decreases k - lo,
    {
        assert(v@.subrange(lo as int, k as int).drop_last() =~= v@.subrange(lo as int, k - 1));
        k = k - 1;
    }
    if k == lo {
        None
    } else {
        Some(k - 1)
    }
}

/// The index of the first `a` directly followed by `b` in `s`, or
/// `s.len()`.
pub open spec fn pair_index(s: Seq<char>, a: char, b: char) -> int
    decreases s.len(),
{
    if s.len() < 2 {
        s.len() as int
    } else if s[0] == a && s[1] == b {
        0
    } else {
        1 + pair_index(s.drop_first(), a, b)
    }
}

/// The index of the first `a` directly followed by `b` in `v[lo..hi]`,
/// counted from the start of `v`, or `hi`.
pub fn find_pair(v: &[char], a: char, b: char, lo: usize, hi: usize) -> (k: usize)
    requires
        lo <= hi <= v@.len(),
    ensures
        lo <= k <= hi,
        k - lo == pair_index(v@.subrange(lo as int, hi as int), a, b),
        k < hi ==> k + 1 < hi,
{
    let mut k = lo;
    while hi - k >= 2 && !(v[k] == a && v[k + 1] == b)
        invariant
            lo <= k <= hi <= v@.len(),
            pair_index(v@.subrange(lo as int, hi as int), a, b) == (k - lo) + pair_index(
                v@.subrange(k as int, hi as int),
                a,
                b,
            ),
        decreases hi - k,
    {
        assert(v@.subrange(k as int, hi as int).drop_first() =~= v@.subrange(k + 1, hi as int));
        k = k + 1;
    }
    if hi - k >= 2 {
        k
    } else {
        hi
    }
}

/// An ASCII letter.
pub open spec fn is_ascii_alpha(c: char) -> bool {
    ('a' <= c && c <= 'z') || ('A' <= c && c <= 'Z')
}

/// An ASCII letter or digit.
pub open spec fn is_ascii_alnum(c: char) -> bool {
    is_ascii_alpha(c) || ('0' <= c && c <= '9')
}

/// `char::to_ascii_lowercase`.
pub open spec fn ascii_lower(c: char) -> char {
    if 'A' <= c && c <= 'Z' {
        (c as u32 + 32) as char
    } else {
        c
    }
}

/// `str::to_ascii_lowercase`, character by character.
pub open spec fn lower_seq(s: Seq<char>) -> Seq<char> {
    s.map_values(|c: char| ascii_lower(c))
}

/// `str::eq_ignore_ascii_case`.
pub open spec fn eq_ignore_case(a: Seq<char>, b: Seq<char>) -> bool {
    a.len() == b.len() && forall|i: int| 0 <= i < a.len() ==> ascii_lower(#[trigger] a[i])
        == ascii_lower(b[i])
}

/// Executable [`ascii_lower`].
pub fn to_ascii_lower(c: char) -> (r: char)
    ensures
        r == ascii_lower(c),
{
    if 'A' <= c && c <= 'Z' {
        let b: u8 = c as u8;
        let r = (b + 32) as char;
        assert(r == (c as u32 + 32) as char);
        r
    } else {
        c
    }
}

/// `v[lo..hi]` in ASCII lower case.
pub fn lower_range(v: &[char], lo: usize, hi: usize) -> (r: Vec<char>)
    requires
        lo <= hi <= v@.len(),
    ensures
        r@ == lower_seq(v@.subrange(lo as int, hi as int)),
{
    let mut w: Vec<char> = Vec::new();
    let mut i = lo;
    while i < hi
        invariant
            lo <= i <= hi <= v@.len(),
            w@ == lower_seq(v@.subrange(lo as int, i as int)),
        decreases hi - i,
    {
        w.push(to_ascii_lower(v[i]));
        i = i + 1;
        assert(w@ =~= lower_seq(v@.subrange(lo as int, i as int)));
    }
    w
}

/// Whether `v[lo..hi]` equals `word` ignoring ASCII case.
pub fn range_eq_ignore_case(v: &[char], lo: usize, hi: usize, word: &[char]) -> (b: bool)
    requires
        lo <= hi <= v@.len(),
    ensures
        b == eq_ignore_case(v@.subrange(lo as int, hi as int), word@),
{
    if hi - lo != word.len() {
        return false;
    }
    let mut i: usize = 0;
    while i < word.len()
        invariant
            hi - lo == word@.len(),
            lo <= hi <= v@.len(),
            i <= word@.len(),
            forall|j: int| 0 <= j < i ==> ascii_lower(#[trigger] v@[lo + j]) == ascii_lower(word@[j]),
        decreases word@.len() - i,
    {
        if to_ascii_lower(v[lo + i]) != to_ascii_lower(word[i]) {
            assert(v@.subrange(lo as int, hi as int)[i as int] == v@[lo + i]);
            return false;
        }
        i = i + 1;
    }
    assert forall|j: int| 0 <= j < word@.len() implies ascii_lower(
        #[trigger] v@.subrange(lo as int, hi as int)[j],
    ) == ascii_lower(word@[j]) by {
        assert(v@.subrange(lo as int, hi as int)[j] == v@[lo + j]);
    }
    true
}

/// Whether `v[lo..hi]` equals `word` exactly.
pub fn range_eq(v: &[char], lo: usize, hi: usize, word: &[char]) -> (b: bool)
    requires
        lo <= hi <= v@.len(),
    ensures
        b == (v@.subrange(lo as int, hi as int) == word@),
{
    if hi - lo != word.len() {
        return false;
    }
    let mut i: usize = 0;
    while i < word.len()
        invariant
            hi - lo == word@.len(),
            lo <= hi <= v@.len(),
            i <= word@.len(),
            forall|j: int| 0 <= j < i ==> #[trigger] v@[lo + j] == word@[j],
        decreases word@.len() - i,
    {
        if v[lo + i] != word[i] {
            assert(v@.subrange(lo as int, hi as int)[i as int] == v@[lo + i]);
            return false;
        }
        i = i + 1;
    }
    assert forall|j: int| 0 <= j < word@.len() implies #[trigger] v@.subrange(
        lo as int,
        hi as int,
    )[j] == word@[j] by {
        assert(v@.subrange(lo as int, hi as int)[j] == v@[lo + j]);
    }
    assert(v@.subrange(lo as int, hi as int) =~= word@);
    true
}

/// The index of the first `c` in `s`, or `s.len()`.
pub open spec fn index_of(s: Seq<char>, c: char) -> int
    decreases s.len(),
{
    if s.len() == 0 {
        0
    } else if s[0] == c {
        0
    } else {
        1 + index_of(s.drop_first(), c)
    }
}

/// [`index_of`] is the first occurrence.
pub proof fn lemma_index_of(s: Seq<char>, c: char)
    ensures
        0 <= index_of(s, c) <= s.len(),
        forall|j: int| 0 <= j < index_of(s, c) ==> s[j] != c,
        index_of(s, c) < s.len() ==> s[index_of(s, c)] == c,
    decreases s.len(),
{
    if s.len() > 0 && s[0] != c {
        lemma_index_of(s.drop_first(), c);
        assert forall|j: int| 0 <= j < index_of(s, c) implies s[j] != c by {
            if j > 0 {
                assert(s[j] == s.drop_first()[j - 1]);
            }
        }
    }
}

/// The first occurrence characterizes [`index_of`].
pub proof fn lemma_index_of_at(s: Seq<char>, c: char, k: int)
    requires
        0 <= k <= s.len(),
        forall|j: int| 0 <= j < k ==> s[j] != c,
        k < s.len() ==> s[k] == c,
    ensures
        index_of(s, c) == k,
    decreases k,
{
    if k > 0 {
        assert(s[0] != c);
        let t = s.drop_first();
        assert forall|j: int| 0 <= j < k - 1 implies t[j] != c by {
            assert(t[j] == s[j + 1]);
        }
        if k < s.len() {
            assert(t[k - 1] == s[k]);
        }
        lemma_index_of_at(t, c, k - 1);
    }
}

/// The index of the first `c` in `v[lo..hi]`, counted from the start of
/// `v`; `hi` when there is none.
pub fn find_char(v: &[char], c: char, lo: usize, hi: usize) -> (k: usize)
    requires
        lo <= hi <= v@.len(),
    ensures
        lo <= k <= hi,
        k - lo == index_of(v@.subrange(lo as int, hi as int), c),
        forall|j: int| lo <= j < k ==> v@[j] != c,
        k < hi ==> v@[k as int] == c,
{
    let mut k = lo;
    while k < hi && v[k] != c
        invariant
            lo <= k <= hi <= v@.len(),
            forall|j: int| lo <= j < k ==> v@[j] != c,
        decreases hi - k,
    {
        k = k + 1;
    }
    proof {
        let t = v@.subrange(lo as int, hi as int);
        assert forall|j: int| 0 <= j < k - lo implies t[j] != c by {
            assert(t[j] == v@[lo + j]);
        }
        if k < hi {
            assert(t[k - lo] == v@[k as int]);
        }
        lemma_index_of_at(t, c, k - lo);
    }
    k
}

/// `a` comes before `b`, or equals it, in lexicographic order of code
/// points, which is the order of `str` (UTF-8 keeps code-point order).
pub open spec fn lex_le(a: Seq<char>, b: Seq<char>) -> bool
    decreases a.len(),
{
    if a.len() == 0 {
        true
    } else if b.len() == 0 {
        false
    } else if a[0] != b[0] {
        a[0] < b[0]
    } else {
        lex_le(a.drop_first(), b.drop_first())
    }
}

/// Any two texts are ordered one way or the other.
pub proof fn lemma_lex_total(a: Seq<char>, b: Seq<char>)
    ensures
        lex_le(a, b) || lex_le(b, a),
    decreases a.len(),
{
    if a.len() > 0 && b.len() > 0 && a[0] == b[0] {
        lemma_lex_total(a.drop_first(), b.drop_first());
    }
}

/// The order is transitive.
pub proof fn lemma_lex_trans(a: Seq<char>, b: Seq<char>, c: Seq<char>)
    requires
        lex_le(a, b),
        lex_le(b, c),
    ensures
        lex_le(a, c),
    decreases a.len(),
{
    if a.len() > 0 && b.len() > 0 && c.len() > 0 && a[0] == b[0] && b[0] == c[0] {
        lemma_lex_trans(a.drop_first(), b.drop_first(), c.drop_first());
    }
}

/// The order is antisymmetric.
pub proof fn lemma_lex_antisym(a: Seq<char>, b: Seq<char>)
    requires
        lex_le(a, b),
        lex_le(b, a),
    ensures
        a == b,
    decreases a.len(),
{
    if a.len() > 0 && b.len() > 0 {
        lemma_lex_antisym(a.drop_first(), b.drop_first());
        assert(a =~= seq![a[0]] + a.drop_first());
        assert(b =~= seq![b[0]] + b.drop_first());
    }
}

/// Executable [`lex_le`].
pub fn lex_le_chars(a: &[char], b: &[char]) -> (r: bool)
    ensures
        r == lex_le(a@, b@),
{
    let mut i: usize = 0;
    assert(a@.skip(0) =~= a@);
    assert(b@.skip(0) =~= b@);
    while i < a.len() && i < b.len() && a[i] == b[i]
        invariant
            i <= a@.len(),
            i <= b@.len(),
            lex_le(a@, b@) == lex_le(a@.skip(i as int), b@.skip(i as int)),
        decreases a@.len() - i,
    {
        proof {
            assert(a@.skip(i as int).drop_first() =~= a@.skip(i + 1));
            assert(b@.skip(i as int).drop_first() =~= b@.skip(i + 1));
        }
        i = i + 1;
    }
    if i == a.len() {
        true
    } else if i == b.len() {
        false
    } else {
        assert(a@.skip(i as int)[0] == a@[i as int]);
        assert(b@.skip(i as int)[0] == b@[i as int]);
        a[i] < b[i]
    }
}

/// The string `prefix` followed by the characters of `rest`.
pub fn prefixed(prefix: &str, rest: &[char]) -> (s: String)
    ensures
        s@ == prefix@ + rest@,
{
    let mut v = chars_of(prefix);
    let ghost start = v@;
    let mut i: usize = 0;
    while i < rest.len()
        invariant
            i <= rest@.len(),
            v@ == start + rest@.take(i as int),
            start == prefix@,
        decreases rest@.len() - i,
    {
        v.push(rest[i]);
        i = i + 1;
        assert(v@ =~= start + rest@.take(i as int));
    }
    assert(rest@.take(rest@.len() as int) =~= rest@);
    string_from_chars(v.as_slice())
}

} // verus!
