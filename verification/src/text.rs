use vstd::prelude::*;

verus! {

// ---------------------------------------------------------------------------
// Character classes
// ---------------------------------------------------------------------------

/// Unicode `White_Space`: the characters that `char::is_whitespace` accepts,
/// and that `str::trim` removes.
pub open spec fn is_white(c: char) -> bool {
    ||| ('\t' <= c && c <= '\r')
    ||| c == ' '
    ||| c == '\u{85}'
    ||| c == '\u{a0}'
    ||| c == '\u{1680}'
    ||| ('\u{2000}' <= c && c <= '\u{200a}')
    ||| c == '\u{2028}'
    ||| c == '\u{2029}'
    ||| c == '\u{202f}'
    ||| c == '\u{205f}'
    ||| c == '\u{3000}'
}

pub fn white(c: char) -> (b: bool)
    ensures
        b == is_white(c),
{
    ('\t' <= c && c <= '\r') || c == ' ' || c == '\u{85}' || c == '\u{a0}' || c == '\u{1680}'
        || ('\u{2000}' <= c && c <= '\u{200a}') || c == '\u{2028}' || c == '\u{2029}'
        || c == '\u{202f}' || c == '\u{205f}' || c == '\u{3000}'
}

pub open spec fn is_digit(c: char) -> bool {
    '0' <= c && c <= '9'
}

// ---------------------------------------------------------------------------
// Searching a sequence of characters
// ---------------------------------------------------------------------------

/// Index of the first character of `s` that satisfies `p`, or `s.len()`.
pub open spec fn first_where(s: Seq<char>, p: spec_fn(char) -> bool) -> int
    decreases s.len(),
{
    if s.len() == 0 {
        0
    } else if p(s[0]) {
        0
    } else {
        1 + first_where(s.drop_first(), p)
    }
}

/// Length of `s` once every trailing character that satisfies `p` is cut off.
pub open spec fn end_where(s: Seq<char>, p: spec_fn(char) -> bool) -> int
    decreases s.len(),
{
    if s.len() == 0 {
        0
    } else if p(s.last()) {
        end_where(s.drop_last(), p)
    } else {
        s.len() as int
    }
}

pub proof fn lemma_first_where(s: Seq<char>, p: spec_fn(char) -> bool)
    ensures
        0 <= first_where(s, p) <= s.len(),
        forall|j: int| 0 <= j < first_where(s, p) ==> !p(#[trigger] s[j]),
        first_where(s, p) < s.len() ==> p(s[first_where(s, p)]),
    decreases s.len(),
{
    if s.len() > 0 && !p(s[0]) {
        lemma_first_where(s.drop_first(), p);
        assert forall|j: int| 0 <= j < first_where(s, p) implies !p(#[trigger] s[j]) by {
            if j > 0 {
                assert(s[j] == s.drop_first()[j - 1]);
            }
        }
    }
}

/// The index `k` with no `p` before it and a `p` at it (or the end) is `first_where`.
pub proof fn lemma_first_where_at(s: Seq<char>, p: spec_fn(char) -> bool, k: int)
    requires
        0 <= k <= s.len(),
        forall|j: int| 0 <= j < k ==> !p(#[trigger] s[j]),
        k < s.len() ==> p(s[k]),
    ensures
        first_where(s, p) == k,
{
    lemma_first_where(s, p);
    let f = first_where(s, p);
    if f < k {
        assert(!p(s[f]));
    }
    if k < f {
        assert(!p(s[k]));
    }
}

pub proof fn lemma_end_where(s: Seq<char>, p: spec_fn(char) -> bool)
    ensures
        0 <= end_where(s, p) <= s.len(),
        forall|j: int| end_where(s, p) <= j < s.len() ==> p(#[trigger] s[j]),
        end_where(s, p) > 0 ==> !p(s[end_where(s, p) - 1]),
    decreases s.len(),
{
    if s.len() > 0 && p(s.last()) {
        lemma_end_where(s.drop_last(), p);
        assert forall|j: int| end_where(s, p) <= j < s.len() implies p(#[trigger] s[j]) by {
            if j < s.len() - 1 {
                assert(s[j] == s.drop_last()[j]);
            }
        }
    }
}

pub proof fn lemma_end_where_at(s: Seq<char>, p: spec_fn(char) -> bool, k: int)
    requires
        0 <= k <= s.len(),
        forall|j: int| k <= j < s.len() ==> p(#[trigger] s[j]),
        k > 0 ==> !p(s[k - 1]),
    ensures
        end_where(s, p) == k,
{
    lemma_end_where(s, p);
    let e = end_where(s, p);
    if e < k {
        assert(p(s[k - 1]));
    }
    if k < e {
        assert(p(s[e - 1]));
    }
}

// ---------------------------------------------------------------------------
// Trimming, prefixes, cutting
// ---------------------------------------------------------------------------

pub open spec fn not_white(c: char) -> bool {
    !is_white(c)
}

/// `str::trim_start`.
pub open spec fn trim_start(s: Seq<char>) -> Seq<char> {
    s.skip(first_where(s, |c: char| not_white(c)))
}

/// `str::trim_end`.
pub open spec fn trim_end(s: Seq<char>) -> Seq<char> {
    s.take(end_where(s, |c: char| is_white(c)))
}

/// `str::trim`: leading and trailing white space removed.
pub open spec fn trim(s: Seq<char>) -> Seq<char> {
    trim_end(trim_start(s))
}

/// The predicate "is the character `c`".
pub open spec fn is_char(c: char) -> spec_fn(char) -> bool {
    |x: char| x == c
}

/// `str::trim_end_matches` with a single character.
pub open spec fn trim_end_char(s: Seq<char>, c: char) -> Seq<char> {
    s.take(end_where(s, is_char(c)))
}

/// The part of `s` before its first `c`: `s.split(c).next()`.
pub open spec fn before_char(s: Seq<char>, c: char) -> Seq<char> {
    s.take(first_where(s, is_char(c)))
}

pub open spec fn starts_with(s: Seq<char>, p: Seq<char>) -> bool {
    p.len() <= s.len() && s.take(p.len() as int) == p
}

/// `str::trim_start_matches` with a string pattern: every leading copy of `p` removed.
pub open spec fn trim_start_str(s: Seq<char>, p: Seq<char>) -> Seq<char>
    decreases s.len(),
{
    if p.len() > 0 && starts_with(s, p) {
        trim_start_str(s.skip(p.len() as int), p)
    } else {
        s
    }
}

/// `s` holds `n` as a contiguous piece (`str::contains` with a string pattern).
pub open spec fn has_substring(s: Seq<char>, n: Seq<char>) -> bool {
    exists|i: int| 0 <= i && i + n.len() <= s.len() && #[trigger] s.subrange(i, i + n.len()) == n
}

// ---------------------------------------------------------------------------
// Executable helpers
// ---------------------------------------------------------------------------

/// Appends one character to a string.
///
/// Trusted: calls `String::push`, whose documentation says that it appends
/// the given char to the end of the string.
#[verifier::external_body]
pub(crate) fn push_char(s: &mut String, c: char)
    ensures
        final(s)@ == old(s)@.push(c),
{
    s.push(c);
}

/// Lower-case form of a string under Unicode rules (`str::to_lowercase`).
pub uninterp spec fn unicode_lowercase(s: Seq<char>) -> Seq<char>;

/// Trusted: calls `str::to_lowercase`; the result is a function of the
/// characters of `s` alone, named `unicode_lowercase`, and the lower-case
/// equivalent of the empty string is empty. Nothing more of the Unicode case
/// mapping is stated.
#[verifier::external_body]
pub(crate) fn to_lowercase(s: &str) -> (r: String)
    ensures
        r@ == unicode_lowercase(s@),
        s@.len() == 0 ==> r@.len() == 0,
{
    s.to_lowercase()
}

/// The characters of `s`, in order.
pub fn chars_of(s: &str) -> (out: Vec<char>)
    ensures
        out@ == s@,
{
    broadcast use vstd::string::group_string_axioms;

    let mut out: Vec<char> = Vec::new();
    for c in it: s.chars()
        invariant
            it.seq() == s@,
            out@ == it.seq().take(it.index() as int),
    {
        out.push(c);
    }
    out
}

/// A string holding exactly `v[from..to]`.
pub fn string_of(v: &Vec<char>, from: usize, to: usize) -> (s: String)
    requires
        from <= to <= v.len(),
    ensures
        s@ == v@.subrange(from as int, to as int),
{
    let mut s = String::new();
    let mut i = from;
    while i < to
        invariant
            from <= i <= to <= v.len(),
            s@ == v@.subrange(from as int, i as int),
        decreases to - i,
    {
        push_char(&mut s, v[i]);
        assert(v@.subrange(from as int, i + 1) == v@.subrange(from as int, i as int).push(v@[i as int]));
        i = i + 1;
    }
    s
}

/// Appends all characters of `t` to `s`.
pub fn push_str(s: &mut String, t: &str)
    ensures
        final(s)@ == old(s)@ + t@,
{
    let v = chars_of(t);
    let mut i: usize = 0;
    while i < v.len()
        invariant
            0 <= i <= v.len(),
            v@ == t@,
            s@ == old(s)@ + v@.take(i as int),
        decreases v.len() - i,
    {
        push_char(s, v[i]);
        assert(v@.take(i + 1) == v@.take(i as int).push(v@[i as int]));
        i = i + 1;
    }
    assert(v@.take(v.len() as int) == v@);
}

/// Index of the first character of `v` that is not white space.
fn first_not_white(v: &Vec<char>) -> (k: usize)
    ensures
        k == first_where(v@, |c: char| not_white(c)),
{
    let mut k: usize = 0;
    while k < v.len() && white(v[k])
        invariant
            0 <= k <= v.len(),
            forall|j: int| 0 <= j < k ==> is_white(#[trigger] v@[j]),
        decreases v.len() - k,
    {
        k = k + 1;
    }
    proof {
        lemma_first_where_at(v@, |c: char| not_white(c), k as int);
    }
    k
}

/// Length of `v` once its trailing white space is cut off.
fn end_not_white(v: &Vec<char>) -> (k: usize)
    ensures
        k == end_where(v@, |c: char| is_white(c)),
{
    let mut k: usize = v.len();
    while k > 0 && white(v[k - 1])
        invariant
            0 <= k <= v.len(),
            forall|j: int| k <= j < v.len() ==> is_white(#[trigger] v@[j]),
        decreases k,
    {
        k = k - 1;
    }
    proof {
        lemma_end_where_at(v@, |c: char| is_white(c), k as int);
    }
    k
}

/// Bounds `(a, b)` such that `v[a..b]` is `trim(v)`.
pub fn trim_bounds(v: &Vec<char>) -> (ab: (usize, usize))
    ensures
        ab.0 <= ab.1 <= v.len(),
        v@.subrange(ab.0 as int, ab.1 as int) == trim(v@),
{
    let a = first_not_white(v);
    proof {
        lemma_first_where(v@, |c: char| not_white(c));
    }
    let mut b: usize = v.len();
    while b > a && white(v[b - 1])
        invariant
            a <= b <= v.len(),
            forall|j: int| b <= j < v.len() ==> is_white(#[trigger] v@[j]),
        decreases b,
    {
        b = b - 1;
    }
    proof {
        let ghost s = v@.skip(a as int);
        assert(s == trim_start(v@));
        lemma_first_where(v@, |c: char| not_white(c));
        assert forall|j: int| (b - a) <= j < s.len() implies is_white(#[trigger] s[j]) by {
            assert(s[j] == v@[j + a]);
        }
        if b > a {
            assert(s[b - a - 1] == v@[b - 1]);
        }
        lemma_end_where_at(s, |c: char| is_white(c), (b - a) as int);
        assert(v@.subrange(a as int, b as int) == s.take((b - a) as int));
    }
    (a, b)
}

/// `str::trim`, as an owned string.
pub fn trimmed(s: &str) -> (r: String)
    ensures
        r@ == trim(s@),
{
    let v = chars_of(s);
    let (a, b) = trim_bounds(&v);
    string_of(&v, a, b)
}


/// Whether `v` starts with `p`.
pub fn has_prefix(v: &Vec<char>, p: &Vec<char>) -> (b: bool)
    ensures
        b == starts_with(v@, p@),
{
    if p.len() > v.len() {
        return false;
    }
    let mut i: usize = 0;
    while i < p.len()
        invariant
            p.len() <= v.len(),
            0 <= i <= p.len(),
            forall|j: int| 0 <= j < i ==> v@[j] == p@[j],
        decreases p.len() - i,
    {
        if v[i] != p[i] {
            assert(v@.take(p.len() as int)[i as int] != p@[i as int]);
            return false;
        }
        i = i + 1;
    }
    assert(v@.take(p.len() as int) =~= p@);
    true
}

/// Index of the first `c` in `v[from..]`, counted from the start of `v`, or `v.len()`.
pub fn find_char_from(v: &Vec<char>, from: usize, c: char) -> (k: usize)
    requires
        from <= v.len(),
    ensures
        from + first_where(v@.skip(from as int), is_char(c)) == k,
        from <= k <= v.len(),
{
    let mut k = from;
    while k < v.len() && v[k] != c
        invariant
            from <= k <= v.len(),
            forall|j: int| from <= j < k ==> v@[j] != c,
        decreases v.len() - k,
    {
        k = k + 1;
    }
    proof {
        let s = v@.skip(from as int);
        assert forall|j: int| 0 <= j < k - from implies !is_char(c)(#[trigger] s[j]) by {
            assert(s[j] == v@[j + from]);
        }
        if k < v.len() {
            assert(s[k - from] == v@[k as int]);
        }
        lemma_first_where_at(s, is_char(c), k - from);
    }
    k
}

/// Whether `c` occurs in `v`.
pub fn contains_char(v: &Vec<char>, c: char) -> (b: bool)
    ensures
        b == v@.contains(c),
{
    let mut i: usize = 0;
    while i < v.len()
        invariant
            0 <= i <= v.len(),
            forall|j: int| 0 <= j < i ==> v@[j] != c,
        decreases v.len() - i,
    {
        if v[i] == c {
            return true;
        }
        i = i + 1;
    }
    false
}


/// Text that neither starts nor ends with white space is its own trim.
pub proof fn lemma_trim_unchanged(s: Seq<char>)
    requires
        s.len() > 0 ==> !is_white(s[0]) && !is_white(s.last()),
    ensures
        trim(s) == s,
{
    lemma_first_where_at(s, |c: char| not_white(c), 0);
    assert(s.skip(0) == s);
    if s.len() > 0 {
        assert forall|j: int| s.len() <= j < s.len() implies is_white(#[trigger] s[j]) by {}
        lemma_end_where_at(s, |c: char| is_white(c), s.len() as int);
    } else {
        lemma_end_where_at(s, |c: char| is_white(c), 0);
    }
    assert(s.take(s.len() as int) == s);
}


/// Whether `s` reads exactly `t`.
pub fn is_text(s: &String, t: &str) -> (b: bool)
    ensures
        b == (s@ == t@),
{
    *s == t.to_owned()
}

/// `str::contains` with a string pattern.
pub fn contains_text(hay: &str, needle: &str) -> (b: bool)
    ensures
        b == has_substring(hay@, needle@),
{
    let h = chars_of(hay);
    let n = chars_of(needle);
    if n.len() > h.len() {
        proof {
            assert forall|i: int| 0 <= i && i + n@.len() <= h@.len() implies #[trigger] h@.subrange(i, i + n@.len()) != n@ by {}
        }
        return false;
    }
    let mut i: usize = 0;
    while i <= h.len() - n.len()
        invariant
            n.len() <= h.len(),
            0 <= i <= h.len() - n.len() + 1,
            h@ == hay@,
            n@ == needle@,
            forall|k: int| 0 <= k < i ==> #[trigger] h@.subrange(k, k + n@.len()) != n@,
        decreases h.len() - i,
    {
        let mut j: usize = 0;
        while j < n.len() && h[i + j] == n[j]
            invariant
                n.len() <= h.len(),
                i + n.len() <= h.len(),
                0 <= j <= n.len(),
                forall|m: int| 0 <= m < j ==> h@[i + m] == n@[m],
            decreases n.len() - j,
        {
            j = j + 1;
        }
        if j == n.len() {
            assert(h@.subrange(i as int, i + n@.len()) =~= n@);
            return true;
        }
        assert(h@.subrange(i as int, i + n@.len())[j as int] != n@[j as int]);
        i = i + 1;
    }
    false
}


/// Pushing onto a vector pushes the item's deep view onto its deep view.
pub proof fn lemma_push_deep_view<T: DeepView>(before: Vec<T>, after: Vec<T>, x: T)
    requires
        after@ == before@.push(x),
    ensures
        after.deep_view() == before.deep_view().push(x.deep_view()),
{
    assert(after.deep_view() =~= before.deep_view().push(x.deep_view()));
}


/// Trimmed text neither starts nor ends with white space, and is a piece
/// of the text it was cut from.
pub proof fn lemma_trim_shape(s: Seq<char>)
    ensures
        trim(s).len() > 0 ==> !is_white(trim(s)[0]) && !is_white(trim(s).last()),
        exists|a: int| 0 <= a && a + trim(s).len() <= s.len() && trim(s) == #[trigger] s.subrange(a, a + trim(s).len()),
{
    let t = trim_start(s);
    lemma_first_where(s, |c: char| not_white(c));
    lemma_end_where(t, |c: char| is_white(c));
    let a = first_where(s, |c: char| not_white(c));
    let e = end_where(t, |c: char| is_white(c));
    assert(trim(s) == s.subrange(a, a + e));
    if trim(s).len() > 0 {
        assert(t[0] == s[a]);
    }
}

/// Trimming twice trims no more than once.
pub proof fn lemma_trim_idempotent(s: Seq<char>)
    ensures
        trim(trim(s)) == trim(s),
{
    lemma_trim_shape(s);
    lemma_trim_unchanged(trim(s));
}

} // verus!
