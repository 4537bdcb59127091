use vstd::prelude::*;
use crate::text::{
    before_char, chars_of, contains_char, find_char_from, has_prefix, is_char, lemma_end_where_at,
    lemma_first_where_at,
    end_where, first_where, lemma_end_where, lemma_first_where, lemma_trim_idempotent,
    lemma_trim_shape, push_str,
    starts_with, string_of, trim, trim_bounds, trim_end_char,
};

verus! {

// ---------------------------------------------------------------------------
// Descriptions
// ---------------------------------------------------------------------------

/// Control characters that a description never keeps (tab, line feed and
/// carriage return are kept here and turned into spaces afterwards).
pub open spec fn is_dropped_control(c: char) -> bool {
    ||| ('\u{0}' <= c && c <= '\u{8}')
    ||| ('\u{b}' <= c && c <= '\u{c}')
    ||| ('\u{e}' <= c && c <= '\u{1f}')
    ||| c == '\u{7f}'
}

/// A kept character as it is stored: `"` becomes `'`, and line breaks and
/// tabs become spaces.
pub open spec fn stored_char(c: char) -> char {
    if c == '"' {
        '\''
    } else if c == '\n' || c == '\r' || c == '\t' {
        ' '
    } else {
        c
    }
}

/// The characters of `s` with dropped controls removed and the rest mapped
/// through `stored_char`.
pub open spec fn clean_chars(s: Seq<char>) -> Seq<char>
    decreases s.len(),
{
    if s.len() == 0 {
        Seq::empty()
    } else if is_dropped_control(s.last()) {
        clean_chars(s.drop_last())
    } else {
        clean_chars(s.drop_last()).push(stored_char(s.last()))
    }
}

/// What `sanitize_description` stores for the text `s`.
pub open spec fn description_of(s: Seq<char>) -> Seq<char> {
    trim(clean_chars(s))
}

fn dropped_control(c: char) -> (b: bool)
    ensures
        b == is_dropped_control(c),
{
    ('\u{0}' <= c && c <= '\u{8}') || ('\u{b}' <= c && c <= '\u{c}') || ('\u{e}' <= c && c
        <= '\u{1f}') || c == '\u{7f}'
}

fn store_char(c: char) -> (r: char)
    ensures
        r == stored_char(c),
{
    if c == '"' {
        '\''
    } else if c == '\n' || c == '\r' || c == '\t' {
        ' '
    } else {
        c
    }
}

/// Makes free text safe to store as a description: drops control
/// characters other than tab and line breaks, turns double quotes into
/// single quotes and tabs and line breaks into spaces, and trims white space
/// at both ends.
pub fn sanitize_description(input: &str) -> (out: String)
    ensures
        out@ == description_of(input@),
{
    let v = chars_of(input);
    let mut kept: Vec<char> = Vec::new();
    let mut i: usize = 0;
    while i < v.len()
        invariant
            0 <= i <= v.len(),
            v@ == input@,
            kept@ == clean_chars(v@.take(i as int)),
        decreases v.len() - i,
    {
        assert(v@.take(i + 1).drop_last() == v@.take(i as int));
        if !dropped_control(v[i]) {
            kept.push(store_char(v[i]));
        }
        i = i + 1;
    }
    assert(v@.take(v.len() as int) == v@);
    let (a, b) = trim_bounds(&kept);
    string_of(&kept, a, b)
}

// ---------------------------------------------------------------------------
// URLs
// ---------------------------------------------------------------------------

pub open spec fn https_scheme() -> Seq<char> {
    "https://"@
}

pub open spec fn http_scheme() -> Seq<char> {
    "http://"@
}

/// The URL that `sanitize_url` keeps for `s` once the scheme test passed:
/// trimmed, cut before the first `?` and then the first `#`, and with
/// trailing slashes removed.
pub open spec fn cleaned_url(s: Seq<char>) -> Seq<char> {
    trim_end_char(before_char(before_char(trim(s), '?'), '#'), '/')
}

/// The host part that `sanitize_url` checks: the cleaned URL without its
/// `https://` prefix, or the whole cleaned URL where that prefix is gone.
pub open spec fn checked_domain(cleaned: Seq<char>) -> Seq<char> {
    if starts_with(cleaned, https_scheme()) {
        cleaned.skip(https_scheme().len() as int)
    } else {
        cleaned
    }
}

/// What `sanitize_url` answers for the text `s`.
pub open spec fn url_verdict(s: Seq<char>) -> Result<Seq<char>, Seq<char>> {
    if !starts_with(trim(s), https_scheme()) {
        Err("url must use https://"@)
    } else {
        let d = checked_domain(cleaned_url(s));
        if d.len() == 0 || !d.contains('.') {
            Err("invalid domain"@)
        } else {
            Ok(cleaned_url(s))
        }
    }
}

pub open spec fn result_view(r: Result<String, String>) -> Result<Seq<char>, Seq<char>> {
    match r {
        Ok(s) => Ok(s@),
        Err(e) => Err(e@),
    }
}

/// Normalises a submitted endpoint URL: it must start with `https://` once
/// trimmed; query and fragment are cut off, and so are trailing slashes; the
/// remaining host part must be non-empty and hold a dot.
pub fn sanitize_url(url: &str) -> (r: Result<String, String>)
    ensures
        result_view(r) == url_verdict(url@),
{
    let v = chars_of(url);
    let (a, b) = trim_bounds(&v);
    let t = string_of(&v, a, b);
    let tv = chars_of(t.as_str());
    let scheme = chars_of("https://");
    if !has_prefix(&tv, &scheme) {
        return Err("url must use https://".to_owned());
    }
    let q = find_char_from(&tv, 0, '?');
    let before_q = string_of(&tv, 0, q);
    let qv = chars_of(before_q.as_str());
    let h = find_char_from(&qv, 0, '#');
    let hv = chars_of(string_of(&qv, 0, h).as_str());
    let mut e = hv.len();
    while e > 0 && hv[e - 1] == '/'
        invariant
            0 <= e <= hv.len(),
            forall|j: int| e <= j < hv.len() ==> hv@[j] == '/',
        decreases e,
    {
        e = e - 1;
    }
    let cleaned = string_of(&hv, 0, e);
    proof {
        assert(tv@ == trim(url@));
        assert(tv@.skip(0) == tv@);
        assert(qv@ == tv@.take(q as int));
        assert(qv@ == before_char(trim(url@), '?'));
        assert(qv@.skip(0) == qv@);
        assert(hv@ == qv@.take(h as int));
        assert(hv@ == before_char(qv@, '#'));
        if e > 0 {
            assert(hv@[e - 1] != '/');
        }
        lemma_end_where_at(hv@, is_char('/'), e as int);
        assert(cleaned@ == cleaned_url(url@));
    }
    let cv = chars_of(cleaned.as_str());
    let domain = if has_prefix(&cv, &scheme) {
        string_of(&cv, scheme.len(), cv.len())
    } else {
        string_of(&cv, 0, cv.len())
    };
    proof {
        assert(cv@.subrange(0, cv@.len() as int) == cv@);
        assert(domain@ == checked_domain(cleaned_url(url@)));
    }
    let dv = chars_of(domain.as_str());
    if dv.len() == 0 || !contains_char(&dv, '.') {
        return Err("invalid domain".to_owned());
    }
    Ok(cleaned)
}

/// What `extract_domain` answers for `s`: the text between the scheme and
/// the first `/`, for `https://` and `http://` URLs only.
pub open spec fn domain_of(s: Seq<char>) -> Option<Seq<char>> {
    if starts_with(s, https_scheme()) {
        Some(before_char(s.skip(https_scheme().len() as int), '/'))
    } else if starts_with(s, http_scheme()) {
        Some(before_char(s.skip(http_scheme().len() as int), '/'))
    } else {
        None
    }
}

pub open spec fn option_view(o: Option<String>) -> Option<Seq<char>> {
    match o {
        Some(s) => Some(s@),
        None => None,
    }
}

/// The host of an `https://` or `http://` URL: the text after the scheme
/// up to the first `/`.
pub fn extract_domain(url: &str) -> (r: Option<String>)
    ensures
        option_view(r) == domain_of(url@),
{
    let v = chars_of(url);
    let https = chars_of("https://");
    let http = chars_of("http://");
    let start = if has_prefix(&v, &https) {
        https.len()
    } else if has_prefix(&v, &http) {
        http.len()
    } else {
        return None;
    };
    let end = find_char_from(&v, start, '/');
    proof {
        assert(v@.skip(start as int).take(end - start) == v@.subrange(start as int, end as int));
    }
    Some(string_of(&v, start, end))
}

/// The file whose presence shows that a domain serves MCP.
pub open spec fn well_known_path() -> Seq<char> {
    "/.well-known/mcp.json"@
}

/// The address that is fetched to decide whether `url` may be registered:
/// `https://`, the URL's domain and the well-known path; none where the URL
/// has no domain (then the check fails without a request).
pub open spec fn well_known_check_url(url: Seq<char>) -> Option<Seq<char>> {
    match domain_of(url) {
        Some(d) => Some(https_scheme() + d + well_known_path()),
        None => None,
    }
}

/// The address that `has_well_known` fetches for `url`.
pub fn well_known_url(url: &str) -> (r: Option<String>)
    ensures
        option_view(r) == well_known_check_url(url@),
{
    match extract_domain(url) {
        Some(d) => {
            let mut s = "https://".to_owned();
            push_str(&mut s, d.as_str());
            push_str(&mut s, "/.well-known/mcp.json");
            Some(s)
        },
        None => None,
    }
}

/// The address shown to a submitter whose domain lacks the well-known file:
/// as `well_known_url`, with an empty domain where the URL has none.
pub open spec fn required_well_known_url(url: Seq<char>) -> Seq<char> {
    match domain_of(url) {
        Some(d) => https_scheme() + d + well_known_path(),
        None => https_scheme() + well_known_path(),
    }
}

pub fn required_url(url: &str) -> (r: String)
    ensures
        r@ == required_well_known_url(url@),
{
    let mut s = "https://".to_owned();
    match extract_domain(url) {
        Some(d) => push_str(&mut s, d.as_str()),
        None => {},
    }
    push_str(&mut s, "/.well-known/mcp.json");
    s
}

/// The verdict of the well-known check from the HTTP status of the answer,
/// or `None` where no answer came in time: present unless the status is 404.
pub fn well_known_found(status: Option<u16>) -> (found: bool)
    ensures
        found == (status is Some && status->0 != 404),
{
    match status {
        Some(code) => code != 404,
        None => false,
    }
}


/// A character that a stored description may hold as it is.
pub open spec fn is_clean(c: char) -> bool {
    !is_dropped_control(c) && stored_char(c) == c
}

proof fn lemma_clean_chars_clean(s: Seq<char>)
    ensures
        forall|i: int| 0 <= i < clean_chars(s).len() ==> is_clean(#[trigger] clean_chars(s)[i]),
    decreases s.len(),
{
    if s.len() > 0 {
        lemma_clean_chars_clean(s.drop_last());
        let x = s.last();
        let prev = clean_chars(s.drop_last());
        if !is_dropped_control(x) {
            assert(is_clean(stored_char(x)));
            assert forall|i: int| 0 <= i < clean_chars(s).len() implies is_clean(#[trigger] clean_chars(s)[i]) by {
                if i < prev.len() {
                    assert(clean_chars(s)[i] == prev[i]);
                }
            }
        }
    }
}

proof fn lemma_clean_chars_keeps_clean(s: Seq<char>)
    requires
        forall|i: int| 0 <= i < s.len() ==> is_clean(#[trigger] s[i]),
    ensures
        clean_chars(s) == s,
    decreases s.len(),
{
    if s.len() > 0 {
        assert forall|i: int| 0 <= i < s.drop_last().len() implies is_clean(#[trigger] s.drop_last()[i]) by {
            assert(s.drop_last()[i] == s[i]);
        }
        lemma_clean_chars_keeps_clean(s.drop_last());
        assert(is_clean(s.last()));
        assert(s.drop_last().push(s.last()) == s);
    }
}

/// Sanitizing a description twice changes nothing more than once.
pub proof fn lemma_sanitize_description_idempotent(s: Seq<char>)
    ensures
        description_of(description_of(s)) == description_of(s),
{
    let c = clean_chars(s);
    lemma_clean_chars_clean(s);
    lemma_trim_shape(c);
    let d = trim(c);
    let a = choose|a: int| 0 <= a && a + d.len() <= c.len() && d == #[trigger] c.subrange(a, a + d.len());
    assert forall|i: int| 0 <= i < d.len() implies is_clean(#[trigger] d[i]) by {
        assert(d[i] == c[a + i]);
    }
    lemma_clean_chars_keeps_clean(d);
    lemma_trim_idempotent(c);
}


proof fn lemma_before_char_keeps_scheme(s: Seq<char>, c: char)
    requires
        starts_with(s, https_scheme()),
        !https_scheme().contains(c),
    ensures
        starts_with(before_char(s, c), https_scheme()),
        !before_char(s, c).contains(c),
        before_char(s, c).len() <= s.len(),
        forall|j: int| 0 <= j < before_char(s, c).len() ==> before_char(s, c)[j] == s[j],
{
    lemma_first_where(s, is_char(c));
    let k = first_where(s, is_char(c));
    let h = https_scheme();
    if k < h.len() {
        assert(s[k] == c);
        assert(s.take(h.len() as int)[k] == s[k]);
        assert(h[k] == c);
        assert(h.contains(c));
    }
    let b = before_char(s, c);
    assert(b.take(h.len() as int) =~= s.take(h.len() as int));
    if b.contains(c) {
        let j = choose|j: int| 0 <= j < b.len() && b[j] == c;
        assert(b[j] == s[j]);
        assert(is_char(c)(s[j]));
    }
}

/// What `sanitize_url` accepts is an `https://` url without query,
/// fragment or trailing slash.
pub proof fn lemma_sanitized_url_shape(s: Seq<char>)
    requires
        url_verdict(s) is Ok,
    ensures
        starts_with(url_verdict(s)->Ok_0, https_scheme()),
        !url_verdict(s)->Ok_0.contains('?'),
        !url_verdict(s)->Ok_0.contains('#'),
        url_verdict(s)->Ok_0.len() > 0 ==> url_verdict(s)->Ok_0.last() != '/',
{
    reveal_strlit("https://");
    let h = https_scheme();
    assert(h.len() == 8);
    assert(!h.contains('?')) by {
        if h.contains('?') {
            let j = choose|j: int| 0 <= j < h.len() && h[j] == '?';
        }
    }
    assert(!h.contains('#')) by {
        if h.contains('#') {
            let j = choose|j: int| 0 <= j < h.len() && h[j] == '#';
        }
    }
    let t = trim(s);
    lemma_before_char_keeps_scheme(t, '?');
    let q = before_char(t, '?');
    lemma_before_char_keeps_scheme(q, '#');
    let x = before_char(q, '#');
    let c = cleaned_url(s);
    assert(c == trim_end_char(x, '/'));
    lemma_end_where(x, is_char('/'));
    let e = end_where(x, is_char('/'));
    assert(c == x.take(e));
    if c.contains('?') {
        let j = choose|j: int| 0 <= j < c.len() && c[j] == '?';
        assert(c[j] == x[j]);
        assert(x[j] == q[j]);
        assert(q[j] == '?');
        assert(q.contains('?'));
    }
    if c.contains('#') {
        let j = choose|j: int| 0 <= j < c.len() && c[j] == '#';
        assert(c[j] == x[j]);
        assert(x.contains('#'));
    }
    if c.len() > 0 {
        assert(c.last() == x[e - 1]);
        assert(!is_char('/')(x[e - 1]));
    }
    if e >= 8 {
        assert(c.take(8) =~= x.take(8));
    }
    if !starts_with(c, h) {
        assert(e < 8);
        assert(checked_domain(c) == c);
        assert(c.contains('.'));
        let j = choose|j: int| 0 <= j < c.len() && c[j] == '.';
        assert(c[j] == x[j]);
        assert(x.take(8)[j] == h[j]);
        assert(h[j] == '.');
        assert(false);
    }
}


/// A url that `sanitize_url` accepted is accepted again unchanged, unless
/// it ends in white space (possible where white space stood before a cut
/// `?` or `#`, as in `https://a.b ?x`, whose cleaned form the next trim
/// shortens).
pub proof fn lemma_sanitized_url_stable(s: Seq<char>)
    requires
        url_verdict(s) is Ok,
        trim(url_verdict(s)->Ok_0) == url_verdict(s)->Ok_0,
    ensures
        url_verdict(url_verdict(s)->Ok_0) == url_verdict(s),
{
    let c = url_verdict(s)->Ok_0;
    lemma_sanitized_url_shape(s);
    reveal_strlit("https://");
    assert(https_scheme().len() == 8);
    assert forall|j: int| 0 <= j < c.len() implies !is_char('?')(#[trigger] c[j]) by {
        if c[j] == '?' {
            assert(c.contains('?'));
        }
    }
    lemma_first_where_at(c, is_char('?'), c.len() as int);
    assert(before_char(c, '?') =~= c);
    assert forall|j: int| 0 <= j < c.len() implies !is_char('#')(#[trigger] c[j]) by {
        if c[j] == '#' {
            assert(c.contains('#'));
        }
    }
    lemma_first_where_at(c, is_char('#'), c.len() as int);
    assert(before_char(c, '#') =~= c);
    lemma_end_where_at(c, is_char('/'), c.len() as int);
    assert(trim_end_char(c, '/') =~= c);
    assert(cleaned_url(c) == c);
}


/// Plain text is stored as it is: a description without ASCII control
/// characters (those below U+0020, and U+007F) or double quotes, and with
/// no white space at either end, is kept unchanged. In particular every
/// character from U+0080 up, accented letters and other scripts, is kept.
pub proof fn lemma_plain_description_unchanged(s: Seq<char>)
    requires
        forall|i: int|
            0 <= i < s.len() ==> '\u{20}' <= #[trigger] s[i] && s[i] != '\u{7f}' && s[i] != '"',
        trim(s) == s,
    ensures
        description_of(s) == s,
{
    assert forall|i: int| 0 <= i < s.len() implies is_clean(#[trigger] s[i]) by {
        assert('\u{20}' <= s[i] && s[i] != '\u{7f}' && s[i] != '"');
    }
    lemma_clean_chars_keeps_clean(s);
}

} // verus!
