use vstd::prelude::*;
use vstd::string::*;

use crate::destination::{Context, FileDestinationResult};
use crate::text::chars_of;

verus! {

/// Length of a front-matter opening marker (`---\n` or `---\r\n`) that starts at
/// index `i` of `s`; 0 when none starts there.
pub open spec fn marker_len_at(s: Seq<char>, i: int) -> int {
    if 0 <= i && i + 4 <= s.len() && s[i] == '-' && s[i + 1] == '-' && s[i + 2] == '-' {
        if s[i + 3] == '\n' {
            4
        } else if s[i + 3] == '\r' && i + 5 <= s.len() && s[i + 4] == '\n' {
            5
        } else {
            0
        }
    } else {
        0
    }
}

pub open spec fn marker_at(s: Seq<char>, i: int) -> bool {
    marker_len_at(s, i) > 0
}

pub open spec fn has_marker(s: Seq<char>) -> bool {
    exists|i: int| marker_at(s, i)
}

/// `i` is the leftmost index at which a marker starts.
pub open spec fn first_marker_at(s: Seq<char>, i: int) -> bool {
    &&& marker_at(s, i)
    &&& forall|j: int| 0 <= j < i ==> !marker_at(s, j)
}

pub open spec fn first_marker(s: Seq<char>) -> int {
    choose|i: int| first_marker_at(s, i)
}

/// Where some marker starts, a leftmost one does.
pub proof fn lemma_leftmost_marker(s: Seq<char>, k: int)
    requires
        marker_at(s, k),
    ensures
        first_marker_at(s, first_marker(s)),
    decreases k,
{
    if exists|j: int| 0 <= j < k && marker_at(s, j) {
        let j = choose|j: int| 0 <= j < k && marker_at(s, j);
        lemma_leftmost_marker(s, j);
    } else {
        assert(first_marker_at(s, k));
    }
}

/// Text with no marker is left as it is: no header is put in.
pub proof fn lemma_no_marker_unchanged(s: Seq<char>, header: Seq<char>)
    requires
        !has_marker(s),
    ensures
        with_header(s, header) == s,
{
}

/// Only the leftmost marker is replaced: the text before it holds no marker,
/// and the text after it, later markers included, is kept as it is.
pub proof fn lemma_only_first_marker(s: Seq<char>, header: Seq<char>)
    requires
        has_marker(s),
    ensures
        ({
            let i = first_marker(s);
            let n = marker_len_at(s, i);
            &&& n == 4 || n == 5
            &&& with_header(s, header) == s.take(i) + header + s.skip(i + n)
            &&& !has_marker(s.take(i))
        }),
{
    let k = choose|k: int| marker_at(s, k);
    lemma_leftmost_marker(s, k);
    let i = first_marker(s);
    assert forall|j: int| !marker_at(#[trigger] s.take(i), j) by {
        let t = s.take(i);
        if marker_at(t, j) {
            assert(0 <= j && j + 4 <= t.len());
            assert(t[j] == s[j] && t[j + 1] == s[j + 1] && t[j + 2] == s[j + 2] && t[j + 3]
                == s[j + 3]);
            if t[j + 3] == '\r' {
                assert(j + 5 <= t.len());
                assert(t[j + 4] == s[j + 4]);
            }
            assert(marker_at(s, j));
            assert(j < i);
            assert(false);
        }
    }
}

/// `s` with its leftmost marker replaced by `header`; unchanged when it has none.
pub open spec fn with_header(s: Seq<char>, header: Seq<char>) -> Seq<char> {
    if has_marker(s) {
        s.take(first_marker(s)) + header + s.skip(first_marker(s) + marker_len_at(s, first_marker(s)))
    } else {
        s
    }
}

/// The new opening of the front matter: the marker, the date, and the slug
/// unless it is left out.
pub open spec fn header_of(date: Seq<char>, slug: Seq<char>, no_slug: bool) -> Seq<char> {
    let head = "---\n"@ + "date: \""@ + date + "\"\n"@;
    if no_slug {
        head
    } else {
        head + "slug: \""@ + slug + "\"\n"@
    }
}

/// White space as the Unicode `White_Space` property has it.
pub open spec fn is_space(c: char) -> bool {
    ||| '\t' <= c && c <= '\r'
    ||| c == ' '
    ||| c == '\u{85}'
    ||| c == '\u{a0}'
    ||| c == '\u{1680}'
    ||| '\u{2000}' <= c && c <= '\u{200a}'
    ||| c == '\u{2028}'
    ||| c == '\u{2029}'
    ||| c == '\u{202f}'
    ||| c == '\u{205f}'
    ||| c == '\u{3000}'
}

/// Index just past the run of white space that starts at `i`.
pub open spec fn skip_space(s: Seq<char>, i: int) -> int
    decreases s.len() - i,
{
    if 0 <= i < s.len() && is_space(s[i]) {
        skip_space(s, i + 1)
    } else {
        i
    }
}

/// `t` occurs in `s` at index `i`.
pub open spec fn lit_at(s: Seq<char>, i: int, t: Seq<char>) -> bool {
    0 <= i && i + t.len() <= s.len() && s.subrange(i, i + t.len()) == t
}

pub open spec fn after_lit(s: Seq<char>, p: Option<int>, t: Seq<char>) -> Option<int> {
    match p {
        Some(i) => if lit_at(s, i, t) {
            Some(i + t.len())
        } else {
            None
        },
        None => None,
    }
}

pub open spec fn after_space(s: Seq<char>, p: Option<int>) -> Option<int> {
    match p {
        Some(i) => Some(skip_space(s, i)),
        None => None,
    }
}

/// One character other than a line feed.
pub open spec fn after_any(s: Seq<char>, p: Option<int>) -> Option<int> {
    match p {
        Some(i) => if 0 <= i < s.len() && s[i] != '\n' {
            Some(i + 1)
        } else {
            None
        },
        None => None,
    }
}

/// End of the legacy URL token `{{ site.url }}{{ site.baseurl }}` (white space
/// allowed around each part, any one character for each `.`) that starts at
/// index `i` of `s`, if one does.
pub open spec fn url_token_end(s: Seq<char>, i: int) -> Option<int> {
    let p = after_lit(s, Some(i), "{{"@);
    let p = after_space(s, p);
    let p = after_lit(s, p, "site"@);
    let p = after_any(s, p);
    let p = after_lit(s, p, "url"@);
    let p = after_space(s, p);
    let p = after_lit(s, p, "}}"@);
    let p = after_space(s, p);
    let p = after_lit(s, p, "{{"@);
    let p = after_space(s, p);
    let p = after_lit(s, p, "site"@);
    let p = after_any(s, p);
    let p = after_lit(s, p, "baseurl"@);
    let p = after_space(s, p);
    after_lit(s, p, "}}"@)
}

/// A token starts at `i` and ends within `s`.
pub open spec fn token_at(s: Seq<char>, i: int) -> bool {
    &&& url_token_end(s, i) is Some
    &&& i < url_token_end(s, i)->0 <= s.len()
}

/// `s` from index `i` on, scanned left to right, each URL token met dropped.
pub open spec fn strip_from(s: Seq<char>, i: int) -> Seq<char>
    decreases s.len() - i,
{
    if i < 0 || i >= s.len() {
        Seq::empty()
    } else if token_at(s, i) {
        strip_from(s, url_token_end(s, i)->0)
    } else {
        seq![s[i]] + strip_from(s, i + 1)
    }
}

pub open spec fn without_url_tokens(s: Seq<char>) -> Seq<char> {
    strip_from(s, 0)
}

/// The whole rewrite of a post's text.
pub open spec fn rewritten(
    content: Seq<char>,
    date: Seq<char>,
    slug: Seq<char>,
    no_slug: bool,
    no_url_replace: bool,
) -> Seq<char> {
    let h = with_header(content, header_of(date, slug, no_slug));
    if no_url_replace {
        h
    } else {
        without_url_tokens(h)
    }
}

/// With URL replacement off, the text is the header swap and nothing more.
pub proof fn lemma_no_url_replace_keeps_body(
    content: Seq<char>,
    date: Seq<char>,
    slug: Seq<char>,
    no_slug: bool,
)
    ensures
        rewritten(content, date, slug, no_slug, true) == with_header(
            content,
            header_of(date, slug, no_slug),
        ),
{
}

/// From index `i` on, text in which no URL token starts is kept as it is.
proof fn lemma_strip_plain_from(s: Seq<char>, i: int)
    requires
        0 <= i <= s.len(),
        forall|j: int| 0 <= j < s.len() ==> !token_at(s, j),
    ensures
        strip_from(s, i) == s.skip(i),
    decreases s.len() - i,
{
    if i < s.len() {
        lemma_strip_plain_from(s, i + 1);
        assert(s.skip(i) =~= seq![s[i]] + s.skip(i + 1));
    } else {
        assert(s.skip(i) =~= Seq::<char>::empty());
    }
}

/// Text that holds no URL token comes out of the stripping unchanged.
pub proof fn lemma_plain_text_unchanged(s: Seq<char>)
    requires
        forall|j: int| 0 <= j < s.len() ==> !token_at(s, j),
    ensures
        without_url_tokens(s) == s,
{
    lemma_strip_plain_from(s, 0);
    assert(s.skip(0) =~= s);
}

pub open spec fn shifted(p: Option<int>, k: int) -> Option<int> {
    match p {
        Some(i) => Some(i + k),
        None => None,
    }
}

pub open spec fn from_start(p: Option<int>) -> bool {
    p matches Some(i) ==> i >= 0
}

proof fn lemma_skip_space_shift(x: Seq<char>, q: Seq<char>, i: int)
    requires
        0 <= i,
    ensures
        skip_space(x + q, x.len() + i) == x.len() + skip_space(q, i),
        skip_space(q, i) >= i,
    decreases q.len() - i,
{
    if i < q.len() && is_space(q[i]) {
        assert((x + q)[x.len() + i] == q[i]);
        lemma_skip_space_shift(x, q, i + 1);
    }
}

proof fn lemma_step_shift(x: Seq<char>, q: Seq<char>, p: Option<int>, t: Seq<char>)
    requires
        from_start(p),
    ensures
        after_lit(x + q, shifted(p, x.len() as int), t) == shifted(after_lit(q, p, t), x.len() as int),
        after_space(x + q, shifted(p, x.len() as int)) == shifted(after_space(q, p), x.len() as int),
        after_any(x + q, shifted(p, x.len() as int)) == shifted(after_any(q, p), x.len() as int),
        from_start(after_lit(q, p, t)),
        from_start(after_space(q, p)),
        from_start(after_any(q, p)),
{
    if let Some(i) = p {
        let k = x.len() as int;
        lemma_skip_space_shift(x, q, i);
        if i + t.len() <= q.len() {
            assert((x + q).subrange(k + i, k + i + t.len()) =~= q.subrange(i, i + t.len()));
        }
        if i < q.len() {
            assert((x + q)[k + i] == q[i]);
        }
    }
}

/// A URL token is recognised by the text from its start on alone.
proof fn lemma_token_shift(x: Seq<char>, q: Seq<char>, j: int)
    requires
        0 <= j,
    ensures
        url_token_end(x + q, x.len() + j) == shifted(url_token_end(q, j), x.len() as int),
{
    let p0 = Some(j);
    lemma_step_shift(x, q, p0, "{{"@);
    let p1 = after_lit(q, p0, "{{"@);
    lemma_step_shift(x, q, p1, "{{"@);
    let p2 = after_space(q, p1);
    lemma_step_shift(x, q, p2, "site"@);
    let p3 = after_lit(q, p2, "site"@);
    lemma_step_shift(x, q, p3, "url"@);
    let p4 = after_any(q, p3);
    lemma_step_shift(x, q, p4, "url"@);
    let p5 = after_lit(q, p4, "url"@);
    lemma_step_shift(x, q, p5, "}}"@);
    let p6 = after_space(q, p5);
    lemma_step_shift(x, q, p6, "}}"@);
    let p7 = after_lit(q, p6, "}}"@);
    lemma_step_shift(x, q, p7, "{{"@);
    let p8 = after_space(q, p7);
    lemma_step_shift(x, q, p8, "{{"@);
    let p9 = after_lit(q, p8, "{{"@);
    lemma_step_shift(x, q, p9, "site"@);
    let p10 = after_space(q, p9);
    lemma_step_shift(x, q, p10, "site"@);
    let p11 = after_lit(q, p10, "site"@);
    lemma_step_shift(x, q, p11, "baseurl"@);
    let p12 = after_any(q, p11);
    lemma_step_shift(x, q, p12, "baseurl"@);
    let p13 = after_lit(q, p12, "baseurl"@);
    lemma_step_shift(x, q, p13, "}}"@);
    let p14 = after_space(q, p13);
    lemma_step_shift(x, q, p14, "}}"@);
}

proof fn lemma_strip_shift(x: Seq<char>, q: Seq<char>, j: int)
    requires
        0 <= j <= q.len(),
    ensures
        strip_from(x + q, x.len() + j) == strip_from(q, j),
    decreases q.len() - j,
{
    let s = x + q;
    let k = x.len() as int;
    if j < q.len() {
        lemma_token_shift(x, q, j);
        assert(s[k + j] == q[j]);
        if token_at(q, j) {
            lemma_strip_shift(x, q, url_token_end(q, j)->0);
        } else {
            lemma_strip_shift(x, q, j + 1);
        }
    }
}

/// Stripping from index `i` of text whose first `n` characters hold no `{`
/// keeps those characters and goes on from index `n`.
proof fn lemma_strip_plain_prefix(s: Seq<char>, i: int, n: int)
    requires
        0 <= i <= n <= s.len(),
        forall|j: int| 0 <= j < n ==> s[j] != '{',
    ensures
        strip_from(s, i) == s.subrange(i, n) + strip_from(s, n),
    decreases n - i,
{
    if i < n {
        assert(!lit_at(s, i, "{{"@)) by {
            reveal_strlit("{{");
            if lit_at(s, i, "{{"@) {
                assert(s.subrange(i, i + 2)[0] == s[i]);
            }
        }
        lemma_strip_plain_prefix(s, i + 1, n);
        assert(s.subrange(i, n) =~= seq![s[i]] + s.subrange(i + 1, n));
    } else {
        assert(s.subrange(i, n) =~= Seq::<char>::empty());
    }
}

/// Each URL token that the scan meets is dropped: text that holds no `{`,
/// then a token, then the rest, comes out as that text followed by the
/// stripped rest.
pub proof fn lemma_token_removed(plain: Seq<char>, token: Seq<char>, rest: Seq<char>)
    requires
        forall|j: int| 0 <= j < plain.len() ==> plain[j] != '{',
        url_token_end(token + rest, 0) == Some(token.len() as int),
        token.len() > 0,
    ensures
        without_url_tokens(plain + token + rest) == plain + without_url_tokens(rest),
{
    let s = plain + (token + rest);
    assert(plain + token + rest =~= s);
    let n = plain.len() as int;
    lemma_strip_plain_prefix(s, 0, n);
    assert(s.subrange(0, n) =~= plain);
    lemma_token_shift(plain, token + rest, 0);
    assert(token_at(s, n));
    assert(plain + token + rest =~= (plain + token) + rest);
    lemma_strip_shift(plain + token, rest, 0);
}

pub open spec fn as_pos(p: Option<usize>) -> Option<int> {
    match p {
        Some(i) => Some(i as int),
        None => None,
    }
}

/// The front-matter opening written into every post.
pub fn frontmatter_header(date: &str, slug: &str, no_slug: bool) -> (r: String)
    ensures
        r@ == header_of(date@, slug@, no_slug),
{
    let head = "---\n".to_string().concat("date: \"").concat(date).concat("\"\n");
    if no_slug {
        head
    } else {
        head.concat("slug: \"").concat(slug).concat("\"\n")
    }
}

/// Length of the marker that starts at index `i` of `v`; 0 when none does.
pub fn marker_len(v: &Vec<char>, i: usize) -> (r: usize)
    ensures
        r as int == marker_len_at(v@, i as int),
{
    if i < v.len() && v.len() - i >= 4 && v[i] == '-' && v[i + 1] == '-' && v[i + 2] == '-' {
        if v[i + 3] == '\n' {
            4
        } else if v[i + 3] == '\r' && v.len() - i >= 5 && v[i + 4] == '\n' {
            5
        } else {
            0
        }
    } else {
        0
    }
}

/// Index of the leftmost marker of `v`, if any.
pub fn find_marker(v: &Vec<char>) -> (r: Option<usize>)
    ensures
        match r {
            Some(i) => first_marker_at(v@, i as int),
            None => !has_marker(v@),
        },
{
    let mut i: usize = 0;
    while i < v.len()
        invariant
            i <= v.len(),
            forall|j: int| 0 <= j < i ==> !marker_at(v@, j),
        decreases v.len() - i,
    {
        if marker_len(v, i) > 0 {
            return Some(i);
        }
        i = i + 1;
    }
    assert forall|j: int| 0 <= j implies !marker_at(v@, j) by {
        if j >= v.len() {
            assert(!marker_at(v@, j));
        }
    }
    None
}

proof fn lemma_first_marker(s: Seq<char>, i: int)
    requires
        first_marker_at(s, i),
    ensures
        has_marker(s),
        first_marker(s) == i,
{
    let k = first_marker(s);
    assert(first_marker_at(s, k));
    if k < i {
        assert(!marker_at(s, k));
    } else if i < k {
        assert(!marker_at(s, i));
    }
}

/// `content` with its leftmost front-matter marker replaced by `header`.
/// Everything before and after the marker is kept as it is; text with no
/// marker comes back unchanged.
pub fn replace_first_marker(content: &str, header: &str) -> (r: String)
    ensures
        r@ == with_header(content@, header@),
{
    let v = chars_of(content);
    match find_marker(&v) {
        None => content.to_string(),
        Some(i) => {
            proof {
                lemma_first_marker(content@, i as int);
            }
            let m = marker_len(&v, i);
            assert(i + m <= v.len());
            let r = content.substring_char(0, i).to_string().concat(header).concat(
                content.substring_char(i + m, v.len()),
            );
            assert(content@.subrange(0, i as int) == content@.take(i as int));
            assert(content@.subrange(i + m, content@.len() as int) == content@.skip(i + m));
            r
        },
    }
}

/// Index just past the run of white space that starts at `i`.
pub fn space_end(v: &Vec<char>, i: usize) -> (r: usize)
    ensures
        r as int == skip_space(v@, i as int),
{
    let mut j: usize = i;
    while j < v.len()
        invariant
            i <= j,
            skip_space(v@, j as int) == skip_space(v@, i as int),
        decreases v.len() - j,
    {
        let c = v[j];
        let sp = ('\t' <= c && c <= '\r') || c == ' ' || c == '\u{85}' || c == '\u{a0}' || c
            == '\u{1680}' || ('\u{2000}' <= c && c <= '\u{200a}') || c == '\u{2028}' || c
            == '\u{2029}' || c == '\u{202f}' || c == '\u{205f}' || c == '\u{3000}';
        if !sp {
            return j;
        }
        j = j + 1;
    }
    j
}

/// Whether `t` occurs in `v` at index `i`.
pub fn literal_at(v: &Vec<char>, i: usize, t: &str) -> (r: bool)
    ensures
        r == lit_at(v@, i as int, t@),
{
    let n = t.unicode_len();
    if i > v.len() || v.len() - i < n {
        return false;
    }
    let mut k: usize = 0;
    while k < n
        invariant
            n == t@.len(),
            i + n <= v.len(),
            k <= n,
            forall|j: int| 0 <= j < k ==> v@[i + j] == t@[j],
        decreases n - k,
    {
        if v[i + k] != t.get_char(k) {
            assert(v@.subrange(i as int, i + n)[k as int] != t@[k as int]);
            return false;
        }
        k = k + 1;
    }
    assert(v@.subrange(i as int, i + n) =~= t@);
    true
}

fn after_literal(v: &Vec<char>, p: Option<usize>, t: &str) -> (r: Option<usize>)
    ensures
        as_pos(r) == after_lit(v@, as_pos(p), t@),
        r matches Some(e) ==> e <= v.len(),
{
    match p {
        Some(i) => if literal_at(v, i, t) {
            let n = t.unicode_len();
            assert(i + n <= v.len());
            Some(i + n)
        } else {
            None
        },
        None => None,
    }
}

fn after_spaces(v: &Vec<char>, p: Option<usize>) -> (r: Option<usize>)
    ensures
        as_pos(r) == after_space(v@, as_pos(p)),
{
    match p {
        Some(i) => Some(space_end(v, i)),
        None => None,
    }
}

fn after_one(v: &Vec<char>, p: Option<usize>) -> (r: Option<usize>)
    ensures
        as_pos(r) == after_any(v@, as_pos(p)),
{
    match p {
        Some(i) => if i < v.len() && v[i] != '\n' {
            Some(i + 1)
        } else {
            None
        },
        None => None,
    }
}

/// End of the URL token that starts at index `i` of `v`, if one does.
pub fn token_end(v: &Vec<char>, i: usize) -> (r: Option<usize>)
    ensures
        as_pos(r) == url_token_end(v@, i as int),
{
    let p = after_literal(v, Some(i), "{{");
    let p = after_spaces(v, p);
    let p = after_literal(v, p, "site");
    let p = after_one(v, p);
    let p = after_literal(v, p, "url");
    let p = after_spaces(v, p);
    let p = after_literal(v, p, "}}");
    let p = after_spaces(v, p);
    let p = after_literal(v, p, "{{");
    let p = after_spaces(v, p);
    let p = after_literal(v, p, "site");
    let p = after_one(v, p);
    let p = after_literal(v, p, "baseurl");
    let p = after_spaces(v, p);
    after_literal(v, p, "}}")
}

/// `s` with every legacy URL token met in one left-to-right scan removed.
pub fn remove_url_tokens(s: &str) -> (r: String)
    ensures
        r@ == without_url_tokens(s@),
{
    let v = chars_of(s);
    let mut out = String::new();
    let mut seg: usize = 0;
    let mut i: usize = 0;
    while i < v.len()
        invariant
            v@ == s@,
            seg <= i <= v.len(),
            strip_from(s@, 0) == out@ + s@.subrange(seg as int, i as int) + strip_from(
                s@,
                i as int,
            ),
        decreases v.len() - i,
    {
        match token_end(&v, i) {
            Some(e) => {
                if i < e && e <= v.len() {
                    assert(token_at(s@, i as int));
                    out.append(s.substring_char(seg, i));
                    assert(s@.subrange(e as int, e as int) =~= Seq::<char>::empty());
                    assert(out@ + s@.subrange(e as int, e as int) + strip_from(s@, e as int)
                        =~= out@ + strip_from(s@, e as int));
                    seg = e;
                    i = e;
                } else {
                    assert(!token_at(s@, i as int));
                    assert(s@.subrange(seg as int, i + 1) =~= s@.subrange(seg as int, i as int)
                        + seq![s@[i as int]]);
                    i = i + 1;
                }
            },
            None => {
                assert(!token_at(s@, i as int));
                assert(s@.subrange(seg as int, i + 1) =~= s@.subrange(seg as int, i as int)
                    + seq![s@[i as int]]);
                i = i + 1;
            },
        }
    }
    out.append(s.substring_char(seg, v.len()));
    assert(strip_from(s@, i as int) =~= Seq::<char>::empty());
    out
}

/// The post's new text: the header of `dest` in place of the leftmost
/// front-matter marker, then the URL tokens removed unless `ctx` says not to.
pub fn rewrite(content: &str, dest: &FileDestinationResult, ctx: &Context) -> (r: String)
    ensures
        r@ == rewritten(content@, dest.new_date@, dest.slug@, ctx.no_slug, ctx.no_url_replace),
{
    let header = frontmatter_header(dest.new_date.as_str(), dest.slug.as_str(), ctx.no_slug);
    let result = replace_first_marker(content, header.as_str());
    if ctx.no_url_replace {
        result
    } else {
        remove_url_tokens(result.as_str())
    }
}

} // verus!
