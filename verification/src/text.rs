//! A model of the handful of `str` operations that the parsers use
//! (`lines`, `split_whitespace`, `trim`, `find`, `starts_with`, `u64::from_str`),
//! stated over the character sequence of a string, with executable
//! counterparts on `Vec<char>` that are proved to follow the model.
use vstd::prelude::*;

verus! {

// ---------------------------------------------------------------------------
// Characters
// ---------------------------------------------------------------------------

/// Unicode `White_Space`, the property that `char::is_whitespace` tests and
/// that `str::split_whitespace` and `str::trim` split and strip on.
pub open spec fn is_ws(c: char) -> bool {
    let u = c as u32;
    ||| 0x09 <= u && u <= 0x0D
    ||| u == 0x20
    ||| u == 0x85
    ||| u == 0xA0
    ||| u == 0x1680
    ||| 0x2000 <= u && u <= 0x200A
    ||| u == 0x2028
    ||| u == 0x2029
    ||| u == 0x202F
    ||| u == 0x205F
    ||| u == 0x3000
}

pub fn is_whitespace(c: char) -> (b: bool)
    ensures
        b == is_ws(c),
{
    let u = c as u32;
    (0x09 <= u && u <= 0x0D) || u == 0x20 || u == 0x85 || u == 0xA0 || u == 0x1680 || (0x2000
        <= u && u <= 0x200A) || u == 0x2028 || u == 0x2029 || u == 0x202F || u == 0x205F || u
        == 0x3000
}

pub open spec fn is_digit(c: char) -> bool {
    0x30 <= (c as u32) && (c as u32) <= 0x39
}

pub open spec fn digit_val(c: char) -> nat {
    ((c as u32) - 0x30) as nat
}

// ---------------------------------------------------------------------------
// Runs of characters
// ---------------------------------------------------------------------------

/// Number of leading whitespace characters.
pub open spec fn ws_run(s: Seq<char>) -> nat
    decreases s.len(),
{
    if s.len() > 0 && is_ws(s[0]) {
        1 + ws_run(s.drop_first())
    } else {
        0
    }
}

/// Number of leading characters that are not whitespace.
pub open spec fn word_run(s: Seq<char>) -> nat
    decreases s.len(),
{
    if s.len() > 0 && !is_ws(s[0]) {
        1 + word_run(s.drop_first())
    } else {
        0
    }
}

/// Number of leading characters that differ from `c`.
pub open spec fn until_char(s: Seq<char>, c: char) -> nat
    decreases s.len(),
{
    if s.len() > 0 && s[0] != c {
        1 + until_char(s.drop_first(), c)
    } else {
        0
    }
}

/// Number of trailing whitespace characters.
pub open spec fn ws_tail(s: Seq<char>) -> nat
    decreases s.len(),
{
    if s.len() > 0 && is_ws(s.last()) {
        1 + ws_tail(s.drop_last())
    } else {
        0
    }
}

pub proof fn lemma_ws_run(s: Seq<char>, k: int)
    requires
        0 <= k <= s.len(),
        forall|j: int| 0 <= j < k ==> is_ws(#[trigger] s[j]),
        k == s.len() || !is_ws(s[k]),
    ensures
        ws_run(s) == k,
    decreases k,
{
    if k > 0 {
        let t = s.drop_first();
        assert forall|j: int| 0 <= j < k - 1 implies is_ws(#[trigger] t[j]) by {
            assert(t[j] == s[j + 1]);
        }
        lemma_ws_run(t, k - 1);
    }
}

pub proof fn lemma_word_run(s: Seq<char>, k: int)
    requires
        0 <= k <= s.len(),
        forall|j: int| 0 <= j < k ==> !is_ws(#[trigger] s[j]),
        k == s.len() || is_ws(s[k]),
    ensures
        word_run(s) == k,
    decreases k,
{
    if k > 0 {
        let t = s.drop_first();
        assert forall|j: int| 0 <= j < k - 1 implies !is_ws(#[trigger] t[j]) by {
            assert(t[j] == s[j + 1]);
        }
        lemma_word_run(t, k - 1);
    }
}

pub proof fn lemma_until_char(s: Seq<char>, c: char, k: int)
    requires
        0 <= k <= s.len(),
        forall|j: int| 0 <= j < k ==> #[trigger] s[j] != c,
        k == s.len() || s[k] == c,
    ensures
        until_char(s, c) == k,
    decreases k,
{
    if k > 0 {
        let t = s.drop_first();
        assert forall|j: int| 0 <= j < k - 1 implies #[trigger] t[j] != c by {
            assert(t[j] == s[j + 1]);
        }
        lemma_until_char(t, c, k - 1);
    }
}

pub proof fn lemma_ws_tail(s: Seq<char>, k: int)
    requires
        0 <= k <= s.len(),
        forall|j: int| s.len() - k <= j < s.len() ==> is_ws(#[trigger] s[j]),
        k == s.len() || !is_ws(s[s.len() - k - 1]),
    ensures
        ws_tail(s) == k,
    decreases k,
{
    if k > 0 {
        let t = s.drop_last();
        assert forall|j: int| t.len() - (k - 1) <= j < t.len() implies is_ws(#[trigger] t[j]) by {
            assert(t[j] == s[j]);
        }
        lemma_ws_tail(t, k - 1);
    }
}

pub proof fn lemma_run_bounds(s: Seq<char>, c: char)
    ensures
        ws_run(s) <= s.len(),
        word_run(s) <= s.len(),
        until_char(s, c) <= s.len(),
        ws_tail(s) <= s.len(),
    decreases s.len(),
{
    if s.len() > 0 {
        lemma_run_bounds(s.drop_first(), c);
        lemma_run_bounds(s.drop_last(), c);
    }
}

// ---------------------------------------------------------------------------
// Derived operations on character sequences
// ---------------------------------------------------------------------------

/// `str::trim_start`
pub open spec fn trim_start(s: Seq<char>) -> Seq<char> {
    s.skip(ws_run(s) as int)
}

/// `str::trim_end`
pub open spec fn trim_end(s: Seq<char>) -> Seq<char> {
    s.take(s.len() - ws_tail(s))
}

/// `str::trim`
pub open spec fn trim(s: Seq<char>) -> Seq<char> {
    trim_end(trim_start(s))
}

/// `str::starts_with` with a string pattern.
pub open spec fn starts_with(s: Seq<char>, p: Seq<char>) -> bool {
    p.len() <= s.len() && s.take(p.len() as int) == p
}

/// One line ending removed, as `str::lines` does with `"\r\n"`.
pub open spec fn strip_cr(l: Seq<char>) -> Seq<char> {
    if l.len() > 0 && l.last() == '\r' {
        l.drop_last()
    } else {
        l
    }
}

/// `str::lines`: pieces split at `'\n'`, a `'\r'` before the `'\n'` removed,
/// and no empty piece after a final line ending.
pub open spec fn lines(s: Seq<char>) -> Seq<Seq<char>>
    decreases s.len(),
{
    if s.len() == 0 {
        seq![]
    } else {
        let k = until_char(s, '\n');
        if k >= s.len() {
            seq![s]
        } else {
            seq![strip_cr(s.take(k as int))] + lines(s.skip(k + 1 as int))
        }
    }
}

/// `str::split_whitespace`: the maximal runs of non-whitespace characters.
pub open spec fn words(s: Seq<char>) -> Seq<Seq<char>>
    decreases s.len(),
{
    if s.len() == 0 {
        seq![]
    } else if is_ws(s[0]) {
        words(s.drop_first())
    } else {
        let k = word_run(s);
        proof {
            lemma_run_bounds(s, ' ');
        }
        seq![s.take(k as int)] + words(s.skip(k as int))
    }
}

/// First position at or after `k` where `p` occurs in `s`.
pub open spec fn find_from(s: Seq<char>, p: Seq<char>, k: int) -> Option<int>
    decreases s.len() + 1 - k,
{
    if k < 0 || k + p.len() > s.len() {
        None
    } else if s.subrange(k, k + p.len()) == p {
        Some(k)
    } else {
        find_from(s, p, k + 1)
    }
}

/// `str::find` with a string pattern (as a character position).
pub open spec fn find(s: Seq<char>, p: Seq<char>) -> Option<int> {
    find_from(s, p, 0)
}

/// `str::split` on a character: the pieces between the separators,
/// empty pieces included (an empty text is one empty piece).
pub open spec fn split_on(s: Seq<char>, c: char) -> Seq<Seq<char>>
    decreases s.len(),
{
    let k = until_char(s, c);
    if k >= s.len() {
        seq![s]
    } else {
        seq![s.take(k as int)] + split_on(s.skip(k + 1 as int), c)
    }
}

/// `str::trim_end_matches` with a character: every trailing `c` removed.
pub open spec fn strip_trailing(s: Seq<char>, c: char) -> Seq<char>
    decreases s.len(),
{
    if s.len() > 0 && s.last() == c {
        strip_trailing(s.drop_last(), c)
    } else {
        s
    }
}

/// Decimal value of a sequence of digits.
pub open spec fn digits_value(d: Seq<char>) -> nat
    decreases d.len(),
{
    if d.len() == 0 {
        0
    } else {
        digits_value(d.drop_last()) * 10 + digit_val(d.last())
    }
}

pub open spec fn all_digits(d: Seq<char>) -> bool {
    forall|i: int| 0 <= i < d.len() ==> is_digit(#[trigger] d[i])
}

/// `u64::from_str`: an optional `'+'`, then one or more ASCII digits whose
/// value fits in a `u64`.
pub open spec fn parse_u64(s: Seq<char>) -> Option<u64> {
    let d = if s.len() > 0 && s[0] == '+' {
        s.drop_first()
    } else {
        s
    };
    if d.len() > 0 && all_digits(d) && digits_value(d) <= u64::MAX {
        Some(digits_value(d) as u64)
    } else {
        None
    }
}

/// The views of a sequence of character vectors.
pub open spec fn views(v: Seq<Vec<char>>) -> Seq<Seq<char>> {
    v.map_values(|l: Vec<char>| l@)
}

pub proof fn lemma_views_push(v: Seq<Vec<char>>, x: Vec<char>)
    ensures
        views(v.push(x)) == views(v).push(x@),
{
    assert(views(v.push(x)) =~= views(v).push(x@));
}

pub proof fn lemma_digits_value_prefix(d: Seq<char>, k: int)
    requires
        0 <= k <= d.len(),
    ensures
        digits_value(d.take(k)) <= digits_value(d),
    decreases d.len() - k,
{
    if k < d.len() {
        let e = d.drop_last();
        lemma_digits_value_prefix(e, k);
        assert(e.take(k) =~= d.take(k));
    } else {
        assert(d.take(k) =~= d);
    }
}

// ---------------------------------------------------------------------------
// Executable counterparts
// ---------------------------------------------------------------------------

/// The characters of `s`, in order.
pub fn to_chars(s: &str) -> (v: Vec<char>)
    ensures
        v@ == s@,
{
    let mut v: Vec<char> = Vec::new();
    for c in it: s.chars()
        invariant
            v@ == it.seq().take(it.index() as int),
            it.seq() == s@,
    {
        v.push(c);
    }
    v
}

/// A string of the characters of `v`, by std's `String::from_iter` over
/// them. Claimed, as its documentation says: the string holds exactly those
/// characters, in order.
#[verifier::external_body]
pub(crate) fn chars_to_string(v: &Vec<char>) -> (s: String)
    ensures
        s@ == v@,
{
    String::from_iter(v.iter())
}

/// The characters of `v` from `lo` up to `hi`.
pub fn slice_chars(v: &Vec<char>, lo: usize, hi: usize) -> (r: Vec<char>)
    requires
        lo <= hi <= v.len(),
    ensures
        r@ == v@.subrange(lo as int, hi as int),
{
    let mut r: Vec<char> = Vec::new();
    let mut i = lo;
    while i < hi
        invariant
            lo <= i <= hi <= v.len(),
            r@ == v@.subrange(lo as int, i as int),
        decreases hi - i,
    {
        r.push(v[i]);
        i += 1;
        assert(r@ =~= v@.subrange(lo as int, i as int));
    }
    r
}

pub fn chars_eq(a: &Vec<char>, b: &Vec<char>) -> (r: bool)
    ensures
        r == (a@ == b@),
{
    if a.len() != b.len() {
        return false;
    }
    let mut i: usize = 0;
    while i < a.len()
        invariant
            a.len() == b.len(),
            i <= a.len(),
            forall|j: int| 0 <= j < i ==> a@[j] == b@[j],
        decreases a.len() - i,
    {
        if a[i] != b[i] {
            return false;
        }
        i += 1;
    }
    assert(a@ =~= b@);
    true
}

/// Whether `p` occurs in `v` at position `k`.
pub fn matches_at(v: &Vec<char>, k: usize, p: &Vec<char>) -> (r: bool)
    requires
        k <= v.len(),
    ensures
        r == (k + p.len() <= v.len() && v@.subrange(k as int, k + p.len()) == p@),
{
    if p.len() > v.len() - k {
        return false;
    }
    let mut i: usize = 0;
    while i < p.len()
        invariant
            k + p.len() <= v.len(),
            i <= p.len(),
            forall|j: int| 0 <= j < i ==> v@[k + j] == p@[j],
        decreases p.len() - i,
    {
        if v[k + i] != p[i] {
            assert(v@.subrange(k as int, k + p.len())[i as int] != p@[i as int]);
            return false;
        }
        i += 1;
    }
    assert(v@.subrange(k as int, k + p.len()) =~= p@);
    true
}

pub fn starts_with_chars(v: &Vec<char>, p: &Vec<char>) -> (r: bool)
    ensures
        r == starts_with(v@, p@),
{
    let r = matches_at(v, 0, p);
    assert(r == starts_with(v@, p@)) by {
        if p.len() <= v.len() {
            assert(v@.subrange(0, p.len() as int) =~= v@.take(p.len() as int));
        }
    }
    r
}

/// Position of the first occurrence of `p` in `v`.
pub fn find_chars(v: &Vec<char>, p: &Vec<char>) -> (r: Option<usize>)
    ensures
        r matches Some(k) ==> find(v@, p@) == Some(k as int),
        r is None ==> find(v@, p@) is None,
{
    let mut k: usize = 0;
    loop
        invariant
            k <= v.len(),
            find(v@, p@) == find_from(v@, p@, k as int),
        decreases v.len() - k,
    {
        if p.len() > v.len() - k {
            return None;
        }
        if matches_at(v, k, p) {
            return Some(k);
        }
        if p.len() == 0 {
            assert(v@.subrange(k as int, k as int) =~= p@);
        }
        k += 1;
    }
}

/// End of the run of whitespace that starts at `i`.
pub fn skip_ws(v: &Vec<char>, i: usize) -> (j: usize)
    requires
        i <= v.len(),
    ensures
        i <= j <= v.len(),
        j - i == ws_run(v@.skip(i as int)),
{
    let mut j = i;
    while j < v.len() && is_whitespace(v[j])
        invariant
            i <= j <= v.len(),
            forall|t: int| i <= t < j ==> is_ws(#[trigger] v@[t]),
        decreases v.len() - j,
    {
        j += 1;
    }
    proof {
        let s = v@.skip(i as int);
        assert forall|t: int| 0 <= t < j - i implies is_ws(#[trigger] s[t]) by {
            assert(s[t] == v@[i + t]);
        }
        lemma_ws_run(s, j - i);
    }
    j
}

/// End of the run of non-whitespace that starts at `i`.
pub fn skip_word(v: &Vec<char>, i: usize) -> (j: usize)
    requires
        i <= v.len(),
    ensures
        i <= j <= v.len(),
        j - i == word_run(v@.skip(i as int)),
{
    let mut j = i;
    while j < v.len() && !is_whitespace(v[j])
        invariant
            i <= j <= v.len(),
            forall|t: int| i <= t < j ==> !is_ws(#[trigger] v@[t]),
        decreases v.len() - j,
    {
        j += 1;
    }
    proof {
        let s = v@.skip(i as int);
        assert forall|t: int| 0 <= t < j - i implies !is_ws(#[trigger] s[t]) by {
            assert(s[t] == v@[i + t]);
        }
        lemma_word_run(s, j - i);
    }
    j
}

/// End of the run of characters other than `c` that starts at `i`.
pub fn skip_until(v: &Vec<char>, i: usize, c: char) -> (j: usize)
    requires
        i <= v.len(),
    ensures
        i <= j <= v.len(),
        j - i == until_char(v@.skip(i as int), c),
{
    let mut j = i;
    while j < v.len() && v[j] != c
        invariant
            i <= j <= v.len(),
            forall|t: int| i <= t < j ==> #[trigger] v@[t] != c,
        decreases v.len() - j,
    {
        j += 1;
    }
    proof {
        let s = v@.skip(i as int);
        assert forall|t: int| 0 <= t < j - i implies #[trigger] s[t] != c by {
            assert(s[t] == v@[i + t]);
        }
        lemma_until_char(s, c, j - i);
    }
    j
}

/// Length of `v` once trailing whitespace is removed.
pub fn trim_end_len(v: &Vec<char>) -> (j: usize)
    ensures
        j <= v.len(),
        j == v.len() - ws_tail(v@),
{
    let mut j = v.len();
    while j > 0 && is_whitespace(v[j - 1])
        invariant
            j <= v.len(),
            forall|t: int| j <= t < v.len() ==> is_ws(#[trigger] v@[t]),
        decreases j,
    {
        j -= 1;
    }
    proof {
        lemma_ws_tail(v@, v.len() - j);
    }
    j
}

/// `trim_end` on a character vector.
pub fn trim_end_chars(v: &Vec<char>) -> (r: Vec<char>)
    ensures
        r@ == trim_end(v@),
{
    let j = trim_end_len(v);
    slice_chars(v, 0, j)
}

/// `a` followed by `b`.
pub fn concat_chars(a: &Vec<char>, b: &Vec<char>) -> (r: Vec<char>)
    ensures
        r@ == a@ + b@,
{
    let mut r: Vec<char> = Vec::new();
    let mut i: usize = 0;
    while i < a.len()
        invariant
            i <= a.len(),
            r@ == a@.take(i as int),
        decreases a.len() - i,
    {
        r.push(a[i]);
        i += 1;
        assert(r@ =~= a@.take(i as int));
    }
    let mut k: usize = 0;
    while k < b.len()
        invariant
            i == a.len(),
            k <= b.len(),
            r@ == a@ + b@.take(k as int),
        decreases b.len() - k,
    {
        r.push(b[k]);
        k += 1;
        assert(r@ =~= a@ + b@.take(k as int));
    }
    assert(a@ =~= a@.take(a.len() as int));
    assert(b@ =~= b@.take(b.len() as int));
    r
}

/// `trim` on a character vector.
pub fn trim_chars(v: &Vec<char>) -> (r: Vec<char>)
    ensures
        r@ == trim(v@),
{
    let i = skip_ws(v, 0);
    assert(v@.skip(0) =~= v@);
    let s = slice_chars(v, i, v.len());
    assert(s@ =~= trim_start(v@));
    trim_end_chars(&s)
}

/// `lines` on a character vector.
pub fn lines_chars(v: &Vec<char>) -> (r: Vec<Vec<char>>)
    ensures
        views(r@) == lines(v@),
{
    let mut out: Vec<Vec<char>> = Vec::new();
    let mut pos: usize = 0;
    assert(v@.skip(0) =~= v@);
    while pos < v.len()
        invariant
            pos <= v.len(),
            views(out@) + lines(v@.skip(pos as int)) == lines(v@),
        decreases v.len() - pos,
    {
        let ghost rest = v@.skip(pos as int);
        let j = skip_until(v, pos, '\n');
        if j == v.len() {
            let line = slice_chars(v, pos, v.len());
            assert(line@ =~= rest);
            assert(lines(rest) == seq![rest]);
            proof {
                lemma_views_push(out@, line);
            }
            out.push(line);
            assert(v@.skip(v.len() as int) =~= Seq::<char>::empty());
            assert(views(out@) + lines(v@.skip(v.len() as int)) =~= views(out@));
            pos = v.len();
        } else {
            let end = if j > pos && v[j - 1] == '\r' {
                j - 1
            } else {
                j
            };
            let line = slice_chars(v, pos, end);
            let ghost k = (j - pos) as int;
            assert(line@ =~= strip_cr(rest.take(k)));
            assert(rest.skip(k + 1 as int) =~= v@.skip(j + 1));
            assert(lines(rest) == seq![strip_cr(rest.take(k))] + lines(rest.skip(k + 1 as int)));
            proof {
                lemma_views_push(out@, line);
            }
            out.push(line);
            assert(views(out@) + lines(v@.skip(j + 1)) =~= views(out@).drop_last() + lines(rest));
            pos = j + 1;
        }
    }
    assert(v@.skip(pos as int) =~= Seq::<char>::empty());
    assert(views(out@) + lines(v@.skip(pos as int)) =~= views(out@));
    out
}

/// `split_whitespace` on a character vector.
pub fn words_chars(v: &Vec<char>) -> (r: Vec<Vec<char>>)
    ensures
        views(r@) == words(v@),
{
    let mut out: Vec<Vec<char>> = Vec::new();
    let mut pos: usize = 0;
    assert(v@.skip(0) =~= v@);
    while pos < v.len()
        invariant
            pos <= v.len(),
            views(out@) + words(v@.skip(pos as int)) == words(v@),
        decreases v.len() - pos,
    {
        let ghost rest = v@.skip(pos as int);
        if is_whitespace(v[pos]) {
            assert(rest.drop_first() =~= v@.skip(pos + 1));
            pos += 1;
        } else {
            let j = skip_word(v, pos);
            let w = slice_chars(v, pos, j);
            let ghost k = (j - pos) as int;
            assert(w@ =~= rest.take(k));
            assert(rest.skip(k) =~= v@.skip(j as int));
            assert(words(rest) == seq![rest.take(k)] + words(rest.skip(k)));
            proof {
                lemma_views_push(out@, w);
            }
            out.push(w);
            assert(views(out@) + words(v@.skip(j as int)) =~= views(out@).drop_last() + words(
                rest,
            ));
            pos = j;
        }
    }
    assert(v@.skip(pos as int) =~= Seq::<char>::empty());
    assert(views(out@) + words(v@.skip(pos as int)) =~= views(out@));
    out
}

/// `split` on a character, for a character vector.
pub fn split_chars(v: &Vec<char>, c: char) -> (r: Vec<Vec<char>>)
    ensures
        views(r@) == split_on(v@, c),
{
    let mut out: Vec<Vec<char>> = Vec::new();
    let mut pos: usize = 0;
    assert(v@.skip(0) =~= v@);
    loop
        invariant
            pos <= v.len(),
            views(out@) + split_on(v@.skip(pos as int), c) == split_on(v@, c),
        decreases v.len() - pos,
    {
        let ghost rest = v@.skip(pos as int);
        let j = skip_until(v, pos, c);
        if j == v.len() {
            let piece = slice_chars(v, pos, v.len());
            assert(piece@ =~= rest);
            assert(split_on(rest, c) == seq![rest]);
            proof {
                lemma_views_push(out@, piece);
            }
            out.push(piece);
            assert(views(out@) =~= views(out@).drop_last() + split_on(rest, c));
            return out;
        }
        let piece = slice_chars(v, pos, j);
        let ghost k = (j - pos) as int;
        assert(piece@ =~= rest.take(k));
        assert(rest.skip(k + 1 as int) =~= v@.skip(j + 1));
        assert(split_on(rest, c) == seq![rest.take(k)] + split_on(rest.skip(k + 1 as int), c));
        proof {
            lemma_views_push(out@, piece);
        }
        out.push(piece);
        assert(views(out@) + split_on(v@.skip(j + 1), c) =~= views(out@).drop_last() + split_on(
            rest,
            c,
        ));
        pos = j + 1;
    }
}

/// `trim_end_matches` with a character, for a character vector.
pub fn strip_trailing_chars(v: &Vec<char>, c: char) -> (r: Vec<char>)
    ensures
        r@ == strip_trailing(v@, c),
{
    let mut j = v.len();
    assert(v@.take(v.len() as int) =~= v@);
    while j > 0 && v[j - 1] == c
        invariant
            j <= v.len(),
            strip_trailing(v@, c) == strip_trailing(v@.take(j as int), c),
        decreases j,
    {
        assert(v@.take(j as int).drop_last() =~= v@.take(j - 1));
        j -= 1;
    }
    let r = slice_chars(v, 0, j);
    assert(r@ =~= v@.take(j as int));
    r
}

/// `u64::from_str` on a character vector.
pub fn parse_u64_chars(v: &Vec<char>) -> (r: Option<u64>)
    ensures
        r == parse_u64(v@),
{
    let n = v.len();
    let mut i: usize = 0;
    if n > 0 && v[0] == '+' {
        i = 1;
    }
    let start = i;
    let ghost d = v@.subrange(start as int, n as int);
    assert(d =~= (if v@.len() > 0 && v@[0] == '+' {
        v@.drop_first()
    } else {
        v@
    }));
    if i == n {
        return None;
    }
    let mut acc: u64 = 0;
    assert(v@.subrange(start as int, start as int) =~= Seq::<char>::empty());
    while i < n
        invariant
            start <= i <= n == v.len(),
            d == v@.subrange(start as int, n as int),
            d == (if v@.len() > 0 && v@[0] == '+' {
                v@.drop_first()
            } else {
                v@
            }),
            start < n,
            all_digits(v@.subrange(start as int, i as int)),
            acc == digits_value(v@.subrange(start as int, i as int)),
        decreases n - i,
    {
        let c = v[i];
        let u = c as u32;
        if u < 0x30 || u > 0x39 {
            assert(d[i - start] == c);
            assert(!is_digit(d[i - start]));
            assert(!all_digits(d));
            return None;
        }
        let dv = (u - 0x30) as u64;
        let ghost prefix = v@.subrange(start as int, i + 1);
        assert(prefix.drop_last() =~= v@.subrange(start as int, i as int));
        assert(prefix.last() == c);
        if acc > (u64::MAX - dv) / 10 {
            proof {
                assert(acc * 10 + dv > u64::MAX) by (nonlinear_arith)
                    requires
                        acc > (u64::MAX - dv) / 10,
                        dv <= 9,
                ;
                assert(digits_value(prefix) == acc * 10 + dv);
                assert(prefix =~= d.take(i + 1 - start));
                lemma_digits_value_prefix(d, i + 1 - start);
            }
            return None;
        }
        acc = acc * 10 + dv;
        i += 1;
        assert(all_digits(prefix)) by {
            assert forall|t: int| 0 <= t < prefix.len() implies is_digit(#[trigger] prefix[t]) by {
                if t < prefix.len() - 1 {
                    assert(prefix[t] == v@.subrange(start as int, i - 1)[t]);
                }
            }
        }
    }
    Some(acc)
}

// ---------------------------------------------------------------------------
// Facts about lines and words of joined texts
// ---------------------------------------------------------------------------

/// A non-empty text without whitespace.
pub open spec fn is_word(s: Seq<char>) -> bool {
    s.len() > 0 && forall|i: int| 0 <= i < s.len() ==> !is_ws(#[trigger] s[i])
}

/// A text that is empty or ends a line.
pub open spec fn ends_line(s: Seq<char>) -> bool {
    s.len() == 0 || s.last() == '\n'
}

pub proof fn lemma_until_char_prefix(s: Seq<char>, t: Seq<char>, c: char)
    requires
        until_char(s, c) < s.len(),
    ensures
        until_char(s + t, c) == until_char(s, c),
        (s + t).take(until_char(s, c) as int) == s.take(until_char(s, c) as int),
        (s + t).skip(until_char(s, c) + 1 as int) == s.skip(until_char(s, c) + 1 as int) + t,
    decreases s.len(),
{
    let k = until_char(s, c);
    if k > 0 {
        lemma_until_char_prefix(s.drop_first(), t, c);
        assert((s + t).drop_first() =~= s.drop_first() + t);
    }
    assert((s + t).take(k as int) =~= s.take(k as int));
    assert((s + t).skip(k + 1 as int) =~= s.skip(k + 1 as int) + t);
}

/// The lines of a text that ends a line, followed by more text, are its
/// lines followed by the lines of the rest.
pub proof fn lemma_lines_append(s: Seq<char>, t: Seq<char>)
    requires
        ends_line(s),
    ensures
        lines(s + t) == lines(s) + lines(t),
    decreases s.len(),
{
    if s.len() == 0 {
        assert(s + t =~= t);
        assert(lines(s) =~= Seq::<Seq<char>>::empty());
        assert(lines(s) + lines(t) =~= lines(t));
    } else {
        let k = until_char(s, '\n');
        if k >= s.len() {
            lemma_run_bounds(s, '\n');
            // the last character is a newline, so the run stops before it
            assert(s[s.len() - 1] == '\n');
            lemma_until_char_stops(s, '\n', s.len() - 1);
        }
        lemma_until_char_prefix(s, t, '\n');
        let rest = s.skip(k + 1 as int);
        assert(ends_line(rest)) by {
            if rest.len() > 0 {
                assert(rest.last() == s.last());
            }
        }
        lemma_lines_append(rest, t);
        assert(lines(s + t) =~= lines(s) + lines(t));
    }
}

/// A run of characters other than `c` stops at or before any `c`.
pub proof fn lemma_until_char_stops(s: Seq<char>, c: char, i: int)
    requires
        0 <= i < s.len(),
        s[i] == c,
    ensures
        until_char(s, c) <= i,
    decreases s.len(),
{
    if i > 0 && s[0] != c {
        lemma_until_char_stops(s.drop_first(), c, i - 1);
    }
}

/// The lines of one line of text, ended by a newline.
pub proof fn lemma_lines_single(e: Seq<char>)
    requires
        forall|i: int| 0 <= i < e.len() ==> #[trigger] e[i] != '\n',
        e.len() == 0 || e.last() != '\r',
    ensures
        lines(e + seq!['\n']) == seq![e],
{
    let s = e + seq!['\n'];
    lemma_until_char(s, '\n', e.len() as int);
    assert(s.take(e.len() as int) =~= e);
    assert(s.skip(e.len() + 1 as int) =~= Seq::<char>::empty());
    assert(lines(s.skip(e.len() + 1 as int)) =~= Seq::<Seq<char>>::empty());
    assert(lines(s) =~= seq![e]);
}

/// The words of a word followed by a space and more text.
pub proof fn lemma_words_lead(w: Seq<char>, rest: Seq<char>)
    requires
        is_word(w),
    ensures
        words(w + seq![' '] + rest) == seq![w] + words(rest),
{
    let s = w + seq![' '] + rest;
    lemma_word_run(s, w.len() as int);
    assert(s.take(w.len() as int) =~= w);
    let t = s.skip(w.len() as int);
    assert(t =~= seq![' '] + rest);
    assert(t.drop_first() =~= rest);
    assert(words(t) == words(rest));
}

/// The words of a single word.
pub proof fn lemma_words_single(w: Seq<char>)
    requires
        is_word(w),
    ensures
        words(w) == seq![w],
{
    lemma_word_run(w, w.len() as int);
    assert(w.take(w.len() as int) =~= w);
    assert(w.skip(w.len() as int) =~= Seq::<char>::empty());
    assert(words(w.skip(w.len() as int)) =~= Seq::<Seq<char>>::empty());
    assert(words(w) =~= seq![w]);
}


/// A run of characters other than `c` that stops inside the text stops at a
/// `c`.
pub proof fn lemma_until_char_at(s: Seq<char>, c: char)
    ensures
        until_char(s, c) <= s.len(),
        until_char(s, c) < s.len() ==> s[until_char(s, c) as int] == c,
        forall|j: int| 0 <= j < until_char(s, c) ==> #[trigger] s[j] != c,
    decreases s.len(),
{
    if s.len() > 0 && s[0] != c {
        let t = s.drop_first();
        lemma_until_char_at(t, c);
        assert forall|j: int| 0 <= j < until_char(s, c) implies #[trigger] s[j] != c by {
            if j > 0 {
                assert(s[j] == t[j - 1]);
            }
        }
    }
}

/// The lines of a text without a newline: none if it is empty, else itself.
pub proof fn lemma_lines_no_newline(l: Seq<char>)
    requires
        forall|i: int| 0 <= i < l.len() ==> #[trigger] l[i] != '\n',
    ensures
        lines(l) == (if l.len() == 0 {
            Seq::<Seq<char>>::empty()
        } else {
            seq![l]
        }),
{
    if l.len() > 0 {
        lemma_until_char(l, '\n', l.len() as int);
    }
}

/// Ending a text with a newline: a text that ends a line gains an empty
/// line; otherwise its last line loses a final `'\r'`.
pub proof fn lemma_lines_newline(s: Seq<char>)
    ensures
        ends_line(s) ==> lines(s + seq!['\n']) == lines(s).push(Seq::<char>::empty()),
        !ends_line(s) ==> lines(s).len() > 0 && lines(s + seq!['\n']) == lines(s).drop_last().push(
            strip_cr(lines(s).last()),
        ),
    decreases s.len(),
{
    let nl = seq!['\n'];
    if ends_line(s) {
        lemma_lines_append(s, nl);
        lemma_until_char(nl, '\n', 0);
        assert(nl.take(0) =~= Seq::<char>::empty());
        assert(nl.skip(1) =~= Seq::<char>::empty());
        assert(lines(nl.skip(1)) =~= Seq::<Seq<char>>::empty());
        assert(lines(nl) =~= seq![Seq::<char>::empty()]);
    } else {
        let k = until_char(s, '\n');
        lemma_until_char_at(s, '\n');
        if k >= s.len() {
            lemma_until_char(s + nl, '\n', s.len() as int);
            assert((s + nl).take(s.len() as int) =~= s);
            assert((s + nl).skip(s.len() + 1 as int) =~= Seq::<char>::empty());
            assert(lines((s + nl).skip(s.len() + 1 as int)) =~= Seq::<Seq<char>>::empty());
            assert(lines(s + nl) =~= seq![strip_cr(s)]);
        } else {
            lemma_until_char_prefix(s, nl, '\n');
            let rest = s.skip(k + 1 as int);
            assert(rest.len() > 0 && rest.last() == s.last());
            lemma_lines_newline(rest);
            assert(lines(s) =~= seq![strip_cr(s.take(k as int))] + lines(rest));
            assert(lines(s + nl) =~= seq![strip_cr(s.take(k as int))] + lines(rest + nl));
            assert(lines(s + nl) =~= lines(s).drop_last().push(strip_cr(lines(s).last())));
        }
    }
}

/// The lines of a text, a newline and one line `l`: the text's lines, the
/// last of them possibly without its `'\r'`, then an empty line (where the
/// text ended a line) and `l` (where it is not empty).
pub proof fn lemma_lines_add_line(s: Seq<char>, l: Seq<char>)
    requires
        forall|i: int| 0 <= i < l.len() ==> #[trigger] l[i] != '\n',
    ensures
        lines(s + seq!['\n'] + l).len() >= lines(s).len(),
        forall|i: int|
            0 <= i < lines(s).len() ==> #[trigger] lines(s + seq!['\n'] + l)[i] == lines(s)[i]
                || lines(s + seq!['\n'] + l)[i] == strip_cr(lines(s)[i]),
        forall|i: int|
            lines(s).len() <= i < lines(s + seq!['\n'] + l).len() ==> #[trigger] lines(
                s + seq!['\n'] + l,
            )[i].len() == 0 || lines(s + seq!['\n'] + l)[i] == l,
{
    let nl = seq!['\n'];
    lemma_lines_newline(s);
    lemma_lines_append(s + nl, l);
    lemma_lines_no_newline(l);
    let ls = lines(s);
    let all = lines(s + nl + l);
    assert(all == lines(s + nl) + lines(l));
    assert forall|i: int| 0 <= i < ls.len() implies #[trigger] all[i] == ls[i] || all[i]
        == strip_cr(ls[i]) by {
        if !ends_line(s) && i == ls.len() - 1 {
            assert(all[i] == strip_cr(ls[i]));
        } else {
            assert(all[i] == ls[i]);
        }
    }
}

/// Whitespace at the end adds no word.
pub proof fn lemma_words_ws_end(y: Seq<char>, c: char)
    requires
        is_ws(c),
    ensures
        words(y + seq![c]) == words(y),
    decreases y.len(),
{
    let s = y + seq![c];
    if y.len() == 0 {
        assert(s.drop_first() =~= Seq::<char>::empty());
        assert(words(s.drop_first()) =~= Seq::<Seq<char>>::empty());
    } else if is_ws(y[0]) {
        assert(s.drop_first() =~= y.drop_first() + seq![c]);
        lemma_words_ws_end(y.drop_first(), c);
    } else {
        lemma_word_run_ws_end(y, c);
        let k = word_run(y);
        lemma_run_bounds(y, c);
        assert(k >= 1);
        assert(s.take(k as int) =~= y.take(k as int));
        assert(s.skip(k as int) =~= y.skip(k as int) + seq![c]);
        lemma_words_ws_end(y.skip(k as int), c);
        assert(words(s) == seq![s.take(k as int)] + words(s.skip(k as int)));
        assert(words(y) == seq![y.take(k as int)] + words(y.skip(k as int)));
    }
}

proof fn lemma_word_run_ws_end(y: Seq<char>, c: char)
    requires
        is_ws(c),
    ensures
        word_run(y + seq![c]) == word_run(y),
    decreases y.len(),
{
    let s = y + seq![c];
    if y.len() > 0 && !is_ws(y[0]) {
        assert(s.drop_first() =~= y.drop_first() + seq![c]);
        lemma_word_run_ws_end(y.drop_first(), c);
    }
}

proof fn lemma_ws_run_ws_end(y: Seq<char>, c: char)
    requires
        is_ws(c),
    ensures
        ws_run(y) < y.len() ==> ws_run(y + seq![c]) == ws_run(y),
        ws_run(y) >= y.len() ==> ws_run(y + seq![c]) == y.len() + 1,
    decreases y.len(),
{
    let s = y + seq![c];
    if y.len() > 0 && is_ws(y[0]) {
        assert(s.drop_first() =~= y.drop_first() + seq![c]);
        lemma_ws_run_ws_end(y.drop_first(), c);
    }
    if y.len() == 0 {
        assert(s.drop_first() =~= Seq::<char>::empty());
        assert(ws_run(s.drop_first()) == 0);
    }
}

/// Whitespace at the end does not change the trimmed text.
pub proof fn lemma_trim_ws_end(y: Seq<char>, c: char)
    requires
        is_ws(c),
    ensures
        trim(y + seq![c]) == trim(y),
{
    let s = y + seq![c];
    lemma_ws_run_ws_end(y, c);
    lemma_run_bounds(y, c);
    let r = ws_run(y);
    if r >= y.len() {
        assert(trim_start(s) =~= Seq::<char>::empty());
        assert(trim_start(y) =~= Seq::<char>::empty());
    } else {
        let z = trim_start(y);
        assert(trim_start(s) =~= z + seq![c]);
        let zc = z + seq![c];
        assert(zc.drop_last() =~= z);
        assert(ws_tail(zc) == 1 + ws_tail(z));
        lemma_run_bounds(z, c);
        assert(trim_end(zc) =~= trim_end(z));
    }
}

/// Text without a final `'\r'` splits into the same words and trims alike.
pub proof fn lemma_strip_cr_ws(x: Seq<char>)
    ensures
        words(strip_cr(x)) == words(x),
        trim(strip_cr(x)) == trim(x),
{
    if x.len() > 0 && x.last() == '\r' {
        assert(x =~= x.drop_last() + seq!['\r']);
        lemma_words_ws_end(x.drop_last(), '\r');
        lemma_trim_ws_end(x.drop_last(), '\r');
    }
}


/// Words written out separated by single spaces.
pub open spec fn join_words(ws: Seq<Seq<char>>) -> Seq<char>
    decreases ws.len(),
{
    if ws.len() == 0 {
        Seq::empty()
    } else if ws.len() == 1 {
        ws[0]
    } else {
        ws[0] + seq![' '] + join_words(ws.drop_first())
    }
}

/// Words separated by single spaces split back into those words; the text
/// starts and ends with a character of a word, and every other character
/// is a space or a character of a word.
pub proof fn lemma_join_words(ws: Seq<Seq<char>>)
    requires
        forall|i: int| 0 <= i < ws.len() ==> is_word(#[trigger] ws[i]),
    ensures
        words(join_words(ws)) == ws,
        ws.len() > 0 ==> join_words(ws).len() > 0 && !is_ws(join_words(ws)[0]) && !is_ws(
            join_words(ws).last(),
        ),
        forall|k: int|
            0 <= k < join_words(ws).len() ==> #[trigger] join_words(ws)[k] == ' ' || !is_ws(
                join_words(ws)[k],
            ),
    decreases ws.len(),
{
    let j = join_words(ws);
    if ws.len() == 0 {
        assert(words(j) =~= Seq::<Seq<char>>::empty());
    } else if ws.len() == 1 {
        assert(is_word(ws[0]));
        lemma_words_single(ws[0]);
    } else {
        let w = ws[0];
        let rest = ws.drop_first();
        assert(is_word(w));
        assert forall|i: int| 0 <= i < rest.len() implies is_word(#[trigger] rest[i]) by {
            assert(rest[i] == ws[i + 1]);
        }
        lemma_join_words(rest);
        let jr = join_words(rest);
        lemma_words_lead(w, jr);
        assert(seq![w] + rest =~= ws);
        assert(j[0] == w[0]);
        assert(j.last() == jr.last());
        assert forall|k: int| 0 <= k < j.len() implies #[trigger] j[k] == ' ' || !is_ws(j[k]) by {
            if k < w.len() {
                assert(j[k] == w[k]);
            } else if k > w.len() {
                assert(j[k] == jr[k - w.len() - 1]);
            }
        }
    }
}

/// Leading whitespace adds no word.
pub proof fn lemma_words_ws_lead(lead: Seq<char>, x: Seq<char>)
    requires
        forall|k: int| 0 <= k < lead.len() ==> is_ws(#[trigger] lead[k]),
    ensures
        words(lead + x) == words(x),
    decreases lead.len(),
{
    if lead.len() > 0 {
        let t = lead.drop_first();
        assert((lead + x).drop_first() =~= t + x);
        assert forall|k: int| 0 <= k < t.len() implies is_ws(#[trigger] t[k]) by {
            assert(t[k] == lead[k + 1]);
        }
        lemma_words_ws_lead(t, x);
    } else {
        assert(lead + x =~= x);
    }
}

/// Whitespace, then text that starts and ends with other characters: the
/// text is what trimming leaves.
pub proof fn lemma_trim_padded(lead: Seq<char>, x: Seq<char>)
    requires
        forall|k: int| 0 <= k < lead.len() ==> is_ws(#[trigger] lead[k]),
        x.len() > 0,
        !is_ws(x[0]),
        !is_ws(x.last()),
    ensures
        trim(lead + x) == x,
{
    let s = lead + x;
    lemma_ws_run(s, lead.len() as int);
    assert(trim_start(s) =~= x);
    lemma_ws_tail(x, 0);
    assert(trim_end(x) =~= x);
}

/// The lines of one line ended by a newline.
proof fn lemma_lines_one(a: Seq<char>)
    requires
        forall|i: int| 0 <= i < a.len() ==> #[trigger] a[i] != '\n',
    ensures
        lines(a + seq!['\n']) == seq![strip_cr(a)],
{
    lemma_lines_newline(a);
    lemma_lines_no_newline(a);
    if a.len() == 0 {
        assert(ends_line(a));
        assert(strip_cr(a) =~= Seq::<char>::empty());
        assert(lines(a + seq!['\n']) =~= seq![strip_cr(a)]);
    } else {
        assert(a.last() == a[a.len() - 1]);
        assert(!ends_line(a));
        assert(lines(a) =~= seq![a]);
        assert(lines(a).drop_last().push(strip_cr(lines(a).last())) =~= seq![strip_cr(a)]);
    }
}

/// The lines of a line, a newline, another line, a newline and a last line
/// that is not empty.
pub proof fn lemma_lines_three(a: Seq<char>, b: Seq<char>, c: Seq<char>)
    requires
        forall|i: int| 0 <= i < a.len() ==> #[trigger] a[i] != '\n',
        forall|i: int| 0 <= i < b.len() ==> #[trigger] b[i] != '\n',
        forall|i: int| 0 <= i < c.len() ==> #[trigger] c[i] != '\n',
        c.len() > 0,
    ensures
        lines(a + seq!['\n'] + b + seq!['\n'] + c) == seq![strip_cr(a), strip_cr(b), c],
{
    let nl = seq!['\n'];
    lemma_lines_one(a);
    lemma_lines_one(b);
    lemma_lines_no_newline(c);
    lemma_lines_append(b + nl, c);
    assert(a + nl + b + nl + c =~= (a + nl) + (b + nl + c));
    lemma_lines_append(a + nl, b + nl + c);
    assert(lines(a + nl + b + nl + c) =~= seq![strip_cr(a), strip_cr(b), c]);
}

/// The lines of a text, a newline and one more line that is not empty:
/// the text's lines (the last without a final `'\r'`, or followed by an
/// empty line where the text ended a line), then that line.
pub proof fn lemma_lines_then_line(s: Seq<char>, l: Seq<char>)
    requires
        forall|i: int| 0 <= i < l.len() ==> #[trigger] l[i] != '\n',
        l.len() > 0,
    ensures
        ends_line(s) ==> lines(s + seq!['\n'] + l) == lines(s).push(Seq::<char>::empty()).push(l),
        !ends_line(s) ==> lines(s).len() > 0 && lines(s + seq!['\n'] + l) == lines(s).drop_last().push(
            strip_cr(lines(s).last()),
        ).push(l),
{
    lemma_lines_newline(s);
    lemma_lines_append(s + seq!['\n'], l);
    lemma_lines_no_newline(l);
}

/// The words of a word, whitespace, and more text.
pub proof fn lemma_words_lead_ws(w: Seq<char>, pad: Seq<char>, rest: Seq<char>)
    requires
        is_word(w),
        pad.len() > 0,
        forall|k: int| 0 <= k < pad.len() ==> is_ws(#[trigger] pad[k]),
    ensures
        words(w + pad + rest) == seq![w] + words(rest),
{
    let s = w + pad + rest;
    lemma_word_run(s, w.len() as int);
    assert(s.take(w.len() as int) =~= w);
    assert(s.skip(w.len() as int) =~= pad + rest);
    lemma_words_ws_lead(pad, rest);
}

/// The lines of a line, a newline and a last line that is not empty.
pub proof fn lemma_lines_two(a: Seq<char>, c: Seq<char>)
    requires
        forall|i: int| 0 <= i < a.len() ==> #[trigger] a[i] != '\n',
        forall|i: int| 0 <= i < c.len() ==> #[trigger] c[i] != '\n',
        c.len() > 0,
    ensures
        lines(a + seq!['\n'] + c) == seq![strip_cr(a), c],
{
    lemma_lines_one(a);
    lemma_lines_no_newline(c);
    lemma_lines_append(a + seq!['\n'], c);
    assert(lines(a + seq!['\n'] + c) =~= seq![strip_cr(a), c]);
}

} // verus!
