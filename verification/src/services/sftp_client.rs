//! Remote directory listings: the entries and the order they are shown in,
//! directories first, then by name without regard to case.
use vstd::prelude::*;

use crate::text::to_chars;

verus! {

#[derive(Clone, Debug)]
pub struct FileEntry {
    pub name: String,
    pub path: String,
    pub is_dir: bool,
    pub size: u64,
    pub permissions: u32,
    pub modified: String,
}

/// The modification time as a listing shows it: `YYYY-MM-DD HH:MM`, UTC.
pub uninterp spec fn minute_text(t: u32) -> Seq<char>;

/// chrono: `DateTime::<Utc>::from_timestamp(t, 0)` (the epoch where chrono
/// has no such time) formatted with `%Y-%m-%d %H:%M`. Claimed: the text is
/// `minute_text(t)`, a function of `t` alone (UTC, no local time zone).
#[verifier::external_body]
fn format_mtime(t: u32) -> (s: String)
    ensures
        s@ == minute_text(t),
{
    chrono::DateTime::<chrono::Utc>::from_timestamp(t as i64, 0).unwrap_or_default().format(
        "%Y-%m-%d %H:%M",
    ).to_string()
}

/// The entry of a listing: permissions 0 and no modification time where
/// the server gives none.
pub fn file_entry(
    name: String,
    path: String,
    is_dir: bool,
    size: u64,
    permissions: Option<u32>,
    mtime: Option<u32>,
) -> (e: FileEntry)
    ensures
        e.name == name,
        e.path == path,
        e.is_dir == is_dir,
        e.size == size,
        e.permissions == (match permissions {
            Some(p) => p,
            None => 0,
        }),
        e.modified@ == (match mtime {
            Some(t) => minute_text(t),
            None => Seq::<char>::empty(),
        }),
{
    let modified = match mtime {
        Some(t) => format_mtime(t),
        None => String::new(),
    };
    FileEntry {
        name,
        path,
        is_dir,
        size,
        permissions: match permissions {
            Some(p) => p,
            None => 0,
        },
        modified,
    }
}

/// What `str::to_lowercase` returns for a text.
pub uninterp spec fn lowercase_of(s: Seq<char>) -> Seq<char>;

/// `str::to_lowercase`. Claimed: the result is `lowercase_of` the text (the
/// Unicode lowercase mapping, a function of the text alone).
#[verifier::external_body]
fn to_lowercase(s: &str) -> (r: String)
    ensures
        r@ == lowercase_of(s@),
{
    s.to_lowercase()
}

/// Lexicographic comparison by code point (-1, 0 or 1), the order of
/// `String::cmp` (UTF-8 preserves code point order byte by byte).
pub open spec fn lex_order(a: Seq<char>, b: Seq<char>) -> int
    decreases a.len(),
{
    if a.len() == 0 {
        if b.len() == 0 {
            0
        } else {
            -1
        }
    } else if b.len() == 0 {
        1
    } else if (a[0] as u32) < (b[0] as u32) {
        -1
    } else if (a[0] as u32) > (b[0] as u32) {
        1
    } else {
        lex_order(a.drop_first(), b.drop_first())
    }
}

/// The name an entry is ordered by.
pub open spec fn name_key(e: FileEntry) -> Seq<char> {
    lowercase_of(e.name@)
}

/// `a` is listed strictly before `b`: a directory before a file, else by
/// lowercased name.
pub open spec fn sorts_before(a: FileEntry, b: FileEntry) -> bool {
    ||| a.is_dir && !b.is_dir
    ||| a.is_dir == b.is_dir && lex_order(name_key(a), name_key(b)) < 0
}

/// `a` and `b` are ranked alike (so a stable sort keeps their order).
pub open spec fn same_rank(a: FileEntry, b: FileEntry) -> bool {
    a.is_dir == b.is_dir && name_key(a) == name_key(b)
}

pub open spec fn is_permutation(p: Seq<int>, n: int) -> bool {
    &&& p.len() == n
    &&& forall|i: int| 0 <= i < n ==> 0 <= #[trigger] p[i] < n
    &&& forall|i: int, j: int| 0 <= i < j < n ==> p[i] != p[j]
}

/// `out` is `inp` rearranged by `p`, in order, with entries ranked alike in
/// the order they came in.
pub open spec fn stable_sort_by(out: Seq<FileEntry>, inp: Seq<FileEntry>, p: Seq<int>) -> bool {
    &&& out.len() == inp.len()
    &&& is_permutation(p, inp.len() as int)
    &&& forall|i: int| 0 <= i < out.len() ==> out[i] == inp[#[trigger] p[i]]
    &&& forall|i: int, j: int| 0 <= i < j < out.len() ==> !sorts_before(out[j], out[i])
    &&& forall|i: int, j: int| 0 <= i < j < out.len() && same_rank(out[i], out[j]) ==> p[i] < p[j]
}

/// `out` is the stable sort of `inp` (directories first, then by lowercased
/// name), what `sort_by` gives for the listing's comparator.
pub open spec fn stable_sort_of(out: Seq<FileEntry>, inp: Seq<FileEntry>) -> bool {
    exists|p: Seq<int>| stable_sort_by(out, inp, p)
}

proof fn lemma_lex_refl(a: Seq<char>)
    ensures
        lex_order(a, a) == 0,
    decreases a.len(),
{
    if a.len() > 0 {
        lemma_lex_refl(a.drop_first());
    }
}

proof fn lemma_lex_antisym(a: Seq<char>, b: Seq<char>)
    ensures
        lex_order(a, b) == -lex_order(b, a),
    decreases a.len(),
{
    if a.len() > 0 && b.len() > 0 {
        lemma_lex_antisym(a.drop_first(), b.drop_first());
    }
}

proof fn lemma_lex_trans(a: Seq<char>, b: Seq<char>, c: Seq<char>)
    requires
        lex_order(a, b) <= 0,
        lex_order(b, c) <= 0,
    ensures
        lex_order(a, c) <= 0,
    decreases a.len(),
{
    if a.len() > 0 && b.len() > 0 && c.len() > 0 {
        if (a[0] as u32) == (b[0] as u32) && (b[0] as u32) == (c[0] as u32) {
            lemma_lex_trans(a.drop_first(), b.drop_first(), c.drop_first());
        }
    }
}

proof fn lemma_before_asym(a: FileEntry, b: FileEntry)
    ensures
        sorts_before(a, b) ==> !sorts_before(b, a),
        same_rank(a, b) ==> !sorts_before(a, b),
{
    lemma_lex_antisym(name_key(a), name_key(b));
    lemma_lex_refl(name_key(a));
}

proof fn lemma_not_before_trans(a: FileEntry, b: FileEntry, c: FileEntry)
    requires
        !sorts_before(b, a),
        !sorts_before(c, b),
    ensures
        !sorts_before(c, a),
{
    lemma_lex_antisym(name_key(a), name_key(b));
    lemma_lex_antisym(name_key(b), name_key(c));
    lemma_lex_antisym(name_key(a), name_key(c));
    if a.is_dir == b.is_dir && b.is_dir == c.is_dir {
        lemma_lex_trans(name_key(a), name_key(b), name_key(c));
    }
}

/// One step of insertion sort: the entry at `i` moved to `j`, after every
/// entry of the sorted prefix that it does not sort before.
proof fn lemma_insert_step(
    old_v: Seq<FileEntry>,
    old_p: Seq<int>,
    inp: Seq<FileEntry>,
    n: int,
    i: int,
    j: int,
    v: Seq<FileEntry>,
    p: Seq<int>,
)
    requires
        0 <= j <= i < n == old_v.len() == inp.len(),
        is_permutation(old_p, n),
        forall|t: int| 0 <= t < n ==> old_v[t] == inp[#[trigger] old_p[t]],
        forall|t: int| i <= t < n ==> #[trigger] old_p[t] == t,
        forall|t: int| 0 <= t < i ==> #[trigger] old_p[t] < i,
        forall|s: int, t: int| 0 <= s < t < i ==> !sorts_before(old_v[t], old_v[s]),
        forall|s: int, t: int|
            0 <= s < t < i && same_rank(old_v[s], old_v[t]) ==> old_p[s] < old_p[t],
        j == 0 || !sorts_before(old_v[i], old_v[j - 1]),
        forall|t: int| j <= t < i ==> sorts_before(old_v[i], #[trigger] old_v[t]),
        v == old_v.remove(i).insert(j, old_v[i]),
        p == old_p.take(j) + seq![i] + old_p.subrange(j, i) + old_p.skip(i + 1),
    ensures
        v.len() == n,
        is_permutation(p, n),
        forall|t: int| 0 <= t < n ==> v[t] == inp[#[trigger] p[t]],
        forall|t: int| i + 1 <= t < n ==> #[trigger] p[t] == t,
        forall|t: int| 0 <= t < i + 1 ==> #[trigger] p[t] < i + 1,
        forall|s: int, t: int| 0 <= s < t < i + 1 ==> !sorts_before(v[t], v[s]),
        forall|s: int, t: int| 0 <= s < t < i + 1 && same_rank(v[s], v[t]) ==> p[s] < p[t],
{
    // the old position that each new position takes its entry from
    let src = |t: int|
        if t < j {
            t
        } else if t == j {
            i
        } else if t <= i {
            t - 1
        } else {
            t
        };
    assert forall|t: int| 0 <= t < n implies v[t] == old_v[src(t)] && #[trigger] p[t] == old_p[src(
        t,
    )] by {}
    assert forall|t: int| 0 <= t < n implies v[t] == inp[#[trigger] p[t]] by {
        assert(v[t] == old_v[src(t)] && p[t] == old_p[src(t)]);
    }
    assert forall|s: int, t: int| 0 <= s < t < n implies p[s] != p[t] by {
        assert(p[s] == old_p[src(s)] && p[t] == old_p[src(t)]);
        assert(src(s) != src(t));
    }
    assert forall|t: int| 0 <= t < n implies 0 <= #[trigger] p[t] < n by {
        assert(p[t] == old_p[src(t)]);
    }
    assert forall|t: int| 0 <= t < i + 1 implies #[trigger] p[t] < i + 1 by {
        assert(p[t] == old_p[src(t)]);
    }
    assert forall|t: int| i + 1 <= t < n implies #[trigger] p[t] == t by {
        assert(p[t] == old_p[src(t)]);
    }
    let x = old_v[i];
    assert forall|s: int, t: int| 0 <= s < t < i + 1 implies !sorts_before(v[t], v[s]) by {
        assert(v[s] == old_v[src(s)] && v[t] == old_v[src(t)]);
        if t == j {
            if s < j - 1 {
                lemma_not_before_trans(old_v[s], old_v[j - 1], x);
            }
        } else if s == j {
            lemma_before_asym(x, old_v[t - 1]);
        }
    }
    assert forall|s: int, t: int| 0 <= s < t < i + 1 && same_rank(v[s], v[t]) implies p[s]
        < p[t] by {
        assert(v[s] == old_v[src(s)] && v[t] == old_v[src(t)]);
        assert(p[s] == old_p[src(s)] && p[t] == old_p[src(t)]);
        if s == j {
            lemma_before_asym(x, old_v[t - 1]);
        }
    }
}

fn lex_less(a: &Vec<char>, b: &Vec<char>) -> (r: bool)
    ensures
        r == (lex_order(a@, b@) < 0),
{
    let mut i: usize = 0;
    assert(a@.skip(0) =~= a@);
    assert(b@.skip(0) =~= b@);
    while i < a.len() && i < b.len()
        invariant
            i <= a.len(),
            i <= b.len(),
            lex_order(a@, b@) == lex_order(a@.skip(i as int), b@.skip(i as int)),
        decreases a.len() - i,
    {
        let x = a[i] as u32;
        let y = b[i] as u32;
        if x != y {
            return x < y;
        }
        assert(a@.skip(i as int).drop_first() =~= a@.skip(i + 1));
        assert(b@.skip(i as int).drop_first() =~= b@.skip(i + 1));
        i += 1;
    }
    i < b.len()
}

fn before(a_dir: bool, a_key: &Vec<char>, b_dir: bool, b_key: &Vec<char>) -> (r: bool)
    ensures
        r == ((a_dir && !b_dir) || (a_dir == b_dir && lex_order(a_key@, b_key@) < 0)),
{
    if a_dir != b_dir {
        a_dir
    } else {
        lex_less(a_key, b_key)
    }
}

/// The listing order: directories first, then by name without regard to
/// case; entries ranked alike keep their order (a stable sort).
pub fn sort_entries(entries: Vec<FileEntry>) -> (out: Vec<FileEntry>)
    ensures
        stable_sort_of(out@, entries@),
        out@.len() == entries@.len(),
        forall|i: int, j: int|
            0 <= i < out@.len() && 0 <= j < out@.len() && out@[i].is_dir && !out@[j].is_dir
                ==> i < j,
        forall|i: int, j: int|
            0 <= i < out@.len() && 0 <= j < out@.len() && out@[i].is_dir == out@[j].is_dir
                && lex_order(lowercase_of(out@[i].name@), lowercase_of(out@[j].name@)) < 0 ==> i
                < j,
{
    let ghost inp = entries@;
    let n = entries.len();
    let mut v = entries;
    let mut keys: Vec<Vec<char>> = Vec::new();
    let mut k: usize = 0;
    while k < n
        invariant
            k <= n == v.len(),
            keys@.len() == k,
            forall|t: int| 0 <= t < k ==> (#[trigger] keys@[t])@ == name_key(v@[t]),
        decreases n - k,
    {
        let low = to_lowercase(v[k].name.as_str());
        keys.push(to_chars(low.as_str()));
        k += 1;
    }
    let ghost mut p: Seq<int> = Seq::new(n as nat, |t: int| t);
    let mut i: usize = 0;
    while i < n
        invariant
            i <= n == v.len() == keys@.len() == inp.len(),
            forall|t: int| 0 <= t < n ==> (#[trigger] keys@[t])@ == name_key(v@[t]),
            is_permutation(p, n as int),
            forall|t: int| 0 <= t < n ==> v@[t] == inp[#[trigger] p[t]],
            forall|t: int| i <= t < n ==> #[trigger] p[t] == t,
            forall|t: int| 0 <= t < i ==> #[trigger] p[t] < i,
            forall|s: int, t: int| 0 <= s < t < i ==> !sorts_before(v@[t], v@[s]),
            forall|s: int, t: int| 0 <= s < t < i && same_rank(v@[s], v@[t]) ==> p[s] < p[t],
        decreases n - i,
    {
        let mut j = i;
        while j > 0 && before(v[i].is_dir, &keys[i], v[j - 1].is_dir, &keys[j - 1])
            invariant
                j <= i < n == v.len() == keys@.len(),
                forall|t: int| 0 <= t < n ==> (#[trigger] keys@[t])@ == name_key(v@[t]),
                forall|t: int| j <= t < i ==> sorts_before(v@[i as int], #[trigger] v@[t]),
            decreases j,
        {
            j -= 1;
        }
        let ghost old_v = v@;
        let ghost old_p = p;
        let ghost old_keys = keys@;
        let e = v.remove(i);
        let kx = keys.remove(i);
        v.insert(j, e);
        keys.insert(j, kx);
        proof {
            p = old_p.take(j as int) + seq![i as int] + old_p.subrange(j as int, i as int)
                + old_p.skip(i + 1);
            assert(v@ == old_v.remove(i as int).insert(j as int, old_v[i as int]));
            lemma_insert_step(old_v, old_p, inp, n as int, i as int, j as int, v@, p);
            assert forall|t: int| 0 <= t < n implies (#[trigger] keys@[t])@ == name_key(v@[t]) by {
                if t < j {
                    assert(keys@[t] == old_keys[t]);
                } else if t == j {
                    assert(keys@[t] == old_keys[i as int]);
                } else if t <= i {
                    assert(keys@[t] == old_keys[t - 1]);
                } else {
                    assert(keys@[t] == old_keys[t]);
                }
            }
        }
        i += 1;
    }
    proof {
        assert(stable_sort_by(v@, inp, p));
        law_listing_order(inp, v@);
    }
    v
}

/// The listing order: as many entries as given; a directory comes before
/// every file; and among directories, or
/// among files, an entry whose whole lowercased name is smaller (code point
/// by code point, a proper prefix first) comes first.
pub proof fn law_listing_order(inp: Seq<FileEntry>, out: Seq<FileEntry>)
    requires
        stable_sort_of(out, inp),
    ensures
        out.len() == inp.len(),
        forall|i: int, j: int|
            0 <= i < out.len() && 0 <= j < out.len() && out[i].is_dir && !out[j].is_dir ==> i < j,
        forall|i: int, j: int|
            0 <= i < out.len() && 0 <= j < out.len() && out[i].is_dir == out[j].is_dir && lex_order(
                lowercase_of(out[i].name@),
                lowercase_of(out[j].name@),
            ) < 0 ==> i < j,
{
    let p = choose|p: Seq<int>| stable_sort_by(out, inp, p);
    assert forall|i: int, j: int|
        0 <= i < out.len() && 0 <= j < out.len() && out[i].is_dir && !out[j].is_dir implies i
        < j by {
        if j < i {
            assert(!sorts_before(out[i], out[j]));
        }
    }
    assert forall|i: int, j: int|
        0 <= i < out.len() && 0 <= j < out.len() && out[i].is_dir == out[j].is_dir && lex_order(
            lowercase_of(out[i].name@),
            lowercase_of(out[j].name@),
        ) < 0 implies i < j by {
        lemma_lex_refl(lowercase_of(out[i].name@));
        if j < i {
            assert(!sorts_before(out[i], out[j]));
        }
    }
}

} // verus!
