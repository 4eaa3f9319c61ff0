//! Parsers of what a Linux host prints about itself: `/proc/stat`, `free -m`,
//! `/proc/diskstats`, `/proc/net/dev`, and the marked sections of the one
//! script that collects them all.
use vstd::prelude::*;

use crate::text::{
    chars_to_string, split_chars, split_on, strip_trailing, strip_trailing_chars,
    chars_eq, concat_chars, find, find_chars, find_from, lines, lines_chars, parse_u64,
    parse_u64_chars, skip_until, slice_chars, starts_with, starts_with_chars, to_chars, trim,
    trim_chars, trim_end, trim_end_len, until_char, views, words, words_chars, lemma_lines_add_line,
    lemma_strip_cr_ws, join_words, lemma_join_words, lemma_words_ws_lead, lemma_trim_padded,
    lemma_lines_three, lemma_lines_no_newline, lemma_until_char, is_ws, is_word,
    lemma_lines_then_line, ends_line, strip_cr, lemma_words_lead_ws, lemma_lines_two,
    lemma_trim_ws_end, is_digit,
};

verus! {

// ---------------------------------------------------------------------------
// /proc/stat
// ---------------------------------------------------------------------------

/// The value of a field as `u64::from_str` reads it, 0 where it does not parse.
pub open spec fn field_val(f: Seq<char>) -> nat {
    match parse_u64(f) {
        Some(v) => v as nat,
        None => 0,
    }
}

/// The first `i` fields all parse as `u64`.
pub open spec fn all_parse_upto(f: Seq<Seq<char>>, i: int) -> bool {
    forall|j: int| 0 <= j < i ==> (#[trigger] parse_u64(f[j])) is Some
}

/// Sum of the values of the first `i` fields.
pub open spec fn fields_sum(f: Seq<Seq<char>>, i: int) -> nat
    decreases i,
{
    if i <= 0 {
        0
    } else {
        fields_sum(f, i - 1) + field_val(f[i - 1])
    }
}

/// Sum of the values among the first `i` fields that stand at positions 3
/// and 4 of the fields (word positions 4 and 5 of the line: idle, iowait).
pub open spec fn idle_upto(f: Seq<Seq<char>>, i: int) -> nat {
    (if i > 3 {
        field_val(f[3])
    } else {
        0
    }) + (if i > 4 {
        field_val(f[4])
    } else {
        0
    })
}

/// A line of at least five words whose first word is `cpu`.
pub open spec fn is_cpu_line(w: Seq<Seq<char>>) -> bool {
    w.len() >= 5 && w[0] == "cpu"@
}

/// `(total, idle)` jiffies of a `/proc/stat` `cpu` line: `total` sums every
/// field after `cpu`, `idle` the fourth and fifth of them; `None` for a line
/// that is not such a line or holds a field that is not a `u64`.
pub open spec fn cpu_sample(line: Seq<char>) -> Option<(u64, u64)> {
    let w = words(line);
    let f = w.skip(1);
    if !is_cpu_line(w) || !all_parse_upto(f, f.len() as int) {
        None
    } else {
        Some((fields_sum(f, f.len() as int) as u64, idle_upto(f, f.len() as int) as u64))
    }
}

/// The running total that `parse_cpu` keeps stays within `u64` on `line`
/// (a larger total is an arithmetic overflow there).
pub open spec fn cpu_sums_fit(line: Seq<char>) -> bool {
    let w = words(line);
    let f = w.skip(1);
    is_cpu_line(w) ==> forall|i: int|
        0 <= i <= f.len() && #[trigger] all_parse_upto(f, i) ==> fields_sum(f, i) <= u64::MAX
}

proof fn lemma_idle_le_total(f: Seq<Seq<char>>, i: int)
    requires
        0 <= i <= f.len(),
    ensures
        idle_upto(f, i) <= fields_sum(f, i),
    decreases i,
{
    if i > 0 {
        lemma_idle_le_total(f, i - 1);
    }
}

/// `parse_cpu` on any line: `None` where its running total would overflow
/// (the lines that `parse_cpu` does not accept), else `Some` of its result.
pub fn parse_cpu_checked(line: &str) -> (r: Option<Option<(u64, u64)>>)
    ensures
        r is Some <==> cpu_sums_fit(line@),
        r matches Some(x) ==> x == cpu_sample(line@),
        r matches Some(Some((total, idle))) ==> idle <= total,
{
    let v = to_chars(line);
    let parts = words_chars(&v);
    let ghost w = words(line@);
    let ghost f = w.skip(1);
    assert(views(parts@) == w);
    let cpu = to_chars("cpu");
    if parts.len() < 5 || !chars_eq(&parts[0], &cpu) {
        assert(parts.len() < 5 || w[0] != "cpu"@);
        return Some(None);
    }
    let mut total: u64 = 0;
    let mut idle: u64 = 0;
    let mut i: usize = 1;
    while i < parts.len()
        invariant
            1 <= i <= parts.len(),
            parts.len() >= 5,
            views(parts@) == w,
            w == words(line@),
            f == w.skip(1),
            is_cpu_line(w),
            all_parse_upto(f, i - 1),
            total == fields_sum(f, i - 1),
            idle == idle_upto(f, i - 1),
            forall|k: int| 0 <= k < i ==> #[trigger] fields_sum(f, k) <= total,
        decreases parts.len() - i,
    {
        assert(f[i - 1] == parts@[i as int]@);
        match parse_u64_chars(&parts[i]) {
            None => {
                assert(!all_parse_upto(f, f.len() as int));
                assert forall|k: int| 0 <= k <= f.len() && #[trigger] all_parse_upto(f, k) implies
                    fields_sum(f, k) <= u64::MAX by {
                    if k >= i {
                        assert(parse_u64(f[i - 1]) is Some);
                    }
                }
                return Some(None);
            },
            Some(x) => {
                assert(all_parse_upto(f, i as int));
                assert(fields_sum(f, i as int) == total + x);
                match total.checked_add(x) {
                    None => {
                        return None;
                    },
                    Some(t) => {
                        proof {
                            lemma_idle_le_total(f, i as int);
                        }
                        total = t;
                        if i == 4 || i == 5 {
                            idle = idle + x;
                        }
                    },
                }
            },
        }
        i += 1;
    }
    proof {
        lemma_idle_le_total(f, f.len() as int);
    }
    Some(Some((total, idle)))
}

/// Parse CPU usage from a single `/proc/stat` first-line sample.
/// Returns (total, idle) jiffies.
pub fn parse_cpu(line: &str) -> (r: Option<(u64, u64)>)
    requires
        cpu_sums_fit(line@),
    ensures
        r == cpu_sample(line@),
        r matches Some((total, idle)) ==> idle <= total,
{
    match parse_cpu_checked(line) {
        Some(r) => r,
        None => None,
    }
}

/// The busy and total jiffies that elapsed between two `(total, idle)`
/// samples, the two numbers whose ratio is the CPU usage: `total` is the
/// saturating difference of the totals, `busy` that less the saturating
/// difference of the idle counts. `None` when no jiffy elapsed.
pub fn cpu_delta(sample1: (u64, u64), sample2: (u64, u64)) -> (r: Option<(u64, u64)>)
    requires
        sample2.0 > sample1.0 ==> (if sample2.1 > sample1.1 {
            sample2.1 - sample1.1
        } else {
            0
        }) <= sample2.0 - sample1.0,
    ensures
        sample2.0 <= sample1.0 ==> r is None,
        sample2.0 > sample1.0 ==> r == Some(
            (
                ((sample2.0 - sample1.0) - (if sample2.1 > sample1.1 {
                    sample2.1 - sample1.1
                } else {
                    0
                })) as u64,
                (sample2.0 - sample1.0) as u64,
            ),
        ),
        r matches Some((busy, total)) ==> busy <= total && total > 0,
{
    let (t1, i1) = sample1;
    let (t2, i2) = sample2;
    let d_total = t2.saturating_sub(t1);
    if d_total == 0 {
        return None;
    }
    let d_idle = i2.saturating_sub(i1);
    Some((d_total - d_idle, d_total))
}

// ---------------------------------------------------------------------------
// free -m
// ---------------------------------------------------------------------------

/// `(total, used)` of the first line that starts with `Mem:` and has at least
/// three words; `None` if there is none or a number there is not a `u64`.
pub open spec fn mem_in_lines(ls: Seq<Seq<char>>) -> Option<(u64, u64)>
    decreases ls.len(),
{
    if ls.len() == 0 {
        None
    } else {
        let l = ls[0];
        let w = words(l);
        if starts_with(l, "Mem:"@) && w.len() >= 3 {
            match (parse_u64(w[1]), parse_u64(w[2])) {
                (Some(a), Some(b)) => Some((a, b)),
                _ => None,
            }
        } else {
            mem_in_lines(ls.drop_first())
        }
    }
}

pub open spec fn mem_usage(s: Seq<char>) -> Option<(u64, u64)> {
    mem_in_lines(lines(s))
}

/// Parse `free -m` output into (total_mb, used_mb).
pub fn parse_mem(free_out: &str) -> (r: Option<(u64, u64)>)
    ensures
        r == mem_usage(free_out@),
{
    let v = to_chars(free_out);
    let ls = lines_chars(&v);
    let ghost all = lines(free_out@);
    let tag = to_chars("Mem:");
    let mut i: usize = 0;
    assert(all.skip(0) =~= all);
    while i < ls.len()
        invariant
            i <= ls.len(),
            views(ls@) == all,
            tag@ == "Mem:"@,
            mem_usage(free_out@) == mem_in_lines(all.skip(i as int)),
        decreases ls.len() - i,
    {
        let line = &ls[i];
        assert(all.skip(i as int)[0] == line@);
        if starts_with_chars(line, &tag) {
            let parts = words_chars(line);
            if parts.len() >= 3 {
                let total = parse_u64_chars(&parts[1]);
                let used = parse_u64_chars(&parts[2]);
                assert(views(parts@)[1] == parts@[1]@);
                assert(views(parts@)[2] == parts@[2]@);
                match (total, used) {
                    (Some(a), Some(b)) => {
                        return Some((a, b));
                    },
                    _ => {
                        return None;
                    },
                }
            }
        }
        assert(all.skip(i as int).drop_first() =~= all.skip(i + 1));
        i += 1;
    }
    assert(all.skip(i as int) =~= Seq::<Seq<char>>::empty());
    None
}

// ---------------------------------------------------------------------------
// Per-line tallies: /proc/diskstats and /proc/net/dev
// ---------------------------------------------------------------------------

/// What one line adds to a two-column total.
#[derive(Clone, Copy, Debug, PartialEq, Eq, Structural)]
pub enum LineTally {
    /// The line is not counted.
    Skip,
    /// A number on the line is not a `u64`: the whole parse fails.
    Fail,
    /// The first number was read (and added) before the second failed.
    FirstOnly(u64),
    /// Both numbers are counted.
    Count(u64, u64),
}

/// No line before `i` ends the parse.
pub open spec fn no_fail(t: Seq<LineTally>, i: int) -> bool {
    forall|j: int| 0 <= j < i ==> (#[trigger] t[j] is Skip || t[j] is Count)
}

/// First-column total of the counted lines before `i`.
pub open spec fn tally_a(t: Seq<LineTally>, i: int) -> nat
    decreases i,
{
    if i <= 0 {
        0
    } else {
        tally_a(t, i - 1) + match t[i - 1] {
            LineTally::Count(a, _) => a as nat,
            _ => 0,
        }
    }
}

/// Second-column total of the counted lines before `i`.
pub open spec fn tally_b(t: Seq<LineTally>, i: int) -> nat
    decreases i,
{
    if i <= 0 {
        0
    } else {
        tally_b(t, i - 1) + match t[i - 1] {
            LineTally::Count(_, b) => b as nat,
            _ => 0,
        }
    }
}

/// Some line before `i` is counted.
pub open spec fn any_count(t: Seq<LineTally>, i: int) -> bool {
    exists|j: int| 0 <= j < i && (#[trigger] t[j]) is Count
}

/// The totals over all lines: `None` if a line fails or none is counted.
pub open spec fn aggregate(t: Seq<LineTally>) -> Option<(u64, u64)> {
    if !no_fail(t, t.len() as int) || !any_count(t, t.len() as int) {
        None
    } else {
        Some((tally_a(t, t.len() as int) as u64, tally_b(t, t.len() as int) as u64))
    }
}

/// The running totals stay within `u64` up to where the parse stops.
pub open spec fn tally_fits(t: Seq<LineTally>) -> bool {
    &&& forall|i: int|
        0 <= i <= t.len() && #[trigger] no_fail(t, i) ==> tally_a(t, i) <= u64::MAX && tally_b(
            t,
            i,
        ) <= u64::MAX
    &&& forall|i: int|
        0 <= i < t.len() && no_fail(t, i) && (#[trigger] t[i]) is FirstOnly ==> tally_a(t, i)
            + t[i]->FirstOnly_0 <= u64::MAX
}

fn sum_tallies_checked(ts: &Vec<LineTally>) -> (r: Option<Option<(u64, u64)>>)
    ensures
        r is Some <==> tally_fits(ts@),
        r matches Some(x) ==> x == aggregate(ts@),
{
    let ghost t = ts@;
    let mut a: u64 = 0;
    let mut b: u64 = 0;
    let mut found = false;
    let mut i: usize = 0;
    while i < ts.len()
        invariant
            t == ts@,
            i <= ts.len(),
            no_fail(t, i as int),
            a == tally_a(t, i as int),
            b == tally_b(t, i as int),
            found == any_count(t, i as int),
            forall|k: int| 0 <= k <= i ==> #[trigger] tally_a(t, k) <= a && tally_b(t, k) <= b,
        decreases ts.len() - i,
    {
        match ts[i] {
            LineTally::Skip => {},
            LineTally::Count(x, y) => {
                assert(no_fail(t, i + 1));
                match (a.checked_add(x), b.checked_add(y)) {
                    (Some(a2), Some(b2)) => {
                        a = a2;
                        b = b2;
                        found = true;
                    },
                    _ => {
                        return None;
                    },
                }
            },
            _ => {
                assert(!no_fail(t, t.len() as int));
                let first_ok = match ts[i] {
                    LineTally::FirstOnly(x) => a.checked_add(x).is_some(),
                    _ => true,
                };
                if !first_ok {
                    return None;
                }
                assert forall|k: int| 0 <= k <= t.len() && #[trigger] no_fail(t, k) implies k
                    <= i by {
                    if k > i {
                        assert(t[i as int] !is Skip && t[i as int] !is Count);
                    }
                }
                assert forall|k: int|
                    0 <= k < t.len() && no_fail(t, k) && (#[trigger] t[k]) is FirstOnly implies k
                    == i by {
                    if k > i {
                        assert(t[i as int] !is Skip && t[i as int] !is Count);
                    }
                }
                return Some(None);
            },
        }
        i += 1;
        assert(no_fail(t, i as int));
        assert(found == any_count(t, i as int)) by {
            if any_count(t, i as int) && t[i - 1] !is Count {
                let j = choose|j: int| 0 <= j < i && (#[trigger] t[j]) is Count;
                assert(j < i - 1);
            }
        }
    }
    Some(if found {
        Some((a, b))
    } else {
        None
    })
}

/// Words of a `/proc/diskstats` line that name a device not to count.
pub open spec fn is_virtual_disk(name: Seq<char>) -> bool {
    starts_with(name, "loop"@) || starts_with(name, "ram"@) || starts_with(name, "dm-"@)
}

/// A `/proc/diskstats` line: counted with its sectors read (word 5) and
/// written (word 9) if it has at least 14 words and its device (word 2) is
/// not a loop, ram or device-mapper device.
pub open spec fn disk_tally(l: Seq<char>) -> LineTally {
    let w = words(l);
    if w.len() < 14 || is_virtual_disk(w[2]) {
        LineTally::Skip
    } else {
        match (parse_u64(w[5]), parse_u64(w[9])) {
            (Some(r), Some(x)) => LineTally::Count(r, x),
            _ => LineTally::Fail,
        }
    }
}

pub open spec fn disk_tallies(s: Seq<char>) -> Seq<LineTally> {
    lines(s).map_values(|l: Seq<char>| disk_tally(l))
}

/// `(read, written)` sectors summed over the real disks of `/proc/diskstats`.
pub open spec fn disk_sectors(s: Seq<char>) -> Option<(u64, u64)> {
    aggregate(disk_tallies(s))
}

fn disk_line(l: &Vec<char>) -> (t: LineTally)
    ensures
        t == disk_tally(l@),
{
    let parts = words_chars(l);
    let ghost w = words(l@);
    if parts.len() < 14 {
        return LineTally::Skip;
    }
    let name = &parts[2];
    assert(w[2] == name@);
    if starts_with_chars(name, &to_chars("loop")) || starts_with_chars(name, &to_chars("ram"))
        || starts_with_chars(name, &to_chars("dm-")) {
        return LineTally::Skip;
    }
    assert(w[5] == parts@[5]@);
    assert(w[9] == parts@[9]@);
    match (parse_u64_chars(&parts[5]), parse_u64_chars(&parts[9])) {
        (Some(r), Some(x)) => LineTally::Count(r, x),
        _ => LineTally::Fail,
    }
}

/// `parse_diskstats` on any output: `None` where its running totals would
/// overflow (the outputs that `parse_diskstats` does not accept), else
/// `Some` of its result.
pub fn parse_diskstats_checked(disk_out: &str) -> (r: Option<Option<(u64, u64)>>)
    ensures
        r is Some <==> tally_fits(disk_tallies(disk_out@)),
        r matches Some(x) ==> x == disk_sectors(disk_out@),
{
    let v = to_chars(disk_out);
    let ls = lines_chars(&v);
    let ghost all = lines(disk_out@);
    let mut ts: Vec<LineTally> = Vec::new();
    let mut i: usize = 0;
    while i < ls.len()
        invariant
            i <= ls.len(),
            views(ls@) == all,
            ts@ == all.take(i as int).map_values(|l: Seq<char>| disk_tally(l)),
        decreases ls.len() - i,
    {
        let t = disk_line(&ls[i]);
        assert(all[i as int] == ls@[i as int]@);
        ts.push(t);
        i += 1;
        assert(ts@ =~= all.take(i as int).map_values(|l: Seq<char>| disk_tally(l)));
    }
    assert(all.take(i as int) =~= all);
    sum_tallies_checked(&ts)
}

/// Aggregate disk read/write sectors from `/proc/diskstats` output.
/// Returns (read_sectors, write_sectors). Only counts real disks (skip loop/dm/ram).
pub fn parse_diskstats(disk_out: &str) -> (r: Option<(u64, u64)>)
    requires
        tally_fits(disk_tallies(disk_out@)),
    ensures
        r == disk_sectors(disk_out@),
{
    match parse_diskstats_checked(disk_out) {
        Some(r) => r,
        None => None,
    }
}

/// A `/proc/net/dev` line: trimmed, it must be non-empty and hold a `:`;
/// the interface before the `:` (trimmed) must not be `lo`; of the numbers
/// after it the first is received bytes and the ninth transmitted bytes.
/// No number at all fails the parse; fewer than nine skip the line.
pub open spec fn net_tally(l: Seq<char>) -> LineTally {
    let t = trim(l);
    let k = until_char(t, ':');
    if t.len() == 0 || k >= t.len() || trim(t.take(k as int)) == "lo"@ {
        LineTally::Skip
    } else {
        let nums = words(trim(t.skip(k + 1 as int)));
        if nums.len() == 0 {
            LineTally::Fail
        } else if nums.len() < 9 {
            LineTally::Skip
        } else {
            match parse_u64(nums[0]) {
                None => LineTally::Fail,
                Some(rx) => match parse_u64(nums[8]) {
                    None => LineTally::FirstOnly(rx),
                    Some(tx) => LineTally::Count(rx, tx),
                },
            }
        }
    }
}

/// The lines of `/proc/net/dev` after its two header lines.
pub open spec fn net_body(s: Seq<char>) -> Seq<Seq<char>> {
    let ls = lines(s);
    if ls.len() >= 2 {
        ls.skip(2)
    } else {
        seq![]
    }
}

pub open spec fn net_tallies(s: Seq<char>) -> Seq<LineTally> {
    net_body(s).map_values(|l: Seq<char>| net_tally(l))
}

/// `(rx, tx)` bytes summed over the non-loopback interfaces of `/proc/net/dev`.
pub open spec fn net_bytes(s: Seq<char>) -> Option<(u64, u64)> {
    aggregate(net_tallies(s))
}

fn net_line(l: &Vec<char>) -> (r: LineTally)
    ensures
        r == net_tally(l@),
{
    let t = trim_chars(l);
    if t.len() == 0 {
        return LineTally::Skip;
    }
    let k = skip_until(&t, 0, ':');
    assert(t@.skip(0) =~= t@);
    if k == t.len() {
        return LineTally::Skip;
    }
    let head = slice_chars(&t, 0, k);
    assert(head@ =~= t@.take(k as int));
    let iface = trim_chars(&head);
    if chars_eq(&iface, &to_chars("lo")) {
        return LineTally::Skip;
    }
    let tail = slice_chars(&t, k + 1, t.len());
    assert(tail@ =~= t@.skip(k + 1 as int));
    let rest = trim_chars(&tail);
    let nums = words_chars(&rest);
    if nums.len() == 0 {
        return LineTally::Fail;
    }
    if nums.len() < 9 {
        return LineTally::Skip;
    }
    assert(words(rest@)[0] == nums@[0]@);
    assert(words(rest@)[8] == nums@[8]@);
    match parse_u64_chars(&nums[0]) {
        None => LineTally::Fail,
        Some(rx) => match parse_u64_chars(&nums[8]) {
            None => LineTally::FirstOnly(rx),
            Some(tx) => LineTally::Count(rx, tx),
        },
    }
}

/// `parse_netdev` on any output: `None` where its running totals would
/// overflow (the outputs that `parse_netdev` does not accept), else `Some`
/// of its result.
pub fn parse_netdev_checked(net_out: &str) -> (r: Option<Option<(u64, u64)>>)
    ensures
        r is Some <==> tally_fits(net_tallies(net_out@)),
        r matches Some(x) ==> x == net_bytes(net_out@),
{
    let v = to_chars(net_out);
    let ls = lines_chars(&v);
    let ghost all = lines(net_out@);
    let ghost body = net_body(net_out@);
    let mut ts: Vec<LineTally> = Vec::new();
    if ls.len() >= 2 {
        let mut i: usize = 2;
        while i < ls.len()
            invariant
                2 <= i <= ls.len(),
                views(ls@) == all,
                body == all.skip(2),
                ts@ == body.take(i - 2).map_values(|l: Seq<char>| net_tally(l)),
            decreases ls.len() - i,
        {
            let t = net_line(&ls[i]);
            assert(body[i - 2] == ls@[i as int]@);
            ts.push(t);
            i += 1;
            assert(ts@ =~= body.take(i - 2).map_values(|l: Seq<char>| net_tally(l)));
        }
        assert(body.take(i - 2) =~= body);
    } else {
        assert(ts@ =~= body.map_values(|l: Seq<char>| net_tally(l)));
    }
    sum_tallies_checked(&ts)
}

/// Aggregate network rx/tx bytes from `/proc/net/dev` output.
/// Returns (rx_bytes, tx_bytes) across all non-loopback interfaces.
pub fn parse_netdev(net_out: &str) -> (r: Option<(u64, u64)>)
    requires
        tally_fits(net_tallies(net_out@)),
    ensures
        r == net_bytes(net_out@),
{
    match parse_netdev_checked(net_out) {
        Some(r) => r,
        None => None,
    }
}

// ---------------------------------------------------------------------------
// Lines that are not counted
// ---------------------------------------------------------------------------

proof fn lemma_tally_prefix(t: Seq<LineTally>, u: Seq<LineTally>, i: int)
    requires
        0 <= i <= t.len(),
    ensures
        tally_a(t + u, i) == tally_a(t, i),
        tally_b(t + u, i) == tally_b(t, i),
        no_fail(t + u, i) == no_fail(t, i),
        any_count(t + u, i) == any_count(t, i),
    decreases i,
{
    assert forall|j: int| 0 <= j < i implies #[trigger] (t + u)[j] == t[j] by {}
    if i > 0 {
        lemma_tally_prefix(t, u, i - 1);
        assert((t + u)[i - 1] == t[i - 1]);
    }
    if any_count(t + u, i) {
        let j = choose|j: int| 0 <= j < i && (#[trigger] (t + u)[j]) is Count;
        assert(t[j] is Count);
    }
    if any_count(t, i) {
        let j = choose|j: int| 0 <= j < i && (#[trigger] t[j]) is Count;
        assert((t + u)[j] is Count);
    }
}

proof fn lemma_tally_skips(t: Seq<LineTally>, x: Seq<LineTally>, i: int)
    requires
        forall|j: int| 0 <= j < x.len() ==> (#[trigger] x[j]) is Skip,
        t.len() <= i <= t.len() + x.len(),
    ensures
        tally_a(t + x, i) == tally_a(t, t.len() as int),
        tally_b(t + x, i) == tally_b(t, t.len() as int),
        no_fail(t + x, i) == no_fail(t, t.len() as int),
        any_count(t + x, i) == any_count(t, t.len() as int),
    decreases i,
{
    if i > t.len() {
        lemma_tally_skips(t, x, i - 1);
        assert((t + x)[i - 1] == x[i - 1 - t.len()]);
        if any_count(t + x, i) {
            let j = choose|j: int| 0 <= j < i && (#[trigger] (t + x)[j]) is Count;
            if j >= t.len() {
                assert((t + x)[j] == x[j - t.len()]);
            }
        }
    } else {
        lemma_tally_prefix(t, x, i);
    }
}

/// Appending lines that are not counted changes neither the totals nor
/// whether they stay within `u64`.
proof fn lemma_skips_ignored(t: Seq<LineTally>, x: Seq<LineTally>)
    requires
        forall|j: int| 0 <= j < x.len() ==> (#[trigger] x[j]) is Skip,
    ensures
        aggregate(t + x) == aggregate(t),
        tally_fits(t + x) == tally_fits(t),
{
    let tx = t + x;
    let n = t.len() as int;
    lemma_tally_skips(t, x, tx.len() as int);
    if tally_fits(t) {
        assert forall|i: int| 0 <= i <= tx.len() && #[trigger] no_fail(tx, i) implies tally_a(tx, i)
            <= u64::MAX && tally_b(tx, i) <= u64::MAX by {
            if i <= n {
                lemma_tally_prefix(t, x, i);
            } else {
                lemma_tally_skips(t, x, i);
            }
        }
        assert forall|i: int|
            0 <= i < tx.len() && no_fail(tx, i) && (#[trigger] tx[i]) is FirstOnly implies tally_a(tx, i)
            + tx[i]->FirstOnly_0 <= u64::MAX by {
            if i < n {
                lemma_tally_prefix(t, x, i);
                assert(tx[i] == t[i]);
            } else {
                assert(tx[i] == x[i - n]);
            }
        }
    }
    if tally_fits(tx) {
        assert forall|i: int| 0 <= i <= n && #[trigger] no_fail(t, i) implies tally_a(t, i)
            <= u64::MAX && tally_b(t, i) <= u64::MAX by {
            lemma_tally_prefix(t, x, i);
        }
        assert forall|i: int|
            0 <= i < n && no_fail(t, i) && (#[trigger] t[i]) is FirstOnly implies tally_a(t, i)
            + t[i]->FirstOnly_0 <= u64::MAX by {
            lemma_tally_prefix(t, x, i);
            assert(tx[i] == t[i]);
        }
    }
}

/// `/proc/diskstats` with one more line `l` after a newline: the tallies of
/// its lines, followed by tallies that skip.
proof fn lemma_disk_tallies_add_line(disk_out: Seq<char>, l: Seq<char>)
    requires
        forall|i: int| 0 <= i < l.len() ==> #[trigger] l[i] != '\n',
        disk_tally(l) is Skip,
    ensures
        exists|x: Seq<LineTally>|
            (forall|j: int| 0 <= j < x.len() ==> (#[trigger] x[j]) is Skip) && disk_tallies(
                disk_out + seq!['\n'] + l,
            ) == disk_tallies(disk_out) + x,
{
    let s2 = disk_out + seq!['\n'] + l;
    let ls = lines(disk_out);
    let all = lines(s2);
    lemma_lines_add_line(disk_out, l);
    let t = disk_tallies(disk_out);
    let t2 = disk_tallies(s2);
    let x = t2.skip(ls.len() as int);
    assert forall|j: int| 0 <= j < x.len() implies (#[trigger] x[j]) is Skip by {
        let e = all[j + ls.len()];
        assert(x[j] == disk_tally(e));
        if e.len() == 0 {
            assert(words(e) =~= Seq::<Seq<char>>::empty());
        }
    }
    assert forall|i: int| 0 <= i < ls.len() implies #[trigger] t2[i] == t[i] by {
        lemma_strip_cr_ws(ls[i]);
    }
    assert(t2 =~= t + x);
}

/// Lines of devices that `/proc/diskstats` totals leave out (loop, ram and
/// device-mapper devices, and lines of fewer than fourteen words) change
/// nothing: with such a line appended, the totals are the same, and so is
/// whether they stay within `u64`.
pub proof fn law_diskstats_ignores_uncounted_line(disk_out: Seq<char>, l: Seq<char>)
    requires
        forall|i: int| 0 <= i < l.len() ==> #[trigger] l[i] != '\n',
        words(l).len() < 14 || is_virtual_disk(words(l)[2]),
    ensures
        tally_fits(disk_tallies(disk_out + seq!['\n'] + l)) == tally_fits(disk_tallies(disk_out)),
        disk_sectors(disk_out + seq!['\n'] + l) == disk_sectors(disk_out),
{
    lemma_disk_tallies_add_line(disk_out, l);
    let x = choose|x: Seq<LineTally>|
        (forall|j: int| 0 <= j < x.len() ==> (#[trigger] x[j]) is Skip) && disk_tallies(
            disk_out + seq!['\n'] + l,
        ) == disk_tallies(disk_out) + x;
    lemma_skips_ignored(disk_tallies(disk_out), x);
}

/// A loopback line of `/proc/net/dev`: trimmed, it holds a `:`, and the
/// interface before it, trimmed, is `lo`.
pub open spec fn is_loopback_line(l: Seq<char>) -> bool {
    let t = trim(l);
    until_char(t, ':') < t.len() && trim(t.take(until_char(t, ':') as int)) == "lo"@
}

/// The loopback interface never counts: with a loopback line appended
/// after the two header lines of `/proc/net/dev`, the totals are the same,
/// and so is whether they stay within `u64`.
pub proof fn law_netdev_ignores_loopback(net_out: Seq<char>, l: Seq<char>)
    requires
        lines(net_out).len() >= 2,
        forall|i: int| 0 <= i < l.len() ==> #[trigger] l[i] != '\n',
        is_loopback_line(l),
    ensures
        tally_fits(net_tallies(net_out + seq!['\n'] + l)) == tally_fits(net_tallies(net_out)),
        net_bytes(net_out + seq!['\n'] + l) == net_bytes(net_out),
{
    let s2 = net_out + seq!['\n'] + l;
    let ls = lines(net_out);
    let all = lines(s2);
    lemma_lines_add_line(net_out, l);
    let t = net_tallies(net_out);
    let t2 = net_tallies(s2);
    assert(net_body(s2) == all.skip(2));
    assert(net_body(net_out) == ls.skip(2));
    let x = t2.skip(t.len() as int);
    assert forall|j: int| 0 <= j < x.len() implies (#[trigger] x[j]) is Skip by {
        let e = all[j + ls.len()];
        assert(x[j] == net_tally(e));
        if e.len() == 0 {
            assert(trim(e).len() == 0);
        }
    }
    assert forall|i: int| 0 <= i < t.len() implies #[trigger] t2[i] == t[i] by {
        lemma_strip_cr_ws(ls[i + 2]);
        assert(all[i + 2] == ls[i + 2] || all[i + 2] == crate::text::strip_cr(ls[i + 2]));
    }
    assert(t2 =~= t + x);
    lemma_skips_ignored(t, x);
}

// ---------------------------------------------------------------------------
// What a counted line contributes
// ---------------------------------------------------------------------------

proof fn lemma_single_count(a: u64, b: u64)
    ensures
        aggregate(seq![LineTally::Count(a, b)]) == Some((a, b)),
        tally_fits(seq![LineTally::Count(a, b)]),
{
    let t = seq![LineTally::Count(a, b)];
    assert(tally_a(t, 0) == 0 && tally_b(t, 0) == 0);
    assert(tally_a(t, 1) == a && tally_b(t, 1) == b);
    assert(t[0] is Count);
    assert(no_fail(t, 1));
    assert(any_count(t, 1));
    assert forall|i: int| 0 <= i <= t.len() && #[trigger] no_fail(t, i) implies tally_a(t, i)
        <= u64::MAX && tally_b(t, i) <= u64::MAX by {
        if i == 0 {
        } else {
            assert(i == 1);
        }
    }
}

/// A real disk's `/proc/diskstats` line, indented by `lead`, with words `ws`.
pub open spec fn disk_line_text(lead: Seq<char>, ws: Seq<Seq<char>>) -> Seq<char> {
    lead + join_words(ws)
}

/// The conditions under which `disk_line_text(lead, ws)` is a real disk's
/// line with `read` and `written` as its words 5 and 9.
pub open spec fn is_disk_line(lead: Seq<char>, ws: Seq<Seq<char>>, read: u64, written: u64) -> bool {
    &&& forall|k: int| 0 <= k < lead.len() ==> is_ws(#[trigger] lead[k]) && lead[k] != '\n'
    &&& ws.len() >= 14
    &&& forall|i: int| 0 <= i < ws.len() ==> is_word(#[trigger] ws[i])
    &&& !is_virtual_disk(ws[2])
    &&& parse_u64(ws[5]) == Some(read)
    &&& parse_u64(ws[9]) == Some(written)
}

proof fn lemma_disk_line(lead: Seq<char>, ws: Seq<Seq<char>>, read: u64, written: u64)
    requires
        is_disk_line(lead, ws, read, written),
    ensures
        disk_tally(disk_line_text(lead, ws)) == LineTally::Count(read, written),
        disk_line_text(lead, ws).len() > 0,
        forall|i: int|
            0 <= i < disk_line_text(lead, ws).len() ==> #[trigger] disk_line_text(lead, ws)[i]
                != '\n',
{
    let j = join_words(ws);
    let l = lead + j;
    lemma_join_words(ws);
    lemma_words_ws_lead(lead, j);
    assert forall|i: int| 0 <= i < l.len() implies #[trigger] l[i] != '\n' by {
        if i < lead.len() {
            assert(l[i] == lead[i]);
        } else {
            assert(l[i] == j[i - lead.len()]);
        }
    }
}

/// A `/proc/diskstats` line of a real disk (not a loop, ram or
/// device-mapper device), however many words it has beyond fourteen and
/// however it is indented: its sectors read are its word 5 and its sectors
/// written its word 9.
pub proof fn law_diskstats_reads_words_5_and_9(
    lead: Seq<char>,
    ws: Seq<Seq<char>>,
    read: u64,
    written: u64,
)
    requires
        is_disk_line(lead, ws, read, written),
    ensures
        tally_fits(disk_tallies(disk_line_text(lead, ws))),
        disk_sectors(disk_line_text(lead, ws)) == Some((read, written)),
{
    let l = disk_line_text(lead, ws);
    lemma_disk_line(lead, ws, read, written);
    lemma_lines_no_newline(l);
    assert(disk_tallies(l) =~= seq![LineTally::Count(read, written)]);
    lemma_single_count(read, written);
}

/// Appending a line that counts `(a, b)` to lines that all count or skip
/// adds `(a, b)` to the totals, where the sums stay within `u64`.
proof fn lemma_add_count(t: Seq<LineTally>, x: Seq<LineTally>, a: u64, b: u64)
    requires
        x.len() >= 1,
        forall|j: int| 0 <= j < x.len() - 1 ==> (#[trigger] x[j]) is Skip,
        x.last() == LineTally::Count(a, b),
        no_fail(t, t.len() as int),
        tally_fits(t),
        tally_a(t, t.len() as int) + a <= u64::MAX,
        tally_b(t, t.len() as int) + b <= u64::MAX,
    ensures
        tally_fits(t + x),
        aggregate(t + x) == Some(
            ((tally_a(t, t.len() as int) + a) as u64, (tally_b(t, t.len() as int) + b) as u64),
        ),
{
    let y = x.drop_last();
    assert forall|j: int| 0 <= j < y.len() implies (#[trigger] y[j]) is Skip by {
        assert(y[j] == x[j]);
    }
    lemma_skips_ignored(t, y);
    let u = t + y;
    let n = u.len() as int;
    lemma_tally_skips(t, y, n);
    let c = seq![LineTally::Count(a, b)];
    assert(t + x =~= u + c);
    let v = u + c;
    lemma_tally_prefix(u, c, n);
    assert(v[n] == LineTally::Count(a, b));
    assert(tally_a(v, n + 1) == tally_a(v, n) + a);
    assert(tally_b(v, n + 1) == tally_b(v, n) + b);
    assert(no_fail(v, n + 1)) by {
        assert forall|j: int| 0 <= j < n + 1 implies (#[trigger] v[j] is Skip || v[j] is Count) by {
            if j < n {
                assert(v[j] == u[j]);
            }
        }
    }
    assert(any_count(v, n + 1));
    assert forall|i: int| 0 <= i <= v.len() && #[trigger] no_fail(v, i) implies tally_a(v, i)
        <= u64::MAX && tally_b(v, i) <= u64::MAX by {
        if i <= n {
            lemma_tally_prefix(u, c, i);
        }
    }
    assert forall|i: int|
        0 <= i < v.len() && no_fail(v, i) && (#[trigger] v[i]) is FirstOnly implies tally_a(v, i)
        + v[i]->FirstOnly_0 <= u64::MAX by {
        if i < n {
            lemma_tally_prefix(u, c, i);
            assert(v[i] == u[i]);
        }
    }
}

/// Another real disk's line adds its sectors: with it appended to
/// `/proc/diskstats` whose totals are `(read0, written0)`, the totals are
/// the sums (where they stay within `u64`).
pub proof fn law_diskstats_adds_disk_line(
    disk_out: Seq<char>,
    lead: Seq<char>,
    ws: Seq<Seq<char>>,
    read: u64,
    written: u64,
    read0: u64,
    written0: u64,
)
    requires
        tally_fits(disk_tallies(disk_out)),
        disk_sectors(disk_out) == Some((read0, written0)),
        is_disk_line(lead, ws, read, written),
        read0 + read <= u64::MAX,
        written0 + written <= u64::MAX,
    ensures
        tally_fits(disk_tallies(disk_out + seq!['\n'] + disk_line_text(lead, ws))),
        disk_sectors(disk_out + seq!['\n'] + disk_line_text(lead, ws)) == Some(
            ((read0 + read) as u64, (written0 + written) as u64),
        ),
{
    let l = disk_line_text(lead, ws);
    lemma_disk_line(lead, ws, read, written);
    let s2 = disk_out + seq!['\n'] + l;
    let ls = lines(disk_out);
    let all = lines(s2);
    lemma_lines_then_line(disk_out, l);
    let t = disk_tallies(disk_out);
    let t2 = disk_tallies(s2);
    let x = t2.skip(t.len() as int);
    assert forall|i: int| 0 <= i < t.len() implies #[trigger] t2[i] == t[i] by {
        lemma_strip_cr_ws(ls[i]);
        if !ends_line(disk_out) && i == ls.len() - 1 {
            assert(all[i] == strip_cr(ls[i]));
        } else {
            assert(all[i] == ls[i]);
        }
    }
    assert(t2 =~= t + x);
    assert(x.last() == disk_tally(l));
    assert forall|j: int| 0 <= j < x.len() - 1 implies (#[trigger] x[j]) is Skip by {
        assert(all[j + ls.len()] =~= Seq::<char>::empty());
        assert(words(Seq::<char>::empty()) =~= Seq::<Seq<char>>::empty());
    }
    lemma_add_count(t, x, read, written);
}

/// A `/proc/net/dev` interface line: the interface (not `lo`), a colon,
/// then the counters, whatever whitespace stands before the interface and
/// after the colon (none when the first counter fills its column).
pub open spec fn net_line_text(
    lead: Seq<char>,
    iface: Seq<char>,
    pad: Seq<char>,
    nums: Seq<Seq<char>>,
) -> Seq<char> {
    lead + iface + seq![':'] + pad + join_words(nums)
}

/// The conditions under which `net_line_text(lead, iface, pad, nums)` is
/// such a line with `rx` as its first counter and `tx` as its ninth.
pub open spec fn is_net_line(
    lead: Seq<char>,
    iface: Seq<char>,
    pad: Seq<char>,
    nums: Seq<Seq<char>>,
    rx: u64,
    tx: u64,
) -> bool {
    &&& forall|k: int| 0 <= k < lead.len() ==> is_ws(#[trigger] lead[k]) && lead[k] != '\n'
    &&& is_word(iface)
    &&& forall|i: int| 0 <= i < iface.len() ==> #[trigger] iface[i] != ':'
    &&& iface != "lo"@
    &&& forall|k: int| 0 <= k < pad.len() ==> is_ws(#[trigger] pad[k]) && pad[k] != '\n'
    &&& nums.len() >= 9
    &&& forall|i: int| 0 <= i < nums.len() ==> is_word(#[trigger] nums[i])
    &&& parse_u64(nums[0]) == Some(rx)
    &&& parse_u64(nums[8]) == Some(tx)
}

/// The shape of an interface line, whatever its counters say.
pub open spec fn is_net_line_shape(
    lead: Seq<char>,
    iface: Seq<char>,
    pad: Seq<char>,
    nums: Seq<Seq<char>>,
) -> bool {
    &&& forall|k: int| 0 <= k < lead.len() ==> is_ws(#[trigger] lead[k]) && lead[k] != '\n'
    &&& is_word(iface)
    &&& forall|i: int| 0 <= i < iface.len() ==> #[trigger] iface[i] != ':'
    &&& iface != "lo"@
    &&& forall|k: int| 0 <= k < pad.len() ==> is_ws(#[trigger] pad[k]) && pad[k] != '\n'
    &&& nums.len() >= 1
    &&& forall|i: int| 0 <= i < nums.len() ==> is_word(#[trigger] nums[i])
}

proof fn lemma_net_line_parts(
    lead: Seq<char>,
    iface: Seq<char>,
    pad: Seq<char>,
    nums: Seq<Seq<char>>,
)
    requires
        is_net_line_shape(lead, iface, pad, nums),
    ensures
        ({
            let t = trim(net_line_text(lead, iface, pad, nums));
            let k = until_char(t, ':');
            &&& t.len() > 0
            &&& k < t.len()
            &&& trim(t.take(k as int)) == iface
            &&& words(trim(t.skip(k + 1 as int))) == nums
        }),
        net_line_text(lead, iface, pad, nums).len() > 0,
        forall|i: int|
            0 <= i < net_line_text(lead, iface, pad, nums).len() ==> #[trigger] net_line_text(
                lead,
                iface,
                pad,
                nums,
            )[i] != '\n',
{
    let j = join_words(nums);
    lemma_join_words(nums);
    let t0 = iface + seq![':'] + pad + j;
    let l = net_line_text(lead, iface, pad, nums);
    assert(l =~= lead + t0);
    let k = iface.len() as int;
    assert forall|i: int| 0 <= i < l.len() implies #[trigger] l[i] != '\n' by {
        if i < lead.len() {
            assert(l[i] == lead[i]);
        } else if i < lead.len() + k {
            assert(l[i] == iface[i - lead.len()]);
        } else if i == lead.len() + k {
        } else if i < lead.len() + k + 1 + pad.len() {
            assert(l[i] == pad[i - lead.len() - k - 1]);
        } else {
            assert(l[i] == j[i - lead.len() - k - 1 - pad.len()]);
        }
    }
    // trimming the line leaves the interface, the colon and the counters
    assert(t0[0] == iface[0]);
    assert(t0.last() == j.last());
    lemma_trim_padded(lead, t0);
    // the colon right after the interface
    assert forall|i: int| 0 <= i < k implies #[trigger] t0[i] != ':' by {
        assert(t0[i] == iface[i]);
    }
    lemma_until_char(t0, ':', k);
    assert(t0.take(k) =~= iface);
    assert(Seq::<char>::empty() + iface =~= iface);
    lemma_trim_padded(Seq::<char>::empty(), iface);
    assert(t0.skip(k + 1) =~= pad + j);
    lemma_trim_padded(pad, j);
}

proof fn lemma_net_line(
    lead: Seq<char>,
    iface: Seq<char>,
    pad: Seq<char>,
    nums: Seq<Seq<char>>,
    rx: u64,
    tx: u64,
)
    requires
        is_net_line(lead, iface, pad, nums, rx, tx),
    ensures
        net_tally(net_line_text(lead, iface, pad, nums)) == LineTally::Count(rx, tx),
        net_line_text(lead, iface, pad, nums).len() > 0,
        forall|i: int|
            0 <= i < net_line_text(lead, iface, pad, nums).len() ==> #[trigger] net_line_text(
                lead,
                iface,
                pad,
                nums,
            )[i] != '\n',
{
    lemma_net_line_parts(lead, iface, pad, nums);
}

/// An interface line with fewer than nine counters is not counted: with it
/// appended, the totals are the same, and so is whether they stay within
/// `u64`.
pub proof fn law_netdev_ignores_short_line(
    net_out: Seq<char>,
    lead: Seq<char>,
    iface: Seq<char>,
    pad: Seq<char>,
    nums: Seq<Seq<char>>,
)
    requires
        lines(net_out).len() >= 2,
        is_net_line_shape(lead, iface, pad, nums),
        nums.len() < 9,
    ensures
        tally_fits(net_tallies(net_out + seq!['\n'] + net_line_text(lead, iface, pad, nums)))
            == tally_fits(net_tallies(net_out)),
        net_bytes(net_out + seq!['\n'] + net_line_text(lead, iface, pad, nums)) == net_bytes(
            net_out,
        ),
{
    let l = net_line_text(lead, iface, pad, nums);
    lemma_net_line_parts(lead, iface, pad, nums);
    assert(net_tally(l) is Skip);
    let s2 = net_out + seq!['\n'] + l;
    let ls = lines(net_out);
    let all = lines(s2);
    lemma_lines_add_line(net_out, l);
    let t = net_tallies(net_out);
    let t2 = net_tallies(s2);
    assert(net_body(s2) == all.skip(2));
    assert(net_body(net_out) == ls.skip(2));
    let x = t2.skip(t.len() as int);
    assert forall|j: int| 0 <= j < x.len() implies (#[trigger] x[j]) is Skip by {
        let e = all[j + ls.len()];
        assert(x[j] == net_tally(e));
        if e.len() == 0 {
            assert(trim(e).len() == 0);
        }
    }
    assert forall|i: int| 0 <= i < t.len() implies #[trigger] t2[i] == t[i] by {
        lemma_strip_cr_ws(ls[i + 2]);
        assert(all[i + 2] == ls[i + 2] || all[i + 2] == strip_cr(ls[i + 2]));
    }
    assert(t2 =~= t + x);
    lemma_skips_ignored(t, x);
}

/// An interface line right after the two header lines of `/proc/net/dev`
/// counts its first counter as received bytes and its ninth as
/// transmitted bytes.
pub proof fn law_netdev_reads_counters_after_colon(
    head1: Seq<char>,
    head2: Seq<char>,
    lead: Seq<char>,
    iface: Seq<char>,
    pad: Seq<char>,
    nums: Seq<Seq<char>>,
    rx: u64,
    tx: u64,
)
    requires
        forall|i: int| 0 <= i < head1.len() ==> #[trigger] head1[i] != '\n',
        forall|i: int| 0 <= i < head2.len() ==> #[trigger] head2[i] != '\n',
        is_net_line(lead, iface, pad, nums, rx, tx),
    ensures
        tally_fits(
            net_tallies(
                head1 + seq!['\n'] + head2 + seq!['\n'] + net_line_text(lead, iface, pad, nums),
            ),
        ),
        net_bytes(head1 + seq!['\n'] + head2 + seq!['\n'] + net_line_text(lead, iface, pad, nums))
            == Some((rx, tx)),
{
    let l = net_line_text(lead, iface, pad, nums);
    lemma_net_line(lead, iface, pad, nums, rx, tx);
    let s = head1 + seq!['\n'] + head2 + seq!['\n'] + l;
    lemma_lines_three(head1, head2, l);
    assert(net_body(s) =~= seq![l]);
    assert(net_tallies(s) =~= seq![LineTally::Count(rx, tx)]);
    lemma_single_count(rx, tx);
}

/// Another interface line adds its counters: with it appended to
/// `/proc/net/dev` (its two header lines and more) whose totals are
/// `(rx0, tx0)`, the totals are the sums (where they stay within `u64`).
pub proof fn law_netdev_adds_interface_line(
    net_out: Seq<char>,
    lead: Seq<char>,
    iface: Seq<char>,
    pad: Seq<char>,
    nums: Seq<Seq<char>>,
    rx: u64,
    tx: u64,
    rx0: u64,
    tx0: u64,
)
    requires
        lines(net_out).len() >= 2,
        tally_fits(net_tallies(net_out)),
        net_bytes(net_out) == Some((rx0, tx0)),
        is_net_line(lead, iface, pad, nums, rx, tx),
        rx0 + rx <= u64::MAX,
        tx0 + tx <= u64::MAX,
    ensures
        tally_fits(net_tallies(net_out + seq!['\n'] + net_line_text(lead, iface, pad, nums))),
        net_bytes(net_out + seq!['\n'] + net_line_text(lead, iface, pad, nums)) == Some(
            ((rx0 + rx) as u64, (tx0 + tx) as u64),
        ),
{
    let l = net_line_text(lead, iface, pad, nums);
    lemma_net_line(lead, iface, pad, nums, rx, tx);
    let s2 = net_out + seq!['\n'] + l;
    let ls = lines(net_out);
    let all = lines(s2);
    lemma_lines_then_line(net_out, l);
    let t = net_tallies(net_out);
    let t2 = net_tallies(s2);
    assert(net_body(s2) == all.skip(2));
    assert(net_body(net_out) == ls.skip(2));
    let x = t2.skip(t.len() as int);
    assert forall|i: int| 0 <= i < t.len() implies #[trigger] t2[i] == t[i] by {
        lemma_strip_cr_ws(ls[i + 2]);
        if !ends_line(net_out) && i + 2 == ls.len() - 1 {
            assert(all[i + 2] == strip_cr(ls[i + 2]));
        } else {
            assert(all[i + 2] == ls[i + 2]);
        }
    }
    assert(t2 =~= t + x);
    assert(x.last() == net_tally(l));
    assert forall|j: int| 0 <= j < x.len() - 1 implies (#[trigger] x[j]) is Skip by {
        assert(all[j + ls.len()] =~= Seq::<char>::empty());
        assert(trim(Seq::<char>::empty()).len() == 0);
    }
    lemma_add_count(t, x, rx, tx);
}

proof fn lemma_disk_line_words(lead: Seq<char>, ws: Seq<Seq<char>>)
    requires
        forall|k: int| 0 <= k < lead.len() ==> is_ws(#[trigger] lead[k]) && lead[k] != '\n',
        ws.len() > 0,
        forall|i: int| 0 <= i < ws.len() ==> is_word(#[trigger] ws[i]),
    ensures
        words(disk_line_text(lead, ws)) == ws,
        disk_line_text(lead, ws).len() > 0,
        forall|i: int|
            0 <= i < disk_line_text(lead, ws).len() ==> #[trigger] disk_line_text(lead, ws)[i]
                != '\n',
{
    let j = join_words(ws);
    let l = lead + j;
    lemma_join_words(ws);
    lemma_words_ws_lead(lead, j);
    assert forall|i: int| 0 <= i < l.len() implies #[trigger] l[i] != '\n' by {
        if i < lead.len() {
            assert(l[i] == lead[i]);
        } else {
            assert(l[i] == j[i - lead.len()]);
        }
    }
}

/// A real disk's line whose sectors read or written (word 5 or word 9) is
/// not a `u64` makes the whole of `/proc/diskstats` unreadable.
pub proof fn law_diskstats_fails_on_bad_sector_count(
    disk_out: Seq<char>,
    lead: Seq<char>,
    ws: Seq<Seq<char>>,
)
    requires
        forall|k: int| 0 <= k < lead.len() ==> is_ws(#[trigger] lead[k]) && lead[k] != '\n',
        ws.len() >= 14,
        forall|i: int| 0 <= i < ws.len() ==> is_word(#[trigger] ws[i]),
        !is_virtual_disk(ws[2]),
        parse_u64(ws[5]) is None || parse_u64(ws[9]) is None,
    ensures
        disk_sectors(disk_out + seq!['\n'] + disk_line_text(lead, ws)) is None,
{
    let l = disk_line_text(lead, ws);
    lemma_disk_line_words(lead, ws);
    let s2 = disk_out + seq!['\n'] + l;
    lemma_lines_then_line(disk_out, l);
    let t2 = disk_tallies(s2);
    let n = t2.len() as int;
    assert(lines(s2).last() == l);
    assert(t2[n - 1] == disk_tally(l));
    assert(t2[n - 1] is Fail);
    assert(!no_fail(t2, n));
}

/// The values of numbers, added up.
pub open spec fn sum_values(nums: Seq<Seq<char>>) -> nat
    decreases nums.len(),
{
    if nums.len() == 0 {
        0
    } else {
        sum_values(nums.drop_last()) + field_val(nums.last())
    }
}

proof fn lemma_fields_sum(f: Seq<Seq<char>>, i: int)
    requires
        0 <= i <= f.len(),
    ensures
        fields_sum(f, i) == sum_values(f.take(i)),
        forall|k: int| 0 <= k <= i ==> #[trigger] fields_sum(f, k) <= fields_sum(f, i),
    decreases i,
{
    if i > 0 {
        lemma_fields_sum(f, i - 1);
        assert(f.take(i).drop_last() =~= f.take(i - 1));
        assert(f.take(i).last() == f[i - 1]);
    } else {
        assert(f.take(0) =~= Seq::<Seq<char>>::empty());
    }
}

/// A `/proc/stat` `cpu` line (`cpu`, whitespace, at least five counters):
/// every counter adds to the total, and the idle time is the fourth and
/// fifth counters (idle and iowait), where the total stays within `u64`.
pub proof fn law_cpu_total_and_idle(
    lead: Seq<char>,
    pad: Seq<char>,
    nums: Seq<Seq<char>>,
)
    requires
        forall|k: int| 0 <= k < lead.len() ==> is_ws(#[trigger] lead[k]),
        pad.len() > 0,
        forall|k: int| 0 <= k < pad.len() ==> is_ws(#[trigger] pad[k]),
        nums.len() >= 5,
        forall|i: int| 0 <= i < nums.len() ==> is_word(#[trigger] nums[i]),
        forall|i: int| 0 <= i < nums.len() ==> (#[trigger] parse_u64(nums[i])) is Some,
        sum_values(nums) <= u64::MAX,
    ensures
        cpu_sums_fit(lead + "cpu"@ + pad + join_words(nums)),
        cpu_sample(lead + "cpu"@ + pad + join_words(nums)) == Some(
            (sum_values(nums) as u64, (field_val(nums[3]) + field_val(nums[4])) as u64),
        ),
{
    let j = join_words(nums);
    let line = lead + "cpu"@ + pad + j;
    reveal_strlit("cpu");
    let cpu = "cpu"@;
    assert(is_word(cpu)) by {
        assert forall|i: int| 0 <= i < cpu.len() implies !is_ws(#[trigger] cpu[i]) by {}
    }
    lemma_join_words(nums);
    lemma_words_lead_ws(cpu, pad, j);
    assert(line =~= lead + (cpu + pad + j));
    lemma_words_ws_lead(lead, cpu + pad + j);
    let w = words(line);
    assert(w =~= seq![cpu] + nums);
    let f = w.skip(1);
    assert(f =~= nums);
    assert(is_cpu_line(w));
    assert(all_parse_upto(f, f.len() as int));
    lemma_fields_sum(f, f.len() as int);
    assert(f.take(f.len() as int) =~= nums);
    assert forall|i: int| 0 <= i <= f.len() && #[trigger] all_parse_upto(f, i) implies fields_sum(f, i)
        <= u64::MAX by {}
}

/// `free -m`: after a header line, the `Mem:` line (`Mem:`, whitespace, the
/// numbers) gives the first number as total and the second as used.
pub proof fn law_mem_reads_first_two_numbers(
    head: Seq<char>,
    pad: Seq<char>,
    nums: Seq<Seq<char>>,
    total: u64,
    used: u64,
)
    requires
        forall|i: int| 0 <= i < head.len() ==> #[trigger] head[i] != '\n' && head[i] != '\r',
        !starts_with(head, "Mem:"@),
        pad.len() > 0,
        forall|k: int| 0 <= k < pad.len() ==> is_ws(#[trigger] pad[k]) && pad[k] != '\n',
        nums.len() >= 2,
        forall|i: int| 0 <= i < nums.len() ==> is_word(#[trigger] nums[i]),
        parse_u64(nums[0]) == Some(total),
        parse_u64(nums[1]) == Some(used),
    ensures
        mem_usage(head + seq!['\n'] + ("Mem:"@ + pad + join_words(nums))) == Some((total, used)),
{
    reveal_strlit("Mem:");
    let tag = "Mem:"@;
    let j = join_words(nums);
    let l = tag + pad + j;
    lemma_join_words(nums);
    assert(is_word(tag)) by {
        assert forall|i: int| 0 <= i < tag.len() implies !is_ws(#[trigger] tag[i]) by {}
    }
    lemma_words_lead_ws(tag, pad, j);
    assert forall|i: int| 0 <= i < l.len() implies #[trigger] l[i] != '\n' by {
        if i < 4 {
            assert(l[i] == tag[i]);
        } else if i < 4 + pad.len() {
            assert(l[i] == pad[i - 4]);
        } else {
            assert(l[i] == j[i - 4 - pad.len()]);
        }
    }
    lemma_lines_two(head, l);
    assert(strip_cr(head) == head);
    let ls = lines(head + seq!['\n'] + l);
    assert(ls.drop_first() =~= seq![l]);
    assert(l.take(4) =~= tag);
    assert(starts_with(l, tag));
    assert(words(l) =~= seq![tag] + nums);
    assert(mem_in_lines(seq![l]) == Some((total, used)));
    assert(seq![l].drop_first() =~= Seq::<Seq<char>>::empty());
}

// ---------------------------------------------------------------------------
// Sections of the collection script's output
// ---------------------------------------------------------------------------

/// The text between the marker line `===NAME===` and the next line that
/// starts with `===` (or the end), trailing whitespace removed.
pub open spec fn section_of(all: Seq<char>, name: Seq<char>) -> Option<Seq<char>> {
    let pat = "==="@ + name + "===\n"@;
    match find(all, pat) {
        None => None,
        Some(p) => {
            let rest = all.skip(p + pat.len());
            let e = match find(rest, "\n==="@) {
                Some(e) => e,
                None => rest.len() as int,
            };
            Some(trim_end(rest.take(e)))
        },
    }
}

proof fn lemma_find_from_bounds(s: Seq<char>, p: Seq<char>, k: int)
    ensures
        find_from(s, p, k) matches Some(i) ==> 0 <= i && i + p.len() <= s.len(),
    decreases s.len() + 1 - k,
{
    if !(k < 0 || k + p.len() > s.len()) && s.subrange(k, k + p.len()) != p {
        lemma_find_from_bounds(s, p, k + 1);
    }
}

pub fn section<'a>(all: &'a str, name: &str) -> (r: Option<&'a str>)
    ensures
        match r {
            Some(x) => section_of(all@, name@) == Some(x@),
            None => section_of(all@, name@) is None,
        },
{
    let v = to_chars(all);
    let pat = concat_chars(&concat_chars(&to_chars("==="), &to_chars(name)), &to_chars("===\n"));
    match find_chars(&v, &pat) {
        None => None,
        Some(p) => {
            proof {
                lemma_find_from_bounds(v@, pat@, 0);
                assert(find_from(v@, pat@, 0) == Some(p as int));
                assert(p + pat@.len() <= v@.len());
            }
            assert(p + pat.len() <= v.len());
            let start = p + pat.len();
            let rest = slice_chars(&v, start, v.len());
            assert(rest@ =~= all@.skip(start as int));
            let e = match find_chars(&rest, &to_chars("\n===")) {
                Some(e) => {
                    proof {
                        lemma_find_from_bounds(rest@, "\n==="@, 0);
                    }
                    e
                },
                None => rest.len(),
            };
            let head = slice_chars(&rest, 0, e);
            assert(head@ =~= rest@.take(e as int));
            let j = trim_end_len(&head);
            let out = all.substring_char(start, start + j);
            assert(out@ =~= trim_end(rest@.take(e as int)));
            Some(out)
        },
    }
}

// ---------------------------------------------------------------------------
// df -h and uptime: the fields that hold the (fractional) numbers
// ---------------------------------------------------------------------------

/// The words of the first line whose sixth word is the mount point.
pub open spec fn df_row(ls: Seq<Seq<char>>, mount: Seq<char>) -> Option<Seq<Seq<char>>>
    decreases ls.len(),
{
    if ls.len() == 0 {
        None
    } else {
        let w = words(ls[0]);
        if w.len() >= 6 && w[5] == mount {
            Some(w)
        } else {
            df_row(ls.drop_first(), mount)
        }
    }
}

/// Size, used and use-percentage (its `%` signs removed) of the mount point
/// in `df -h` output, from the first row below the header that names it.
pub open spec fn df_fields_of(s: Seq<char>, mount: Seq<char>) -> Option<
    (Seq<char>, Seq<char>, Seq<char>),
> {
    let ls = lines(s);
    let body = if ls.len() >= 1 {
        ls.skip(1)
    } else {
        seq![]
    };
    match df_row(body, mount) {
        Some(w) => Some((w[1], w[2], strip_trailing(w[4], '%'))),
        None => None,
    }
}

pub open spec fn triple_view(r: Option<(String, String, String)>) -> Option<
    (Seq<char>, Seq<char>, Seq<char>),
> {
    match r {
        Some((a, b, c)) => Some((a@, b@, c@)),
        None => None,
    }
}

/// The size, used and percentage fields of a mount point in `df -h` output.
pub fn df_fields(df_out: &str, mount: &str) -> (r: Option<(String, String, String)>)
    ensures
        triple_view(r) == df_fields_of(df_out@, mount@),
{
    let ls = lines_chars(&to_chars(df_out));
    let ghost all = lines(df_out@);
    let ghost body = if all.len() >= 1 {
        all.skip(1)
    } else {
        seq![]
    };
    let m = to_chars(mount);
    if ls.len() == 0 {
        return None;
    }
    let mut i: usize = 1;
    assert(body.skip(0) =~= body);
    while i < ls.len()
        invariant
            1 <= i <= ls.len(),
            views(ls@) == all,
            all == lines(df_out@),
            all.len() >= 1,
            body == all.skip(1),
            m@ == mount@,
            df_row(body, mount@) == df_row(body.skip(i - 1), mount@),
        decreases ls.len() - i,
    {
        assert(body.skip(i - 1)[0] == ls@[i as int]@);
        let parts = words_chars(&ls[i]);
        if parts.len() >= 6 {
            assert(views(parts@)[5] == parts@[5]@);
        }
        if parts.len() >= 6 && chars_eq(&parts[5], &m) {
            assert(views(parts@)[1] == parts@[1]@);
            assert(views(parts@)[2] == parts@[2]@);
            assert(views(parts@)[4] == parts@[4]@);
            let pct = strip_trailing_chars(&parts[4], '%');
            return Some(
                (chars_to_string(&parts[1]), chars_to_string(&parts[2]), chars_to_string(&pct)),
            );
        }
        assert(body.skip(i - 1).drop_first() =~= body.skip(i as int));
        i += 1;
    }
    assert(body.skip(i - 1) =~= Seq::<Seq<char>>::empty());
    None
}

/// How many MiB one unit of a `df -h` size is: `G` 1024, `M` 1, `T` 1024 * 1024,
/// no suffix 1.
pub open spec fn size_factor(t: Seq<char>) -> u32 {
    if t.len() > 0 && t.last() == 'G' {
        1024
    } else if t.len() > 0 && t.last() == 'M' {
        1
    } else if t.len() > 0 && t.last() == 'T' {
        1048576
    } else {
        1
    }
}

/// The number part of a `df -h` size: trimmed, one unit suffix removed.
pub open spec fn size_number(t: Seq<char>) -> Seq<char> {
    if t.len() > 0 && (t.last() == 'G' || t.last() == 'M' || t.last() == 'T') {
        t.drop_last()
    } else {
        t
    }
}

/// The number and the MiB per unit of a `df -h` size such as `8.2G`; the size
/// in GiB is the number times the factor over 1024.
pub fn size_parts(s: &str) -> (r: (String, u32))
    ensures
        r.0@ == size_number(trim(s@)),
        r.1 == size_factor(trim(s@)),
{
    let t = trim_chars(&to_chars(s));
    let n = t.len();
    if n > 0 && (t[n - 1] == 'G' || t[n - 1] == 'M' || t[n - 1] == 'T') {
        let factor: u32 = if t[n - 1] == 'G' {
            1024
        } else if t[n - 1] == 'M' {
            1
        } else {
            1048576
        };
        let num = slice_chars(&t, 0, n - 1);
        assert(num@ =~= t@.drop_last());
        (chars_to_string(&num), factor)
    } else {
        (chars_to_string(&t), 1)
    }
}

/// `df -h`: after the header line, a row (at least six words) whose mount
/// point (word 5) is the one asked for gives its size (word 1), used (word
/// 2) and use percentage (word 4, its `%` signs removed).
pub proof fn law_df_reads_row_of_mount(
    head: Seq<char>,
    lead: Seq<char>,
    ws: Seq<Seq<char>>,
    mount: Seq<char>,
)
    requires
        forall|i: int| 0 <= i < head.len() ==> #[trigger] head[i] != '\n',
        forall|k: int| 0 <= k < lead.len() ==> is_ws(#[trigger] lead[k]) && lead[k] != '\n',
        ws.len() >= 6,
        forall|i: int| 0 <= i < ws.len() ==> is_word(#[trigger] ws[i]),
        ws[5] == mount,
    ensures
        df_fields_of(head + seq!['\n'] + (lead + join_words(ws)), mount) == Some(
            (ws[1], ws[2], strip_trailing(ws[4], '%')),
        ),
{
    let row = lead + join_words(ws);
    lemma_disk_line_words(lead, ws);
    assert(disk_line_text(lead, ws) == row);
    lemma_lines_two(head, row);
    let ls = lines(head + seq!['\n'] + row);
    assert(ls.skip(1) =~= seq![row]);
    assert(df_row(seq![row], mount) == Some(ws));
}

/// A `df -h` size is its number and a unit: `G` is 1024 MiB, `M` one MiB,
/// `T` 1048576 MiB, and no unit one MiB.
pub proof fn law_size_units(num: Seq<char>, unit: char)
    requires
        num.len() > 0,
        is_digit(num[0]),
        is_digit(num.last()),
    ensures
        size_number(trim(num + seq![unit])) == (if unit == 'G' || unit == 'M' || unit == 'T' {
            num
        } else if is_ws(unit) {
            num
        } else {
            num + seq![unit]
        }),
        size_factor(trim(num + seq![unit])) == (if unit == 'G' {
            1024u32
        } else if unit == 'T' {
            1048576u32
        } else {
            1u32
        }),
{
    let t = num + seq![unit];
    assert(!is_ws(num[0]));
    assert(!is_ws(num.last()));
    if is_ws(unit) {
        lemma_trim_ws_end(num, unit);
        lemma_trim_padded(Seq::<char>::empty(), num);
        assert(Seq::<char>::empty() + num =~= num);
        assert(!is_digit(unit));
    } else {
        assert(t[0] == num[0]);
        assert(t.last() == unit);
        lemma_trim_padded(Seq::<char>::empty(), t);
        assert(Seq::<char>::empty() + t =~= t);
        assert(t.drop_last() =~= num);
    }
}

/// The three load averages of `uptime` output, as text: the part after the
/// first `load average:` (up to a second one, if any), trimmed and split at
/// commas, each of the first three pieces trimmed; `None` with fewer pieces.
pub open spec fn load_fields_of(s: Seq<char>) -> Option<(Seq<char>, Seq<char>, Seq<char>)> {
    let pat = "load average:"@;
    match find(s, pat) {
        None => None,
        Some(p) => {
            let rest = s.skip(p + pat.len());
            let seg = match find(rest, pat) {
                Some(e) => rest.take(e),
                None => rest,
            };
            let parts = split_on(trim(seg), ',');
            if parts.len() < 3 {
                None
            } else {
                Some((trim(parts[0]), trim(parts[1]), trim(parts[2])))
            }
        },
    }
}

/// The 1, 5 and 15 minute load averages of `uptime` output, as text.
pub fn load_fields(uptime_out: &str) -> (r: Option<(String, String, String)>)
    ensures
        triple_view(r) == load_fields_of(uptime_out@),
{
    let v = to_chars(uptime_out);
    let pat = to_chars("load average:");
    match find_chars(&v, &pat) {
        None => None,
        Some(p) => {
            proof {
                lemma_find_from_bounds(v@, pat@, 0);
                assert(find_from(v@, pat@, 0) == Some(p as int));
            }
            assert(p + pat.len() <= v.len());
            let rest = slice_chars(&v, p + pat.len(), v.len());
            assert(rest@ =~= v@.skip(p + pat@.len()));
            let seg = match find_chars(&rest, &pat) {
                Some(e) => {
                    proof {
                        lemma_find_from_bounds(rest@, pat@, 0);
                        assert(find_from(rest@, pat@, 0) == Some(e as int));
                    }
                    let s = slice_chars(&rest, 0, e);
                    assert(s@ =~= rest@.take(e as int));
                    s
                },
                None => rest,
            };
            let parts = split_chars(&trim_chars(&seg), ',');
            if parts.len() < 3 {
                return None;
            }
            assert(views(parts@)[0] == parts@[0]@);
            assert(views(parts@)[1] == parts@[1]@);
            assert(views(parts@)[2] == parts@[2]@);
            let a = trim_chars(&parts[0]);
            let b = trim_chars(&parts[1]);
            let c = trim_chars(&parts[2]);
            Some((chars_to_string(&a), chars_to_string(&b), chars_to_string(&c)))
        },
    }
}

} // verus!
