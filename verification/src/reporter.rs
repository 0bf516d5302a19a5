//! The parts of the report that are computed rather than printed: number
//! formatting, the order and class of status codes, and run totals.
use vstd::prelude::*;
use crate::stats::{map_entries, WorkerStats};
use crate::text::string_from_range;
use std::collections::HashMap;

verus! {

broadcast use vstd::std_specs::hash::group_hash_axioms;

/// The decimal digit character for `d < 10`.
pub open spec fn digit_char(d: int) -> char {
    (d + 48) as char
}

/// The decimal representation of `n`, most significant digit first, without
/// leading zeros (`"0"` for zero), as `u64::to_string` writes it.
pub open spec fn decimal_digits(n: nat) -> Seq<char>
    decreases n,
{
    if n < 10 {
        seq![digit_char(n as int)]
    } else {
        decimal_digits(n / 10).push(digit_char((n % 10) as int))
    }
}

/// `d` with a comma before each group of three digits counted from the right,
/// as the report writes large counts.
pub open spec fn group_thousands(d: Seq<char>) -> Seq<char>
    decreases d.len(),
{
    if d.len() <= 3 {
        d
    } else {
        group_thousands(d.subrange(0, d.len() - 3)) + seq![','] + d.subrange(
            d.len() - 3,
            d.len() as int,
        )
    }
}

/// The characters of the decimal representation of `n`.
pub fn decimal_digit_chars(n: u64) -> (v: Vec<char>)
    ensures
        v@ == decimal_digits(n as nat),
    decreases n,
{
    let d = (n % 10) as u8;
    let c = (d + 48u8) as char;
    assert(c == digit_char((n % 10) as int));
    if n < 10 {
        let mut v = Vec::new();
        v.push(c);
        assert(v@ =~= seq![digit_char(n as int)]);
        v
    } else {
        let mut v = decimal_digit_chars(n / 10);
        v.push(c);
        v
    }
}

/// `group_thousands` of `d[0..len]`.
fn group_thousands_prefix(d: &Vec<char>, len: usize) -> (s: String)
    requires
        len <= d.len(),
    ensures
        s@ == group_thousands(d@.subrange(0, len as int)),
    decreases len,
{
    if len <= 3 {
        string_from_range(d, 0, len)
    } else {
        let mut s = group_thousands_prefix(d, len - 3);
        s.push(',');
        let tail = string_from_range(d, len - 3, len);
        s.append(tail.as_str());
        let ghost p = d@.subrange(0, len as int);
        assert(p.subrange(0, p.len() - 3) =~= d@.subrange(0, len - 3));
        assert(p.subrange(p.len() - 3, p.len() as int) =~= d@.subrange(len - 3, len as int));
        s
    }
}

/// `n` in decimal with thousands separators, e.g. `1234567` as `"1,234,567"`.
pub fn format_number(n: u64) -> (s: String)
    ensures
        s@ == group_thousands(decimal_digits(n as nat)),
{
    let d = decimal_digit_chars(n);
    assert(d@.subrange(0, d@.len() as int) =~= d@);
    group_thousands_prefix(&d, d.len())
}

/// `s` without its commas.
pub open spec fn strip_commas(s: Seq<char>) -> Seq<char>
    decreases s.len(),
{
    if s.len() == 0 {
        s
    } else if s.last() == ',' {
        strip_commas(s.drop_last())
    } else {
        strip_commas(s.drop_last()).push(s.last())
    }
}

/// The number that decimal digits spell.
pub open spec fn digits_value(d: Seq<char>) -> int
    decreases d.len(),
{
    if d.len() == 0 {
        0
    } else {
        digits_value(d.drop_last()) * 10 + (d.last() as int - 48)
    }
}

/// Stripping commas distributes over concatenation.
proof fn lemma_strip_commas_concat(a: Seq<char>, b: Seq<char>)
    ensures
        strip_commas(a + b) == strip_commas(a) + strip_commas(b),
    decreases b.len(),
{
    if b.len() == 0 {
        assert(a + b =~= a);
        assert(strip_commas(a) + strip_commas(b) =~= strip_commas(a));
    } else {
        lemma_strip_commas_concat(a, b.drop_last());
        assert((a + b).drop_last() =~= a + b.drop_last());
        assert((strip_commas(a) + strip_commas(b.drop_last())).push(b.last()) =~= strip_commas(a)
            + strip_commas(b.drop_last()).push(b.last()));
    }
}

/// A sequence without commas is left alone by stripping.
proof fn lemma_strip_commas_none(s: Seq<char>)
    requires
        forall|i: int| 0 <= i < s.len() ==> s[i] != ',',
    ensures
        strip_commas(s) == s,
    decreases s.len(),
{
    if s.len() > 0 {
        lemma_strip_commas_none(s.drop_last());
        assert(s.drop_last().push(s.last()) =~= s);
    }
}

/// The characters of a decimal representation are digits.
proof fn lemma_decimal_digits_are_digits(n: nat)
    ensures
        forall|i: int| 0 <= i < decimal_digits(n).len() ==> '0' <= #[trigger] decimal_digits(n)[i]
            <= '9',
        decimal_digits(n).len() >= 1,
    decreases n,
{
    if n >= 10 {
        lemma_decimal_digits_are_digits(n / 10);
    }
}

/// A formatted count reads back as the count: without its commas it is the
/// decimal representation of the number, which spells the number; and the
/// commas stand exactly at the positions that are a positive multiple of four
/// from the end, so the first group has one to three digits and every later
/// group exactly three.
pub proof fn law_format_number_reads_back(n: nat)
    ensures
        strip_commas(group_thousands(decimal_digits(n))) == decimal_digits(n),
        digits_value(decimal_digits(n)) == n,
        forall|i: int|
            0 <= i < group_thousands(decimal_digits(n)).len() ==> (#[trigger] group_thousands(
                decimal_digits(n),
            )[i] == ',' <==> (i > 0 && (group_thousands(decimal_digits(n)).len() - i) % 4 == 0)),
{
    lemma_decimal_digits_are_digits(n);
    lemma_group_thousands_strips(decimal_digits(n));
    lemma_group_thousands_commas(decimal_digits(n));
    lemma_digits_value(n);
}

/// Where grouping puts its commas: at the positions a positive multiple of
/// four from the end.
proof fn lemma_group_thousands_commas(d: Seq<char>)
    requires
        forall|i: int| 0 <= i < d.len() ==> d[i] != ',',
    ensures
        group_thousands(d).len() >= d.len(),
        forall|i: int|
            0 <= i < group_thousands(d).len() ==> (#[trigger] group_thousands(d)[i] == ',' <==> (i
                > 0 && (group_thousands(d).len() - i) % 4 == 0)),
    decreases d.len(),
{
    if d.len() > 3 {
        let head = d.subrange(0, d.len() - 3);
        let tail = d.subrange(d.len() - 3, d.len() as int);
        lemma_group_thousands_commas(head);
        let h = group_thousands(head);
        let g = group_thousands(d);
        assert(g == h + seq![','] + tail);
        assert forall|i: int| 0 <= i < g.len() implies (#[trigger] g[i] == ',' <==> (i > 0 && (
        g.len() - i) % 4 == 0)) by {
            if i < h.len() {
                assert(g[i] == h[i]);
                assert((g.len() - i) % 4 == (h.len() - i) % 4);
            } else if i == h.len() {
                assert(g[i] == ',');
            } else {
                assert(g[i] == tail[i - h.len() - 1]);
            }
        }
    }
}

/// Grouping inserts only commas.
proof fn lemma_group_thousands_strips(d: Seq<char>)
    requires
        forall|i: int| 0 <= i < d.len() ==> d[i] != ',',
    ensures
        strip_commas(group_thousands(d)) == d,
    decreases d.len(),
{
    if d.len() <= 3 {
        lemma_strip_commas_none(d);
    } else {
        let head = d.subrange(0, d.len() - 3);
        let tail = d.subrange(d.len() - 3, d.len() as int);
        lemma_group_thousands_strips(head);
        lemma_strip_commas_concat(group_thousands(head) + seq![','], tail);
        lemma_strip_commas_concat(group_thousands(head), seq![',']);
        assert(strip_commas(seq![',']) =~= Seq::<char>::empty()) by {
            let c = seq![','];
            assert(c.drop_last() =~= Seq::<char>::empty());
            assert(c.last() == ',');
            assert(strip_commas(Seq::<char>::empty()) == Seq::<char>::empty());
        }
        lemma_strip_commas_none(tail);
        assert(head + tail =~= d);
        assert(strip_commas(group_thousands(head)) + Seq::<char>::empty() =~= head);
    }
}

/// The decimal representation spells the number.
proof fn lemma_digits_value(n: nat)
    ensures
        digits_value(decimal_digits(n)) == n,
    decreases n,
{
    let d = decimal_digits(n);
    let last = (n % 10) as int;
    assert((digit_char(last) as int) == last + 48);
    if n < 10 {
        assert(d.drop_last() =~= Seq::<char>::empty());
        assert(d.last() == digit_char(n as int));
        assert(digits_value(d.drop_last()) == 0);
        assert(digits_value(d) == 0 * 10 + (d.last() as int - 48));
    } else {
        lemma_digits_value(n / 10);
        assert(d.drop_last() =~= decimal_digits(n / 10));
        assert(d.last() == digit_char(last));
        assert(digits_value(d) == digits_value(decimal_digits(n / 10)) * 10 + last);
        assert((n / 10) * 10 + n % 10 == n) by (nonlinear_arith);
    }
}

/// The entries of a status-code map in ascending order of code.
#[verifier::spinoff_prover]
pub fn sorted_status_codes(m: &HashMap<u16, u64>) -> (v: Vec<(u16, u64)>)
    ensures
        forall|i: int, j: int| 0 <= i < j < v.len() ==> v@[i].0 < v@[j].0,
        forall|i: int| 0 <= i < v.len() ==> #[trigger] m@.contains_key(v@[i].0) && m@[v@[i].0] == v@[i].1,
        forall|k: u16| #[trigger] m@.contains_key(k) ==> exists|i: int| 0 <= i < v.len() && v@[i].0 == k,
{
    let entries = map_entries(m);
    let mut v: Vec<(u16, u64)> = Vec::new();
    for i in 0..entries.len()
        invariant
            forall|a: int| 0 <= a < entries.len() ==> #[trigger] m@.contains_key(entries@[a].0)
                && m@[entries@[a].0] == entries@[a].1,
            forall|a: int, b: int| 0 <= a < b < entries.len() ==> entries@[a].0 != entries@[b].0,
            forall|a: int, b: int| 0 <= a < b < v.len() ==> v@[a].0 < v@[b].0,
            v.len() == i,
            forall|a: int| 0 <= a < v.len() ==> entries@.take(i as int).contains(#[trigger] v@[a]),
            forall|b: int| 0 <= b < i ==> v@.contains(#[trigger] entries@[b]),
    {
        let e = entries[i];
        let mut pos = v.len();
        while pos > 0 && v[pos - 1].0 > e.0
            invariant
                0 <= pos <= v.len(),
                forall|k: int| pos <= k < v.len() ==> v@[k].0 > e.0,
            decreases pos,
        {
            pos -= 1;
        }
        proof {
            if pos > 0 {
                assert(entries@.take(i as int).contains(v@[pos - 1]));
                let b = choose|b: int| 0 <= b < i && entries@.take(i as int)[b] == v@[pos - 1];
                assert(entries@[b].0 != entries@[i as int].0);
            }
        }
        let ghost old_v = v@;
        v.insert(pos, e);
        proof {
            assert(v@ =~= old_v.insert(pos as int, e));
            let ghost pre = entries@.take(i as int);
            let ghost post = entries@.take(i + 1);
            assert(post =~= pre.push(entries@[i as int]));
            assert forall|a: int| 0 <= a < v.len() implies post.contains(#[trigger] v@[a]) by {
                if a < pos {
                    assert(pre.contains(old_v[a]));
                    let b = choose|b: int| 0 <= b < pre.len() && pre[b] == old_v[a];
                    assert(post[b] == v@[a]);
                } else if a == pos {
                    assert(post[i as int] == v@[a]);
                } else {
                    assert(pre.contains(old_v[a - 1]));
                    let b = choose|b: int| 0 <= b < pre.len() && pre[b] == old_v[a - 1];
                    assert(post[b] == v@[a]);
                }
            }
            assert forall|b: int| 0 <= b < i + 1 implies v@.contains(#[trigger] entries@[b]) by {
                if b == i {
                    assert(v@[pos as int] == entries@[b]);
                } else {
                    assert(old_v.contains(entries@[b]));
                    let a = choose|a: int| 0 <= a < old_v.len() && old_v[a] == entries@[b];
                    if a < pos {
                        assert(v@[a] == entries@[b]);
                    } else {
                        assert(v@[a + 1] == entries@[b]);
                    }
                }
            }
        }
    }
    proof {
        assert(entries@.take(entries.len() as int) =~= entries@);
        assert forall|i: int| 0 <= i < v.len() implies #[trigger] m@.contains_key(v@[i].0) && m@[v@[i].0]
            == v@[i].1 by {
            assert(entries@.contains(v@[i]));
            let b = choose|b: int| 0 <= b < entries.len() && entries@[b] == v@[i];
            assert(m@.contains_key(entries@[b].0));
        }
        assert forall|k: u16| #[trigger] m@.contains_key(k) implies exists|i: int|
            0 <= i < v.len() && v@[i].0 == k by {
            let b = choose|b: int| 0 <= b < entries.len() && entries@[b].0 == k;
            assert(v@.contains(entries@[b]));
            let a = choose|a: int| 0 <= a < v.len() && v@[a] == entries@[b];
            assert(v@[a].0 == k);
        }
    }
    v
}

/// How a status code is shown: by its hundreds.
#[derive(Debug, Clone, Copy, PartialEq, Eq, Structural)]
pub enum StatusClass {
    /// 2xx
    Success,
    /// 3xx
    Redirection,
    /// 4xx
    ClientError,
    /// 5xx
    ServerError,
    /// Any other code.
    Other,
}

/// The class of a status code, by its hundreds.
pub open spec fn spec_status_class(code: u16) -> StatusClass {
    let h = code / 100;
    if h == 2 {
        StatusClass::Success
    } else if h == 3 {
        StatusClass::Redirection
    } else if h == 4 {
        StatusClass::ClientError
    } else if h == 5 {
        StatusClass::ServerError
    } else {
        StatusClass::Other
    }
}

/// `c` is the class that the range of `code` gives: 200 to 299 success,
/// 300 to 399 redirection, 400 to 499 client error, 500 to 599 server error,
/// any other code other.
pub open spec fn class_by_range(code: u16, c: StatusClass) -> bool {
    &&& 200 <= code < 300 ==> c == StatusClass::Success
    &&& 300 <= code < 400 ==> c == StatusClass::Redirection
    &&& 400 <= code < 500 ==> c == StatusClass::ClientError
    &&& 500 <= code < 600 ==> c == StatusClass::ServerError
    &&& (code < 200 || code >= 600) ==> c == StatusClass::Other
}

/// Every status code is classed by the range of a hundred it lies in.
pub proof fn law_status_class_by_hundreds(code: u16)
    ensures
        200 <= code < 300 ==> spec_status_class(code) == StatusClass::Success,
        300 <= code < 400 ==> spec_status_class(code) == StatusClass::Redirection,
        400 <= code < 500 ==> spec_status_class(code) == StatusClass::ClientError,
        500 <= code < 600 ==> spec_status_class(code) == StatusClass::ServerError,
        (code < 200 || code >= 600) ==> spec_status_class(code) == StatusClass::Other,
{
}

/// The class of a status code.
pub fn status_class(code: u16) -> (c: StatusClass)
    ensures
        c == spec_status_class(code),
        class_by_range(code, c),
{
    proof {
        law_status_class_by_hundreds(code);
    }
    match code / 100 {
        2 => StatusClass::Success,
        3 => StatusClass::Redirection,
        4 => StatusClass::ClientError,
        5 => StatusClass::ServerError,
        _ => StatusClass::Other,
    }
}

/// Whether the report ends with an overall summary: when more than one group
/// ran.
pub fn shows_overall_summary(group_count: usize) -> (b: bool)
    ensures
        b == (group_count > 1),
{
    group_count > 1
}

/// Whether a group's report goes on to its latencies, throughput and status
/// codes: when at least one request completed (else it says that none did).
pub fn reports_group_details(total_requests: u64) -> (b: bool)
    ensures
        b == (total_requests > 0),
{
    total_requests > 0
}

/// Whether a group's report has a line for failed requests: when any failed.
pub fn shows_error_line(errors: u64) -> (b: bool)
    ensures
        b == (errors > 0),
{
    errors > 0
}

/// The integer totals of a run, over its groups.
#[derive(Debug, Clone, Copy, PartialEq, Eq, Structural)]
pub struct RunTotals {
    pub total_requests: u64,
    pub total_bytes: u64,
    pub total_errors: u64,
}

/// The requests of the groups `gs`.
pub open spec fn groups_requests(gs: Seq<RunTotals>) -> int
    decreases gs.len(),
{
    if gs.len() == 0 {
        0
    } else {
        groups_requests(gs.drop_last()) + gs.last().total_requests
    }
}

/// The bytes of the groups `gs`.
pub open spec fn groups_bytes(gs: Seq<RunTotals>) -> int
    decreases gs.len(),
{
    if gs.len() == 0 {
        0
    } else {
        groups_bytes(gs.drop_last()) + gs.last().total_bytes
    }
}

/// The errors of the groups `gs`.
pub open spec fn groups_errors(gs: Seq<RunTotals>) -> int
    decreases gs.len(),
{
    if gs.len() == 0 {
        0
    } else {
        groups_errors(gs.drop_last()) + gs.last().total_errors
    }
}

/// Prefix sums stay below whole sums.
proof fn lemma_groups_prefix(gs: Seq<RunTotals>, i: int)
    requires
        0 <= i <= gs.len(),
    ensures
        groups_requests(gs.take(i)) <= groups_requests(gs),
        groups_bytes(gs.take(i)) <= groups_bytes(gs),
        groups_errors(gs.take(i)) <= groups_errors(gs),
    decreases gs.len() - i,
{
    if i < gs.len() {
        lemma_groups_prefix(gs, i + 1);
        assert(gs.take(i + 1).drop_last() =~= gs.take(i));
    } else {
        assert(gs.take(i) =~= gs);
    }
}

/// The sum of `f` over the groups `gs`.
pub open spec fn sum_over(gs: Seq<RunTotals>, f: spec_fn(RunTotals) -> int) -> int
    decreases gs.len(),
{
    if gs.len() == 0 {
        0
    } else {
        sum_over(gs.drop_last(), f) + f(gs.last())
    }
}

/// The three totals are sums of one field each.
proof fn lemma_totals_are_sums(gs: Seq<RunTotals>)
    ensures
        groups_requests(gs) == sum_over(gs, |g: RunTotals| g.total_requests as int),
        groups_bytes(gs) == sum_over(gs, |g: RunTotals| g.total_bytes as int),
        groups_errors(gs) == sum_over(gs, |g: RunTotals| g.total_errors as int),
    decreases gs.len(),
{
    if gs.len() > 0 {
        lemma_totals_are_sums(gs.drop_last());
    }
}

/// A sum over two lists one after the other is the sum of their sums.
proof fn lemma_sum_over_concat(a: Seq<RunTotals>, b: Seq<RunTotals>, f: spec_fn(RunTotals) -> int)
    ensures
        sum_over(a + b, f) == sum_over(a, f) + sum_over(b, f),
    decreases b.len(),
{
    if b.len() == 0 {
        assert(a + b =~= a);
    } else {
        lemma_sum_over_concat(a, b.drop_last(), f);
        assert((a + b).drop_last() =~= a + b.drop_last());
    }
}

/// Taking one group out of a list takes its part out of the sum.
proof fn lemma_sum_over_remove(s: Seq<RunTotals>, i: int, f: spec_fn(RunTotals) -> int)
    requires
        0 <= i < s.len(),
    ensures
        sum_over(s, f) == sum_over(s.remove(i), f) + f(s[i]),
{
    let pre = s.take(i);
    let post = s.skip(i + 1);
    assert(s =~= pre + seq![s[i]] + post);
    assert(s.remove(i) =~= pre + post);
    lemma_sum_over_concat(pre + seq![s[i]], post, f);
    lemma_sum_over_concat(pre, seq![s[i]], f);
    lemma_sum_over_concat(pre, post, f);
    let one = seq![s[i]];
    assert(one.drop_last() =~= Seq::<RunTotals>::empty());
    assert(sum_over(one, f) == sum_over(one.drop_last(), f) + f(one.last()));
    assert(sum_over(one, f) == f(s[i]));
}

/// Sums over lists that hold the same groups are equal.
proof fn lemma_sum_over_permutation(a: Seq<RunTotals>, b: Seq<RunTotals>, f: spec_fn(RunTotals) -> int)
    requires
        a.to_multiset() == b.to_multiset(),
    ensures
        sum_over(a, f) == sum_over(b, f),
    decreases a.len(),
{
    broadcast use vstd::seq_lib::group_to_multiset_ensures;

    if a.len() == 0 {
        assert(b.to_multiset().len() == 0);
        assert(b =~= Seq::<RunTotals>::empty());
    } else {
        let x = a.last();
        let last = a.len() - 1;
        assert(a.remove(last) =~= a.drop_last());
        assert(a.to_multiset().count(x) > 0) by {
            assert(a.contains(x)) by {
                assert(a[last] == x);
            }
        }
        assert(b.contains(x));
        let j = choose|j: int| 0 <= j < b.len() && b[j] == x;
        assert(a.drop_last().to_multiset() == b.remove(j).to_multiset());
        lemma_sum_over_permutation(a.drop_last(), b.remove(j), f);
        lemma_sum_over_remove(b, j, f);
    }
}

/// The totals of two lists of groups, one after the other, are the sums of
/// the totals of each.
pub proof fn law_run_totals_add_over_concatenation(a: Seq<RunTotals>, b: Seq<RunTotals>)
    ensures
        groups_requests(a + b) == groups_requests(a) + groups_requests(b),
        groups_bytes(a + b) == groups_bytes(a) + groups_bytes(b),
        groups_errors(a + b) == groups_errors(a) + groups_errors(b),
{
    lemma_totals_are_sums(a);
    lemma_totals_are_sums(b);
    lemma_totals_are_sums(a + b);
    lemma_sum_over_concat(a, b, |g: RunTotals| g.total_requests as int);
    lemma_sum_over_concat(a, b, |g: RunTotals| g.total_bytes as int);
    lemma_sum_over_concat(a, b, |g: RunTotals| g.total_errors as int);
}

/// The totals of a run do not depend on the order of its groups: two lists
/// that hold the same groups have the same totals.
pub proof fn law_run_totals_ignore_order(a: Seq<RunTotals>, b: Seq<RunTotals>)
    requires
        a.to_multiset() == b.to_multiset(),
    ensures
        groups_requests(a) == groups_requests(b),
        groups_bytes(a) == groups_bytes(b),
        groups_errors(a) == groups_errors(b),
{
    lemma_totals_are_sums(a);
    lemma_totals_are_sums(b);
    lemma_sum_over_permutation(a, b, |g: RunTotals| g.total_requests as int);
    lemma_sum_over_permutation(a, b, |g: RunTotals| g.total_bytes as int);
    lemma_sum_over_permutation(a, b, |g: RunTotals| g.total_errors as int);
}

impl RunTotals {
    /// The totals of a group's statistics.
    pub fn of_group(stats: &WorkerStats) -> (t: RunTotals)
        ensures
            t.total_requests == stats.total_requests,
            t.total_bytes == stats.total_bytes,
            t.total_errors == stats.errors,
    {
        RunTotals {
            total_requests: stats.total_requests,
            total_bytes: stats.total_bytes,
            total_errors: stats.errors,
        }
    }

    /// The totals over all groups: requests, bytes and errors summed.
    pub fn from_groups(groups: &[RunTotals]) -> (t: RunTotals)
        requires
            groups_requests(groups@) <= u64::MAX,
            groups_bytes(groups@) <= u64::MAX,
            groups_errors(groups@) <= u64::MAX,
        ensures
            t.total_requests == groups_requests(groups@),
            t.total_bytes == groups_bytes(groups@),
            t.total_errors == groups_errors(groups@),
    {
        let ghost gs = groups@;
        let mut t = RunTotals { total_requests: 0, total_bytes: 0, total_errors: 0 };
        assert(gs.take(0) =~= Seq::<RunTotals>::empty());
        for i in 0..groups.len()
            invariant
                gs == groups@,
                groups_requests(gs) <= u64::MAX,
                groups_bytes(gs) <= u64::MAX,
                groups_errors(gs) <= u64::MAX,
                t.total_requests == groups_requests(gs.take(i as int)),
                t.total_bytes == groups_bytes(gs.take(i as int)),
                t.total_errors == groups_errors(gs.take(i as int)),
        {
            assert(gs.take(i + 1).drop_last() =~= gs.take(i as int));
            proof {
                lemma_groups_prefix(gs, i + 1);
            }
            t.total_requests = t.total_requests + groups[i].total_requests;
            t.total_bytes = t.total_bytes + groups[i].total_bytes;
            t.total_errors = t.total_errors + groups[i].total_errors;
        }
        assert(gs.take(groups.len() as int) =~= gs);
        t
    }
}

} // verus!
