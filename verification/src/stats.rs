//! Per-worker request statistics and their merging.
use vstd::prelude::*;
use vstd::multiset::Multiset;
use hdrhistogram::Histogram;
use std::collections::HashMap;
use vstd::std_specs::iter::IteratorSpec;

verus! {

broadcast use vstd::std_specs::hash::group_hash_axioms;

/// A latency histogram of `hdrhistogram`, holding `u64` values. Verus cannot
/// read the histogram type itself, so it is held here, out of its sight, in a
/// private field; its buckets are read through `WorkerStats::latency_buckets`.
#[verifier::external_body]
pub struct LatencyHistogram {
    inner: Histogram<u64>,
}

/// The values recorded into a latency histogram so far (the histogram keeps
/// them only to its precision; every query of it is made on the histogram
/// itself).
pub uninterp spec fn histogram_values(h: LatencyHistogram) -> Multiset<u64>;

/// The settings a histogram was made with: lowest discernible value,
/// highest trackable value, significant figures, and whether it grows to
/// take larger values.
pub uninterp spec fn histogram_settings(h: LatencyHistogram) -> (u64, u64, u8, bool);

/// The largest value a histogram takes without growing: the highest value of
/// its last bucket, which its buckets were laid out to reach from the
/// highest trackable value it was made with (the source calls it `top`).
pub uninterp spec fn histogram_top(h: LatencyHistogram) -> u64;

/// Calls `hdrhistogram::Histogram::new_with_bounds`. The contract claims what
/// its source shows: with a lowest value of 1, a highest value of at least 2
/// and at most 5 significant figures the histogram is made; a new histogram
/// is empty, keeps the given settings, does not grow, and takes every value
/// up to the highest one it was given.
#[verifier::external_body]
fn histogram_with_bounds(low: u64, high: u64, sigfig: u8) -> (r: Option<LatencyHistogram>)
    ensures
        low == 1 && high >= 2 && sigfig <= 5 ==> r is Some,
        r matches Some(h) ==> {
            &&& histogram_values(h) =~= Multiset::empty()
            &&& histogram_settings(h) == (low, high, sigfig, false)
            &&& histogram_top(h) >= high
        },
{
    match Histogram::new_with_bounds(low, high, sigfig) {
        Ok(inner) => Some(LatencyHistogram { inner }),
        Err(_) => None,
    }
}

/// Calls `hdrhistogram::Histogram::record`. The contract claims what its
/// source shows: a value up to the histogram's top is recorded; a larger one
/// is refused by a histogram that does not grow; a recorded value joins the
/// contents (no bucket count saturates while fewer than `u64::MAX` values are
/// held); a refused value leaves the contents as they were; a histogram that
/// does not grow keeps its settings and its top.
#[verifier::external_body]
fn histogram_record(h: &mut LatencyHistogram, value: u64) -> (ok: bool)
    requires
        histogram_values(*old(h)).len() < u64::MAX,
    ensures
        value <= histogram_top(*old(h)) ==> ok,
        !histogram_settings(*old(h)).3 && value > histogram_top(*old(h)) ==> !ok,
        ok ==> histogram_values(*final(h)) == histogram_values(*old(h)).insert(value),
        !ok ==> histogram_values(*final(h)) == histogram_values(*old(h)),
        !histogram_settings(*old(h)).3 ==> histogram_settings(*final(h)) == histogram_settings(
            *old(h),
        ) && histogram_top(*final(h)) == histogram_top(*old(h)),
{
    h.inner.record(value).is_ok()
}

/// Calls `hdrhistogram::Histogram::add` on two histograms with the same
/// settings. The contract claims what its source shows when they do not
/// grow: the addition succeeds (every value of `other` lies within the same
/// top), the settings and the top stay, and (no count saturating) the
/// contents become the sum of both.
#[verifier::external_body]
fn histogram_add(h: &mut LatencyHistogram, other: &LatencyHistogram) -> (ok: bool)
    requires
        histogram_settings(*old(h)) == histogram_settings(*other),
    ensures
        !histogram_settings(*other).3 ==> {
            &&& ok
            &&& histogram_settings(*final(h)) == histogram_settings(*old(h))
            &&& histogram_top(*final(h)) == histogram_top(*old(h))
            &&& histogram_values(*old(h)).len() + histogram_values(*other).len() <= u64::MAX
                ==> histogram_values(*final(h)) == histogram_values(*old(h)).add(
                histogram_values(*other),
            )
        },
{
    h.inner.add(&other.inner).is_ok()
}

/// What `hdrhistogram::Histogram::highest_equivalent` gives for `value` in a
/// histogram with lowest discernible value `low` and `sigfig` significant
/// figures: the highest value counted in the same bucket as `value`.
pub uninterp spec fn highest_equivalent(low: u64, sigfig: u8, value: u64) -> u64;

/// The bucket of `value` in histogram `h`, named by its highest value.
pub open spec fn bucket_of(h: LatencyHistogram, value: u64) -> u64 {
    highest_equivalent(histogram_settings(h).0, histogram_settings(h).2, value)
}

/// The number of values of `h` that fall in the bucket named `top`.
pub open spec fn bucket_count(h: LatencyHistogram, top: u64) -> nat {
    histogram_values(h).filter(|x: u64| bucket_of(h, x) == top).len()
}

/// The sum of the counts of a list of `(value, count)` buckets.
pub open spec fn bucket_total(b: Seq<(u64, u64)>) -> int
    decreases b.len(),
{
    if b.len() == 0 {
        0
    } else {
        bucket_total(b.drop_last()) + b.last().1
    }
}

/// `b` lists the buckets of `h` that hold values, as pairs of the bucket's
/// highest value and its count: in increasing order, each within the top,
/// each counting the values of `h` that fall in it, every value of `h` in one
/// of them, and the counts adding up to the number of values.
pub open spec fn lists_buckets(h: LatencyHistogram, b: Seq<(u64, u64)>) -> bool {
    &&& forall|i: int, j: int| 0 <= i < j < b.len() ==> b[i].0 < b[j].0
    &&& forall|i: int|
        0 <= i < b.len() ==> {
            &&& (#[trigger] b[i]).1 > 0
            &&& b[i].0 <= histogram_top(h)
            &&& b[i].1 == bucket_count(h, b[i].0)
        }
    &&& forall|x: u64|
        histogram_values(h).count(x) > 0 ==> exists|i: int|
            0 <= i < b.len() && #[trigger] b[i].0 == bucket_of(h, x)
    &&& bucket_total(b) == histogram_values(h).len()
}

/// Calls `hdrhistogram::Histogram::iter_recorded` and takes from each bucket
/// it yields its highest value (`value_iterated_to`, the `highest_equivalent`
/// of the bucket's lowest value) and its count. The contract claims what the
/// source shows: the buckets with a count are yielded in order of their
/// index, so of their values; a value joined the bucket its
/// `highest_equivalent` names (both `record` and an addition of a histogram
/// with the same settings count it there); and, no count saturating, each
/// count is the number of values of its bucket.
#[verifier::external_body]
fn histogram_buckets(h: &LatencyHistogram) -> (r: Vec<(u64, u64)>)
    requires
        histogram_values(*h).len() <= u64::MAX,
    ensures
        forall|i: int, j: int| 0 <= i < j < r.len() ==> r@[i].0 < r@[j].0,
        forall|i: int|
            0 <= i < r.len() ==> {
                &&& (#[trigger] r@[i]).1 > 0
                &&& r@[i].0 <= histogram_top(*h)
                &&& r@[i].1 == histogram_values(*h).filter(
                    |x: u64|
                        highest_equivalent(histogram_settings(*h).0, histogram_settings(*h).2, x)
                            == r@[i].0,
                ).len()
            },
        forall|x: u64|
            histogram_values(*h).count(x) > 0 ==> exists|i: int|
                0 <= i < r.len() && #[trigger] r@[i].0 == highest_equivalent(
                    histogram_settings(*h).0,
                    histogram_settings(*h).2,
                    x,
                ),
        bucket_total(r@) == histogram_values(*h).len(),
{
    h.inner.iter_recorded().map(|v| (v.value_iterated_to(), v.count_at_value())).collect()
}

/// What recording `latency_us` does to a latency histogram going from `old`
/// to `new`: a latency up to the top joins the contents, a larger one leaves
/// them as they were; the top stays.
pub open spec fn records_latency(old: LatencyHistogram, new: LatencyHistogram, latency_us: u64) -> bool {
    &&& histogram_top(new) == histogram_top(old)
    &&& if latency_us <= histogram_top(old) {
        histogram_values(new) == histogram_values(old).insert(latency_us)
    } else {
        histogram_values(new) == histogram_values(old)
    }
}

/// The highest trackable latency, in microseconds, that worker histograms
/// are made with (they take values up to the top of their last bucket, which
/// lies somewhat beyond it).
pub const LATENCY_HIGH_US: u64 = 60_000_000;

/// The settings of every latency histogram: 1us to 60s with three
/// significant figures.
pub open spec fn latency_settings() -> (u64, u64, u8, bool) {
    (1, LATENCY_HIGH_US, 3, false)
}

/// A new, empty latency histogram.
pub fn new_latency_histogram() -> (h: LatencyHistogram)
    ensures
        histogram_values(h) =~= Multiset::empty(),
        histogram_settings(h) == latency_settings(),
        histogram_top(h) >= LATENCY_HIGH_US,
{
    match histogram_with_bounds(1, LATENCY_HIGH_US, 3) {
        Some(h) => h,
        None => vstd::pervasive::unreached(),
    }
}

/// The count stored for `code`, zero when absent.
pub open spec fn count_of(m: Map<u16, u64>, code: int) -> int {
    if 0 <= code < 0x10000 && m.contains_key(code as u16) {
        m[code as u16] as int
    } else {
        0
    }
}

/// The sum of the counts of the codes below `k`.
pub open spec fn counts_below(m: Map<u16, u64>, k: int) -> int
    decreases k,
{
    if k <= 0 {
        0
    } else {
        counts_below(m, k - 1) + count_of(m, k - 1)
    }
}

/// The sum of all counts of a status-code map.
pub open spec fn status_total(m: Map<u16, u64>) -> int {
    counts_below(m, 0x10000)
}

/// Sums below `k` are sums of non-negative counts.
proof fn lemma_counts_below_nonneg(m: Map<u16, u64>, k: int)
    ensures
        counts_below(m, k) >= 0,
    decreases k,
{
    if k > 0 {
        lemma_counts_below_nonneg(m, k - 1);
    }
}

/// Changing the count of `code` changes every sum above it by the difference.
proof fn lemma_counts_below_insert(m: Map<u16, u64>, code: u16, v: u64, k: int)
    ensures
        counts_below(m.insert(code, v), k) == counts_below(m, k) + (if code < k {
            v - count_of(m, code as int)
        } else {
            0
        }),
    decreases k,
{
    if k > 0 {
        lemma_counts_below_insert(m, code, v, k - 1);
    }
}

/// One count is at most the sum of the counts above it.
proof fn lemma_count_le_below(m: Map<u16, u64>, code: int, k: int)
    requires
        0 <= code < k,
    ensures
        count_of(m, code) <= counts_below(m, k),
    decreases k,
{
    lemma_counts_below_nonneg(m, k - 1);
    if code < k - 1 {
        lemma_count_le_below(m, code, k - 1);
    }
}

/// The statistics one worker gathers.
pub struct WorkerStats {
    pub histogram: LatencyHistogram,
    pub status_codes: HashMap<u16, u64>,
    pub errors: u64,
    pub total_requests: u64,
    pub total_bytes: u64,
}

impl WorkerStats {
    /// Every request is counted once: as an error or under its status code;
    /// the histogram holds at most one latency per request and takes every
    /// latency up to 60 s.
    pub open spec fn wf(&self) -> bool {
        &&& histogram_settings(self.histogram) == latency_settings()
        &&& histogram_top(self.histogram) >= LATENCY_HIGH_US
        &&& histogram_values(self.histogram).len() <= self.total_requests
        &&& self.total_requests == self.errors + status_total(self.status_codes@)
    }

    /// Empty statistics.
    pub fn new() -> (s: Self)
        ensures
            s.wf(),
            histogram_values(s.histogram) =~= Multiset::empty(),
            s.status_codes@ == Map::<u16, u64>::empty(),
            s.errors == 0,
            s.total_requests == 0,
            s.total_bytes == 0,
    {
        let s = WorkerStats {
            histogram: new_latency_histogram(),
            status_codes: HashMap::new(),
            errors: 0,
            total_requests: 0,
            total_bytes: 0,
        };
        proof {
            lemma_counts_below_empty(0x10000);
        }
        s
    }

    /// Records a request that got a response with `status` and `bytes` of
    /// body after `latency_us` microseconds.
    pub fn record_success(&mut self, latency_us: u64, status: u16, bytes: u64)
        requires
            old(self).wf(),
            old(self).total_requests < u64::MAX,
            old(self).total_bytes + bytes <= u64::MAX,
        ensures
            final(self).wf(),
            final(self).total_requests == old(self).total_requests + 1,
            final(self).total_bytes == old(self).total_bytes + bytes,
            final(self).errors == old(self).errors,
            final(self).status_codes@ == old(self).status_codes@.insert(
                status,
                (count_of(old(self).status_codes@, status as int) + 1) as u64,
            ),
            records_latency(old(self).histogram, final(self).histogram, latency_us),
    {
        let _ = histogram_record(&mut self.histogram, latency_us);
        let current: u64 = match self.status_codes.get(&status) {
            Some(c) => *c,
            None => 0,
        };
        proof {
            lemma_count_le_below(self.status_codes@, status as int, 0x10000);
            lemma_counts_below_insert(
                self.status_codes@,
                status,
                (current + 1) as u64,
                0x10000,
            );
        }
        self.status_codes.insert(status, current + 1);
        self.total_requests = self.total_requests + 1;
        self.total_bytes = self.total_bytes + bytes;
    }

    /// Records a request that failed after `latency_us` microseconds.
    pub fn record_error(&mut self, latency_us: u64)
        requires
            old(self).wf(),
            old(self).total_requests < u64::MAX,
        ensures
            final(self).wf(),
            final(self).total_requests == old(self).total_requests + 1,
            final(self).total_bytes == old(self).total_bytes,
            final(self).errors == old(self).errors + 1,
            final(self).status_codes@ == old(self).status_codes@,
            records_latency(old(self).histogram, final(self).histogram, latency_us),
    {
        let _ = histogram_record(&mut self.histogram, latency_us);
        proof {
            lemma_counts_below_nonneg(self.status_codes@, 0x10000);
        }
        self.errors = self.errors + 1;
        self.total_requests = self.total_requests + 1;
    }
}

/// The entries of a status-code map, each code once, in the map's order.
pub fn map_entries(m: &HashMap<u16, u64>) -> (v: Vec<(u16, u64)>)
    ensures
        forall|i: int| 0 <= i < v.len() ==> #[trigger] m@.contains_key(v@[i].0) && m@[v@[i].0] == v@[i].1,
        forall|k: u16| #[trigger] m@.contains_key(k) ==> exists|i: int| 0 <= i < v.len() && v@[i].0 == k,
        forall|i: int, j: int| 0 <= i < j < v.len() ==> v@[i].0 != v@[j].0,
{
    let mut v: Vec<(u16, u64)> = Vec::new();
    let ghost whole = vstd::std_specs::hash::spec_hash_map_iter(m).remaining();
    for (k, c) in it: m.iter()
        invariant
            v@ == it.seq().take(it.index() as int).map_values(|p: (&u16, &u64)| (*p.0, *p.1)),
            it.seq() == whole,
            whole.no_duplicates(),
    {
        v.push((*k, *c));
        assert(it.seq().take(it.index() + 1) =~= it.seq().take(it.index() as int).push((k, c)));
        assert(v@ =~= it.seq().take(it.index() + 1).map_values(|p: (&u16, &u64)| (*p.0, *p.1)));
    }
    assert(v@ =~= whole.map_values(|p: (&u16, &u64)| (*p.0, *p.1)));
    assert forall|k: u16| #[trigger] m@.contains_key(k) implies exists|i: int|
        0 <= i < v.len() && v@[i].0 == k by {
        assert(whole.contains((&k, &m@[k])));
        let i = choose|i: int| 0 <= i < whole.len() && whole[i] == (&k, &m@[k]);
        assert(v@[i].0 == k);
    }
    assert forall|i: int, j: int| 0 <= i < j < v.len() implies v@[i].0 != v@[j].0 by {
        if v@[i].0 == v@[j].0 {
            assert(m@.contains_key(*whole[i].0));
            assert(m@.contains_key(*whole[j].0));
            assert(whole[i] == whole[j]);
        }
    }
    v
}

/// Two status-code maps added code by code.
pub open spec fn add_counts(a: Map<u16, u64>, b: Map<u16, u64>) -> Map<u16, u64> {
    Map::new(
        |k: u16| a.contains_key(k) || b.contains_key(k),
        |k: u16| (count_of(a, k as int) + count_of(b, k as int)) as u64,
    )
}

/// The sum of two maps sums to the sum of their sums, when no code's count
/// exceeds `u64::MAX`.
proof fn lemma_counts_below_add(a: Map<u16, u64>, b: Map<u16, u64>, k: int)
    requires
        forall|c: int| 0 <= c < 0x10000 ==> count_of(a, c) + count_of(b, c) <= u64::MAX,
    ensures
        counts_below(add_counts(a, b), k) == counts_below(a, k) + counts_below(b, k),
    decreases k,
{
    if k > 0 {
        lemma_counts_below_add(a, b, k - 1);
        let c = k - 1;
        if 0 <= c < 0x10000 {
            assert(count_of(add_counts(a, b), c) == count_of(a, c) + count_of(b, c));
        }
    }
}

/// Adds the counts of `other` to those of `acc`, code by code.
pub fn merge_counts_into(acc: &mut HashMap<u16, u64>, other: &HashMap<u16, u64>)
    requires
        status_total(old(acc)@) + status_total(other@) <= u64::MAX,
    ensures
        final(acc)@ == add_counts(old(acc)@, other@),
        status_total(final(acc)@) == status_total(old(acc)@) + status_total(other@),
{
    let ghost a0 = acc@;
    let entries = map_entries(other);
    assert forall|c: int| 0 <= c < 0x10000 implies count_of(a0, c) + count_of(other@, c)
        <= u64::MAX by {
        lemma_count_le_below(a0, c, 0x10000);
        lemma_count_le_below(other@, c, 0x10000);
    }
    for i in 0..entries.len()
        invariant
            a0 == old(acc)@,
            status_total(a0) + status_total(other@) <= u64::MAX,
            forall|c: int| 0 <= c < 0x10000 ==> count_of(a0, c) + count_of(other@, c) <= u64::MAX,
            forall|j: int| 0 <= j < entries.len() ==> #[trigger] other@.contains_key(entries@[j].0)
                && other@[entries@[j].0] == entries@[j].1,
            forall|j: int, l: int| 0 <= j < l < entries.len() ==> entries@[j].0 != entries@[l].0,
            forall|k: u16| #[trigger] acc@.contains_key(k) <==> (a0.contains_key(k) || exists|
                j: int,
            | 0 <= j < i && entries@[j].0 == k),
            forall|k: u16| #[trigger]
                count_of(acc@, k as int) == count_of(a0, k as int) + (if exists|j: int|
                    0 <= j < i && entries@[j].0 == k {
                    count_of(other@, k as int)
                } else {
                    0
                }),
    {
        let (code, count) = entries[i];
        assert(other@.contains_key(entries@[i as int].0));
        assert(!exists|j: int| 0 <= j < i && entries@[j].0 == code) by {
            if exists|j: int| 0 <= j < i && entries@[j].0 == code {
                let j = choose|j: int| 0 <= j < i && entries@[j].0 == code;
                assert(entries@[j].0 != entries@[i as int].0);
            }
        }
        let current: u64 = match acc.get(&code) {
            Some(c) => *c,
            None => 0,
        };
        assert(count_of(acc@, code as int) == current);
        assert(count_of(other@, code as int) == count);
        let ghost before = acc@;
        acc.insert(code, current + count);
        assert forall|k: u16| #[trigger] acc@.contains_key(k) <==> (a0.contains_key(k) || exists|
            j: int,
        | 0 <= j < i + 1 && entries@[j].0 == k) by {
            if k == code {
                assert(entries@[i as int].0 == k);
            } else if exists|j: int| 0 <= j < i + 1 && entries@[j].0 == k {
                let j = choose|j: int| 0 <= j < i + 1 && entries@[j].0 == k;
                assert(j < i);
            }
        }
        assert forall|k: u16| #[trigger]
            count_of(acc@, k as int) == count_of(a0, k as int) + (if exists|j: int|
                0 <= j < i + 1 && entries@[j].0 == k {
                count_of(other@, k as int)
            } else {
                0
            }) by {
            if k == code {
                assert(entries@[i as int].0 == k);
            } else {
                if exists|j: int| 0 <= j < i + 1 && entries@[j].0 == k {
                    let j = choose|j: int| 0 <= j < i + 1 && entries@[j].0 == k;
                    assert(j < i);
                }
                assert(count_of(acc@, k as int) == count_of(before, k as int));
            }
        }
    }
    let ghost n = entries.len() as int;
    assert forall|k: u16| #[trigger] other@.contains_key(k) implies exists|j: int|
        0 <= j < n && entries@[j].0 == k by {
    }
    assert(acc@ =~= add_counts(a0, other@)) by {
        assert forall|k: u16| acc@.contains_key(k) implies acc@[k] == add_counts(a0, other@)[k] by {
            assert(count_of(acc@, k as int) == acc@[k]);
            if !other@.contains_key(k) {
                assert(count_of(other@, k as int) == 0);
            }
        }
    }
    proof {
        lemma_counts_below_add(a0, other@, 0x10000);
    }
}

/// The requests counted by the workers `ws`.
pub open spec fn sum_requests(ws: Seq<WorkerStats>) -> int
    decreases ws.len(),
{
    if ws.len() == 0 {
        0
    } else {
        sum_requests(ws.drop_last()) + ws.last().total_requests
    }
}

/// The body bytes counted by the workers `ws`.
pub open spec fn sum_bytes(ws: Seq<WorkerStats>) -> int
    decreases ws.len(),
{
    if ws.len() == 0 {
        0
    } else {
        sum_bytes(ws.drop_last()) + ws.last().total_bytes
    }
}

/// The errors counted by the workers `ws`.
pub open spec fn sum_errors(ws: Seq<WorkerStats>) -> int
    decreases ws.len(),
{
    if ws.len() == 0 {
        0
    } else {
        sum_errors(ws.drop_last()) + ws.last().errors
    }
}

/// The status-code counts of the workers `ws`, added code by code.
pub open spec fn sum_counts(ws: Seq<WorkerStats>) -> Map<u16, u64>
    decreases ws.len(),
{
    if ws.len() == 0 {
        Map::empty()
    } else {
        add_counts(sum_counts(ws.drop_last()), ws.last().status_codes@)
    }
}

/// The latencies recorded by the workers `ws`, together.
pub open spec fn sum_values(ws: Seq<WorkerStats>) -> Multiset<u64>
    decreases ws.len(),
{
    if ws.len() == 0 {
        Multiset::empty()
    } else {
        sum_values(ws.drop_last()).add(histogram_values(ws.last().histogram))
    }
}

/// Sums over a prefix stay below sums over the whole.
proof fn lemma_sums_prefix(ws: Seq<WorkerStats>, i: int)
    requires
        0 <= i <= ws.len(),
    ensures
        sum_requests(ws.take(i)) <= sum_requests(ws),
        sum_bytes(ws.take(i)) <= sum_bytes(ws),
    decreases ws.len() - i,
{
    if i < ws.len() {
        lemma_sums_prefix(ws, i + 1);
        assert(ws.take(i + 1).drop_last() =~= ws.take(i));
    } else {
        assert(ws.take(i) =~= ws);
    }
}

impl WorkerStats {
    /// The statistics of all `workers` together: counts and bytes summed,
    /// status codes added code by code, latencies pooled.
    pub fn merge_all(workers: Vec<WorkerStats>) -> (m: WorkerStats)
        requires
            forall|i: int| 0 <= i < workers.len() ==> (#[trigger] workers@[i]).wf(),
            sum_requests(workers@) <= u64::MAX,
            sum_bytes(workers@) <= u64::MAX,
        ensures
            m.wf(),
            m.total_requests == sum_requests(workers@),
            m.total_bytes == sum_bytes(workers@),
            m.errors == sum_errors(workers@),
            m.status_codes@ == sum_counts(workers@),
            histogram_values(m.histogram) == sum_values(workers@),
    {
        let ghost ws = workers@;
        let mut m = WorkerStats::new();
        assert(ws.take(0) =~= Seq::<WorkerStats>::empty());
        for i in 0..workers.len()
            invariant
                ws == workers@,
                forall|j: int| 0 <= j < workers.len() ==> (#[trigger] workers@[j]).wf(),
                sum_requests(ws) <= u64::MAX,
                sum_bytes(ws) <= u64::MAX,
                m.wf(),
                m.total_requests == sum_requests(ws.take(i as int)),
                m.total_bytes == sum_bytes(ws.take(i as int)),
                m.errors == sum_errors(ws.take(i as int)),
                m.status_codes@ == sum_counts(ws.take(i as int)),
                histogram_values(m.histogram) == sum_values(ws.take(i as int)),
        {
            let w = &workers[i];
            let ghost prefix = ws.take(i + 1);
            assert(prefix.drop_last() =~= ws.take(i as int));
            assert(prefix.last() == *w);
            proof {
                lemma_sums_prefix(ws, i + 1);
                lemma_counts_below_nonneg(m.status_codes@, 0x10000);
            }
            let _ = histogram_add(&mut m.histogram, &w.histogram);
            merge_counts_into(&mut m.status_codes, &w.status_codes);
            proof {
                lemma_counts_below_nonneg(w.status_codes@, 0x10000);
            }
            m.errors = m.errors + w.errors;
            m.total_requests = m.total_requests + w.total_requests;
            m.total_bytes = m.total_bytes + w.total_bytes;
        }
        assert(ws.take(workers.len() as int) =~= ws);
        m
    }

    /// The buckets of the latency histogram that hold latencies, as pairs of
    /// the bucket's highest value and the number of latencies in it, in
    /// increasing order (see `lists_buckets`).
    pub fn latency_buckets(&self) -> (b: Vec<(u64, u64)>)
        requires
            self.wf(),
        ensures
            lists_buckets(self.histogram, b@),
    {
        let b = histogram_buckets(&self.histogram);
        let ghost h = self.histogram;
        assert forall|i: int| 0 <= i < b.len() implies b@[i].1 == bucket_count(h, b@[i].0) by {
            let top = b@[i].0;
            let named = |x: u64| bucket_of(h, x) == top;
            let direct = |x: u64|
                highest_equivalent(histogram_settings(h).0, histogram_settings(h).2, x) == top;
            assert(named =~= direct);
        }
        b
    }
}

impl WorkerStats {
    /// The largest latency held, to the histogram's precision: the highest
    /// value of the bucket of the largest latency; 0 when none is held.
    pub fn latency_max(&self) -> (m: u64)
        requires
            self.wf(),
        ensures
            histogram_values(self.histogram).len() == 0 ==> m == 0,
            histogram_values(self.histogram).len() > 0 ==> {
                &&& exists|x: u64|
                    histogram_values(self.histogram).count(x) > 0 && m == bucket_of(
                        self.histogram,
                        x,
                    )
                &&& forall|y: u64|
                    histogram_values(self.histogram).count(y) > 0 ==> bucket_of(self.histogram, y)
                        <= m
            },
    {
        broadcast use vstd::multiset::group_multiset_axioms;
        broadcast use vstd::multiset::lemma_multiset_empty_len;

        let b = self.latency_buckets();
        let ghost h = self.histogram;
        let ghost vals = histogram_values(h);
        if b.len() == 0 {
            assert forall|x: u64| vals.count(x) == 0 by {
                if vals.count(x) > 0 {
                    let i = choose|i: int| 0 <= i < b.len() && #[trigger] b@[i].0 == bucket_of(h, x);
                }
            }
            assert(vals =~= Multiset::empty());
            0
        } else {
            let last = b.len() - 1;
            let m = b[last].0;
            let ghost top = m;
            let ghost inside = vals.filter(|x: u64| bucket_of(h, x) == top);
            assert(inside.len() > 0) by {
                assert(b@[last as int].1 > 0);
            }
            let ghost v = choose|v: u64| 0 < inside.count(v);
            assert(vals.count(v) > 0 && bucket_of(h, v) == m);
            assert forall|y: u64| vals.count(y) > 0 implies bucket_of(h, y) <= m by {
                let i = choose|i: int| 0 <= i < b.len() && #[trigger] b@[i].0 == bucket_of(h, y);
                if i < last {
                    assert(b@[i].0 < b@[last as int].0);
                }
            }
            m
        }
    }
}

/// An empty map sums to zero.
proof fn lemma_counts_below_empty(k: int)
    ensures
        counts_below(Map::<u16, u64>::empty(), k) == 0,
    decreases k,
{
    if k > 0 {
        lemma_counts_below_empty(k - 1);
    }
}

} // verus!
