//! The schedule of a run: when workers start, when a duration-mode group
//! ends, what its progress shows, and the order of the results.
use vstd::prelude::*;
use crate::config::{law_micros_are_the_whole_length, TestMode, TimeSpan};
use crate::text::chars_of;

verus! {

// ------------------------------------------------------------------
// Ramp-up
// ------------------------------------------------------------------

/// The start delay, in microseconds, of worker `id` of `total` over a ramp-up
/// of `ramp_us` microseconds: workers start evenly spread, the first at once
/// and the last when the ramp-up ends.
pub open spec fn spec_start_delay(ramp_us: u64, id: nat, total: nat) -> nat {
    if total <= 1 {
        0
    } else {
        (ramp_us * id / (total - 1) as int) as nat
    }
}

/// The start delay of worker `id` of `total` over a ramp-up of `ramp_us`
/// microseconds.
pub fn start_delay_us(ramp_us: u64, id: usize, total: usize) -> (d: u64)
    requires
        id < total,
        ramp_us * (total - 1) <= u64::MAX,
    ensures
        d == spec_start_delay(ramp_us, id as nat, total as nat),
{
    if total <= 1 {
        0
    } else {
        assert(ramp_us * id <= ramp_us * (total - 1)) by (nonlinear_arith)
            requires
                id < total,
        ;
        ramp_us * (id as u64) / ((total as u64) - 1)
    }
}

/// The start delays of the `connections` workers of a group: none without
/// ramp-up, evenly spread over the ramp-up otherwise.
pub open spec fn spec_start_delays(ramp_up: Option<TimeSpan>, connections: nat) -> Seq<u64> {
    Seq::new(
        connections,
        |i: int|
            match ramp_up {
                None => 0u64,
                Some(r) => spec_start_delay(r.micros_u64(), i as nat, connections) as u64,
            },
    )
}

/// The delays `v` of `connections` workers over ramp-up `r` start at 0 and,
/// with two workers or more, end with the whole length of the ramp-up in
/// microseconds (when that fits in 64 bits).
pub open spec fn ramp_spans_whole_length(r: TimeSpan, connections: nat, v: Seq<u64>) -> bool {
    &&& connections >= 1 ==> v[0] == 0
    &&& connections >= 2 && r.secs * 1_000_000 + r.nanos / 1000 <= u64::MAX ==> v[connections
        - 1] == r.secs * 1_000_000 + r.nanos / 1000
}

/// Over a ramp-up, the first worker starts at once and the last one when the
/// whole ramp-up, seconds and the microseconds beyond them, has passed.
pub proof fn law_ramp_up_spans_the_whole_ramp(r: TimeSpan, connections: nat)
    ensures
        ramp_spans_whole_length(r, connections, spec_start_delays(Some(r), connections)),
{
    let v = spec_start_delays(Some(r), connections);
    if connections >= 1 {
        law_ramp_up_is_linear(r.micros_u64(), 0, 0, connections);
    }
    if connections >= 2 && r.secs * 1_000_000 + r.nanos / 1000 <= u64::MAX {
        law_micros_are_the_whole_length(r);
        law_ramp_up_is_linear(
            r.micros_u64(),
            (connections - 1) as nat,
            (connections - 1) as nat,
            connections,
        );
        assert(v[connections - 1] == spec_start_delay(
            r.micros_u64(),
            (connections - 1) as nat,
            connections,
        ) as u64);
    }
}

/// The start delays of the workers of a group, in microseconds.
pub fn start_delays(ramp_up: Option<TimeSpan>, connections: usize) -> (v: Vec<u64>)
    requires
        ramp_up matches Some(r) ==> r.micros_u64() * (connections - 1) <= u64::MAX,
    ensures
        v@ == spec_start_delays(ramp_up, connections as nat),
        ramp_up matches Some(r) ==> ramp_spans_whole_length(r, connections as nat, v@),
{
    proof {
        if let Some(r) = ramp_up {
            law_ramp_up_spans_the_whole_ramp(r, connections as nat);
        }
    }
    let ramp_us: Option<u64> = match ramp_up {
        Some(r) => Some(r.as_micros_u64()),
        None => None,
    };
    let mut v: Vec<u64> = Vec::new();
    for id in 0..connections
        invariant
            v@ =~= spec_start_delays(ramp_up, connections as nat).take(id as int),
            ramp_us == match ramp_up {
                Some(r) => Some(r.micros_u64()),
                None => None::<u64>,
            },
            ramp_up matches Some(r) ==> r.micros_u64() * (connections - 1) <= u64::MAX,
    {
        let d = match ramp_us {
            Some(us) => start_delay_us(us, id, connections),
            None => 0,
        };
        v.push(d);
    }
    assert(spec_start_delays(ramp_up, connections as nat).take(connections as int)
        =~= spec_start_delays(ramp_up, connections as nat));
    v
}

/// Ramp-up spreads workers evenly: the first starts at once, the last when
/// the ramp-up ends, no worker after it, and a later worker never before an
/// earlier one.
pub proof fn law_ramp_up_is_linear(ramp_us: u64, a: nat, b: nat, total: nat)
    requires
        a <= b < total,
    ensures
        spec_start_delay(ramp_us, 0, total) == 0,
        total > 1 ==> spec_start_delay(ramp_us, (total - 1) as nat, total) == ramp_us,
        spec_start_delay(ramp_us, a, total) <= spec_start_delay(ramp_us, b, total),
        spec_start_delay(ramp_us, b, total) <= ramp_us,
{
    if total > 1 {
        let t = (total - 1) as int;
        assert(ramp_us * a <= ramp_us * b) by (nonlinear_arith)
            requires
                a <= b,
        ;
        assert(ramp_us * b <= ramp_us * t) by (nonlinear_arith)
            requires
                b <= t,
        ;
        assert((ramp_us * a) / t <= (ramp_us * b) / t) by (nonlinear_arith)
            requires
                ramp_us * a <= ramp_us * b,
                t > 0,
        ;
        assert((ramp_us * b) / t <= (ramp_us * t) / t) by (nonlinear_arith)
            requires
                ramp_us * b <= ramp_us * t,
                t > 0,
        ;
        assert((ramp_us * t) / t == ramp_us) by (nonlinear_arith)
            requires
                t > 0,
        ;
    }
}

// ------------------------------------------------------------------
// Progress and the end of a duration-mode group
// ------------------------------------------------------------------

/// The length of a group's progress bar: whole seconds in duration mode,
/// requests in count mode.
pub fn progress_length(mode: &TestMode) -> (n: u64)
    ensures
        n == match *mode {
            TestMode::Duration(d) => d.secs,
            TestMode::RequestCount(c) => c,
        },
{
    match mode {
        TestMode::Duration(d) => d.secs,
        TestMode::RequestCount(c) => *c,
    }
}

/// Whether a group needs the shared request counter: in count mode only.
pub fn uses_request_counter(mode: &TestMode) -> (b: bool)
    ensures
        b == (*mode is RequestCount),
{
    match mode {
        TestMode::Duration(_) => false,
        TestMode::RequestCount(_) => true,
    }
}

/// What the once-a-second timer of a duration-mode group does after
/// `elapsed` of a test lasting `duration`: the progress position it shows
/// (whole seconds, never past the end) and whether the group is over.
pub fn duration_tick(elapsed: &TimeSpan, duration: &TimeSpan) -> (r: (u64, bool))
    ensures
        r.0 == if elapsed.secs < duration.secs {
            elapsed.secs
        } else {
            duration.secs
        },
        r.1 == elapsed.at_least(*duration),
{
    let pos = if elapsed.secs < duration.secs {
        elapsed.secs
    } else {
        duration.secs
    };
    (pos, elapsed.is_at_least(duration))
}

// ------------------------------------------------------------------
// Ordering results by group name
// ------------------------------------------------------------------

/// `a` comes before `b` or equals it in the order of `str`: character by
/// character by code point, a prefix first.
pub open spec fn name_le(a: Seq<char>, b: Seq<char>) -> bool
    decreases a.len(),
{
    if a.len() == 0 {
        true
    } else if b.len() == 0 {
        false
    } else if (a[0] as u32) < (b[0] as u32) {
        true
    } else if (a[0] as u32) > (b[0] as u32) {
        false
    } else {
        name_le(a.drop_first(), b.drop_first())
    }
}

/// The order is total.
proof fn lemma_name_le_total(a: Seq<char>, b: Seq<char>)
    ensures
        name_le(a, b) || name_le(b, a),
    decreases a.len(),
{
    if a.len() > 0 && b.len() > 0 && a[0] as u32 == b[0] as u32 {
        lemma_name_le_total(a.drop_first(), b.drop_first());
    }
}

/// The order is transitive.
proof fn lemma_name_le_trans(a: Seq<char>, b: Seq<char>, c: Seq<char>)
    requires
        name_le(a, b),
        name_le(b, c),
    ensures
        name_le(a, c),
    decreases a.len(),
{
    if a.len() > 0 && b.len() > 0 && c.len() > 0 && a[0] as u32 == b[0] as u32 && b[0] as u32
        == c[0] as u32 {
        lemma_name_le_trans(a.drop_first(), b.drop_first(), c.drop_first());
    }
}

/// Whether `a` comes before or equals `b`.
fn chars_le(a: &Vec<char>, b: &Vec<char>) -> (r: bool)
    ensures
        r == name_le(a@, b@),
{
    let mut i: usize = 0;
    assert(a@.skip(0) =~= a@);
    assert(b@.skip(0) =~= b@);
    while i < a.len() && i < b.len() && (a[i] as u32) == (b[i] as u32)
        invariant
            i <= a.len(),
            i <= b.len(),
            name_le(a@, b@) == name_le(a@.skip(i as int), b@.skip(i as int)),
        decreases a.len() - i,
    {
        assert(a@.skip(i as int).drop_first() =~= a@.skip(i + 1));
        assert(b@.skip(i as int).drop_first() =~= b@.skip(i + 1));
        i += 1;
    }
    if i == a.len() {
        true
    } else if i == b.len() {
        false
    } else {
        (a[i] as u32) < (b[i] as u32)
    }
}

/// `order` lists the positions `0..n` once each.
pub open spec fn is_permutation(order: Seq<usize>, n: nat) -> bool {
    &&& order.len() == n
    &&& forall|i: int| 0 <= i < order.len() ==> order[i] < n
    &&& forall|i: int, j: int| 0 <= i < j < order.len() ==> order[i] != order[j]
}

/// `order` visits `names` by name, and equal names in their first order.
pub open spec fn sorted_stably(names: Seq<Seq<char>>, order: Seq<usize>) -> bool {
    &&& forall|i: int, j: int|
        0 <= i < j < order.len() ==> name_le(names[order[i] as int], names[order[j] as int])
    &&& forall|i: int, j: int|
        0 <= i < j < order.len() && name_le(names[order[j] as int], names[order[i] as int])
            ==> order[i] < order[j]
}

/// The order in which to list results so that their group names ascend as
/// `str` orders them, results with equal names keeping their order.
pub fn order_by_name(names: &Vec<String>) -> (order: Vec<usize>)
    ensures
        is_permutation(order@, names.len() as nat),
        sorted_stably(names@.map_values(|s: String| s@), order@),
{
    let ghost ns = names@.map_values(|s: String| s@);
    let mut keys: Vec<Vec<char>> = Vec::new();
    for i in 0..names.len()
        invariant
            ns == names@.map_values(|s: String| s@),
            keys.len() == i,
            forall|j: int| 0 <= j < i ==> (#[trigger] keys@[j])@ == ns[j],
    {
        keys.push(chars_of(names[i].as_str()));
    }
    let mut order: Vec<usize> = Vec::new();
    for i in 0..names.len()
        invariant
            ns == names@.map_values(|s: String| s@),
            keys.len() == names.len(),
            forall|j: int| 0 <= j < names.len() ==> (#[trigger] keys@[j])@ == ns[j],
            is_permutation(order@, i as nat),
            sorted_stably(ns, order@),
    {
        // Find the place of `i`: after every name not above it.
        let mut pos = order.len();
        while pos > 0 && !chars_le(&keys[order[pos - 1]], &keys[i])
            invariant
                0 <= pos <= order.len(),
                order.len() == i,
                is_permutation(order@, i as nat),
                keys.len() == names.len(),
                i < names.len(),
                forall|j: int| 0 <= j < names.len() ==> (#[trigger] keys@[j])@ == ns[j],
                forall|k: int| pos <= k < order.len() ==> !name_le(ns[order@[k] as int], ns[i as int]),
            decreases pos,
        {
            pos -= 1;
        }
        proof {
            if pos > 0 {
                assert(name_le(ns[order@[pos - 1] as int], ns[i as int]));
            }
        }
        let ghost old_order = order@;
        order.insert(pos, i);
        proof {
            assert(order@ =~= old_order.insert(pos as int, i));
            assert forall|a: int, b: int|
                0 <= a < b < order@.len() implies name_le(
                ns[order@[a] as int],
                ns[order@[b] as int],
            ) by {
                if a < pos && b == pos {
                    if a < pos - 1 {
                        lemma_name_le_trans(
                            ns[old_order[a] as int],
                            ns[old_order[pos - 1] as int],
                            ns[i as int],
                        );
                    }
                } else if a == pos && b > pos {
                    lemma_name_le_total(ns[i as int], ns[old_order[b - 1] as int]);
                }
            }
            assert forall|a: int, b: int|
                0 <= a < b < order@.len() && name_le(ns[order@[b] as int], ns[order@[a] as int])
                    implies order@[a] < order@[b] by {
                if a == pos && b > pos {
                    assert(!name_le(ns[old_order[b - 1] as int], ns[i as int]));
                }
            }
        }
    }
    order
}

} // verus!
