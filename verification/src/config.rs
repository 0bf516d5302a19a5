//! Test configuration: the command line, the YAML file, and the groups of
//! endpoints that a run exercises.
use vstd::prelude::*;
use crate::cli::CliArgs;
use crate::error::{DhanushError, ErrorView};
use crate::http_client::{endpoint_weights, weight_sum};
use crate::text::{
    chars_of, clone_opt_string, clone_pairs, concat3, lowercase, to_lowercase, to_uppercase, trim,
    trimmed_range, uppercase,
};

verus! {

/// A span of time: whole seconds and the nanoseconds beyond them.
#[derive(Debug, Clone, Copy, PartialEq, Eq, Structural)]
pub struct TimeSpan {
    pub secs: u64,
    pub nanos: u32,
}

impl TimeSpan {
    /// The nanosecond part stays below one second.
    pub open spec fn wf(self) -> bool {
        self.nanos < 1_000_000_000
    }

    /// The span in whole microseconds, truncated to 64 bits as
    /// `Duration::as_micros() as u64` does.
    pub open spec fn micros_u64(self) -> u64 {
        (self.secs as int * 1_000_000 + self.nanos as int / 1000) as u64
    }

    /// The whole length of the span in nanoseconds.
    pub open spec fn total_nanos(self) -> int {
        self.secs * 1_000_000_000 + self.nanos
    }

    /// Whether `self` is at least as long as `other`.
    pub open spec fn at_least(self, other: TimeSpan) -> bool {
        self.secs > other.secs || (self.secs == other.secs && self.nanos >= other.nanos)
    }

    /// The span in whole microseconds, truncated to 64 bits.
    pub fn as_micros_u64(&self) -> (m: u64)
        ensures
            m == self.micros_u64(),
            self.secs * 1_000_000 + self.nanos / 1000 <= u64::MAX ==> m == self.secs * 1_000_000
                + self.nanos / 1000,
    {
        let total: u128 = (self.secs as u128) * 1_000_000u128 + (self.nanos as u128) / 1000u128;
        total as u64
    }

    /// Whether `self` is at least as long as `other`.
    pub fn is_at_least(&self, other: &TimeSpan) -> (b: bool)
        ensures
            b == self.at_least(*other),
            self.wf() && other.wf() ==> (b <==> self.total_nanos() >= other.total_nanos()),
    {
        proof {
            if self.wf() && other.wf() {
                law_at_least_compares_lengths(*self, *other);
            }
        }
        self.secs > other.secs || (self.secs == other.secs && self.nanos >= other.nanos)
    }
}

/// Comparing two spans compares their whole lengths: a span is at least
/// another exactly when it holds at least as many nanoseconds.
pub proof fn law_at_least_compares_lengths(a: TimeSpan, b: TimeSpan)
    requires
        a.wf(),
        b.wf(),
    ensures
        a.at_least(b) <==> a.secs * 1_000_000_000 + a.nanos >= b.secs * 1_000_000_000 + b.nanos,
{
}

/// A span's microseconds are its whole length: the seconds and the
/// nanoseconds beyond them, in microseconds, whenever that fits in 64 bits.
pub proof fn law_micros_are_the_whole_length(t: TimeSpan)
    requires
        t.secs * 1_000_000 + t.nanos / 1000 <= u64::MAX,
    ensures
        t.micros_u64() == t.secs * 1_000_000 + t.nanos / 1000,
        t.wf() ==> t.micros_u64() * 1000 <= t.secs * 1_000_000_000 + t.nanos < (t.micros_u64()
            + 1) * 1000,
{
}

/// When a group stops sending requests.
#[derive(Debug, Clone, Copy, PartialEq, Eq, Structural)]
pub enum TestMode {
    /// Send requests until this much time has passed.
    Duration(TimeSpan),
    /// Send exactly this many requests in all.
    RequestCount(u64),
}

/// One URL of a group, with how to call it and how often.
#[derive(Debug, Clone)]
pub struct EndpointConfig {
    pub url: String,
    pub method: String,
    /// Header names and values, in the order they are sent (from the
    /// command line, no name occurs twice: see `parse_headers`).
    pub headers: Vec<(String, String)>,
    pub body: Option<String>,
    pub weight: u32,
}

/// The mathematical value of an `EndpointConfig`.
pub struct EndpointView {
    pub url: Seq<char>,
    pub method: Seq<char>,
    pub headers: Seq<(Seq<char>, Seq<char>)>,
    pub body: Option<Seq<char>>,
    pub weight: u32,
}

impl DeepView for EndpointConfig {
    type V = EndpointView;

    open spec fn deep_view(&self) -> EndpointView {
        EndpointView {
            url: self.url@,
            method: self.method@,
            headers: self.headers.deep_view(),
            body: self.body.deep_view(),
            weight: self.weight,
        }
    }
}

/// A group of endpoints that one pool of connections exercises.
#[derive(Debug, Clone)]
pub struct GroupConfig {
    pub name: String,
    pub endpoints: Vec<EndpointConfig>,
    pub connections: usize,
    pub test_mode: TestMode,
    pub timeout: TimeSpan,
    pub insecure: bool,
    pub ramp_up: Option<TimeSpan>,
}

/// The mathematical value of a `GroupConfig`.
pub struct GroupView {
    pub name: Seq<char>,
    pub endpoints: Seq<EndpointView>,
    pub connections: usize,
    pub test_mode: TestMode,
    pub timeout: TimeSpan,
    pub insecure: bool,
    pub ramp_up: Option<TimeSpan>,
}

impl DeepView for GroupConfig {
    type V = GroupView;

    open spec fn deep_view(&self) -> GroupView {
        GroupView {
            name: self.name@,
            endpoints: self.endpoints.deep_view(),
            connections: self.connections,
            test_mode: self.test_mode,
            timeout: self.timeout,
            insecure: self.insecure,
            ramp_up: self.ramp_up,
        }
    }
}

/// How results are written.
#[derive(Debug, Clone, Copy, PartialEq, Eq, Structural)]
pub enum OutputFormat {
    Text,
    Json,
}

/// Everything a run needs.
#[derive(Debug, Clone)]
pub struct Config {
    pub groups: Vec<GroupConfig>,
    pub threads: usize,
    pub output_format: OutputFormat,
    pub no_progress: bool,
}

// ------------------------------------------------------------------
// Durations
// ------------------------------------------------------------------

/// What `humantime::parse_duration` gives for a string: the seconds and
/// nanoseconds of the duration, or the text of its error.
pub uninterp spec fn humantime_duration(s: Seq<char>) -> Result<(u64, u32), Seq<char>>;

/// `c` is an ASCII digit, the only digits the duration parser reads.
pub open spec fn is_ascii_digit(c: char) -> bool {
    '0' <= c && c <= '9'
}

/// `c` ends a number for the duration parser: an ASCII letter, `'µ'` (the
/// characters of a unit) or the decimal point.
pub open spec fn ends_number(c: char) -> bool {
    ||| ('a' <= c && c <= 'z')
    ||| ('A' <= c && c <= 'Z')
    ||| c == 'µ'
    ||| c == '.'
}

/// Scans `s` for its digit groups: the digits between two characters that
/// end a number, read as one decimal number (other characters in between are
/// passed over). The first component is the sum of the closed groups plus one
/// for every digit read; the second is the value of the open group.
pub open spec fn digit_scan(s: Seq<char>) -> (int, int)
    decreases s.len(),
{
    if s.len() == 0 {
        (0, 0)
    } else {
        let (t, c) = digit_scan(s.drop_last());
        let x = s.last();
        if is_ascii_digit(x) {
            (t + 1, c * 10 + (x as int - '0' as int))
        } else if ends_number(x) {
            (t + c, 0)
        } else {
            (t, c)
        }
    }
}

/// The digit mass of `s`: the sum of its digit groups plus its number of
/// digits. Every number the duration parser reads (an integer part or the
/// digits after a decimal point) lies inside one group, and no two numbers
/// share a group, so the numbers add up to at most the sum of the groups.
pub open spec fn digit_mass(s: Seq<char>) -> int {
    digit_scan(s).0 + digit_scan(s).1
}

/// Position `i` of `s` holds a mark that every sub-second part of a duration
/// needs: a decimal point, or a letter of the units `ns`, `nsec`, `nanos`,
/// `us`, `µs`, `usec`, `ms`, `msec`, `millis` (`n`, `u`, `µ`, `l`, or `m`
/// followed by `s`).
pub open spec fn subsecond_mark_at(s: Seq<char>, i: int) -> bool {
    ||| s[i] == '.'
    ||| s[i] == 'n'
    ||| s[i] == 'u'
    ||| s[i] == 'µ'
    ||| s[i] == 'l'
    ||| (s[i] == 'm' && i + 1 < s.len() && s[i + 1] == 's')
}

/// `s` holds a mark of a sub-second part.
pub open spec fn has_subsecond_mark(s: Seq<char>) -> bool {
    exists|i: int| 0 <= i < s.len() && subsecond_mark_at(s, i)
}

/// The most seconds one unit of a number can stand for in `s`, judged by the
/// letters it holds: a year (`y`), a month (`M`, or `o` of `month`), a week
/// (`w`), a day (`d`), an hour (`h`), a minute (`m`), else a second. Every
/// name of a unit holds its letter, so no unit in `s` stands for more.
pub open spec fn largest_unit_seconds(s: Seq<char>) -> int {
    if s.contains('y') {
        31_557_600
    } else if s.contains('M') || s.contains('o') {
        2_630_016
    } else if s.contains('w') {
        604_800
    } else if s.contains('d') {
        86_400
    } else if s.contains('h') {
        3_600
    } else if s.contains('m') {
        60
    } else {
        1
    }
}

/// The most seconds the duration parser can add per unit of the digit mass
/// of `s`: a unit's seconds, plus 60 for the nanoseconds a fraction of a
/// minute carries over.
pub open spec fn seconds_per_mass(s: Seq<char>) -> int {
    largest_unit_seconds(s) + 60
}

/// The largest digit mass of `s` whose seconds bound stays below `u64::MAX`.
pub open spec fn mass_limit(s: Seq<char>) -> int {
    (u64::MAX - 1) / seconds_per_mass(s)
}

/// Text that is refused before it reaches the duration parser: it has a
/// sub-second part and a digit mass above `mass_limit`.
///
/// The parser panics only when, adding up its spans, it reaches `u64::MAX`
/// seconds while carrying a whole second of nanoseconds, and nanoseconds
/// come only from sub-second parts. Each span adds at most
/// `largest_unit_seconds` per unit of its number, plus a carry of at most one
/// second plus 60 per unit (a fraction of a minute in nanoseconds); every
/// span's number lies in its own digit group and has at least one digit, so
/// the seconds never exceed `seconds_per_mass` times the digit mass, which up
/// to the limit stays below `u64::MAX`.
pub open spec fn duration_too_large(s: Seq<char>) -> bool {
    has_subsecond_mark(s) && digit_mass(s) > mass_limit(s)
}

/// Calls `humantime::parse_duration`. The contract claims that the outcome is
/// the one named by `humantime_duration` for the same text, and that the
/// nanosecond part of a parsed duration is below one second (a `Duration`
/// always holds it so). The parser panics when its seconds reach `u64::MAX`
/// with a whole second of nanoseconds still to carry; `requires` leaves out
/// the text that `duration_too_large` refuses, which holds every such input.
#[verifier::external_body]
fn humantime_parse(s: &str) -> (r: Result<TimeSpan, String>)
    requires
        !duration_too_large(s@),
    ensures
        match r {
            Ok(t) => humantime_duration(s@) == Ok::<(u64, u32), Seq<char>>((t.secs, t.nanos))
                && t.wf(),
            Err(m) => humantime_duration(s@) == Err::<(u64, u32), Seq<char>>(m@),
        },
{
    match humantime::parse_duration(s) {
        Ok(d) => Ok(TimeSpan { secs: d.as_secs(), nanos: d.subsec_nanos() }),
        Err(e) => Err(e.to_string()),
    }
}

/// The digit masses of the prefixes of `s` never decrease.
proof fn lemma_digit_mass_grows(s: Seq<char>, i: int, j: int)
    requires
        0 <= i <= j <= s.len(),
    ensures
        digit_mass(s.take(i)) <= digit_mass(s.take(j)),
        digit_scan(s.take(j)).0 >= 0,
        digit_scan(s.take(j)).1 >= 0,
    decreases j,
{
    if j > 0 {
        assert(s.take(j).drop_last() =~= s.take(j - 1));
    }
    if i < j {
        lemma_digit_mass_grows(s, i, j - 1);
    } else if j > 0 {
        lemma_digit_mass_grows(s, j - 1, j - 1);
    }
}

/// Whether the characters `v` hold `c`.
fn holds_char(v: &Vec<char>, c: char) -> (b: bool)
    ensures
        b == v@.contains(c),
{
    for i in 0..v.len()
        invariant
            forall|k: int| 0 <= k < i ==> v@[k] != c,
    {
        if v[i] == c {
            assert(v@[i as int] == c);
            return true;
        }
    }
    false
}

/// `seconds_per_mass` of the characters `v`.
fn seconds_per_mass_of(v: &Vec<char>) -> (n: u64)
    ensures
        n == seconds_per_mass(v@),
{
    let unit: u64 = if holds_char(v, 'y') {
        31_557_600
    } else if holds_char(v, 'M') || holds_char(v, 'o') {
        2_630_016
    } else if holds_char(v, 'w') {
        604_800
    } else if holds_char(v, 'd') {
        86_400
    } else if holds_char(v, 'h') {
        3_600
    } else if holds_char(v, 'm') {
        60
    } else {
        1
    };
    unit + 60
}

/// Whether the digit mass of `s` lies above `mass_limit`.
fn digit_mass_above_limit(s: &str) -> (b: bool)
    ensures
        b == (digit_mass(s@) > mass_limit(s@)),
{
    let v = chars_of(s);
    let k = seconds_per_mass_of(&v);
    let limit: u64 = (u64::MAX - 1) / k;
    assert(limit <= 310_000_000_000_000_000) by (nonlinear_arith)
        requires
            k >= 61,
            limit == (0xffff_ffff_ffff_fffe as int) / (k as int),
    ;
    let mut t: u64 = 0;
    let mut c: u64 = 0;
    let mut i: usize = 0;
    while i < v.len()
        invariant
            v@ == s@,
            i <= v.len(),
            limit == mass_limit(s@),
            limit <= 310_000_000_000_000_000,
            digit_scan(v@.take(i as int)) == (t as int, c as int),
            t + c <= limit,
        decreases v.len() - i,
    {
        assert(v@.take(i + 1).drop_last() =~= v@.take(i as int));
        let x = v[i];
        if '0' <= x && x <= '9' {
            t = t + 1;
            c = c * 10 + (x as u64 - '0' as u64);
        } else if ('a' <= x && x <= 'z') || ('A' <= x && x <= 'Z') || x == 'µ' || x == '.' {
            t = t + c;
            c = 0;
        }
        i += 1;
        if t + c > limit {
            proof {
                lemma_digit_mass_grows(v@, i as int, v.len() as int);
                assert(v@.take(v.len() as int) =~= v@);
            }
            return true;
        }
    }
    assert(v@.take(v.len() as int) =~= v@);
    false
}

/// Whether `s` holds a mark of a sub-second part.
fn has_subsecond_mark_check(s: &str) -> (b: bool)
    ensures
        b == has_subsecond_mark(s@),
{
    let v = chars_of(s);
    let mut i: usize = 0;
    while i < v.len()
        invariant
            v@ == s@,
            i <= v.len(),
            forall|k: int| 0 <= k < i ==> !subsecond_mark_at(v@, k),
        decreases v.len() - i,
    {
        let x = v[i];
        if x == '.' || x == 'n' || x == 'u' || x == 'µ' || x == 'l' || (x == 'm' && i + 1
            < v.len() && v[i + 1] == 's') {
            assert(subsecond_mark_at(v@, i as int));
            return true;
        }
        i += 1;
    }
    false
}

/// The reason given for a duration refused as too large.
pub open spec fn too_large_reason() -> Seq<char> {
    "too large to add up safely"@
}

/// The message for a duration that does not parse.
pub open spec fn invalid_duration_message(s: Seq<char>, reason: Seq<char>) -> Seq<char> {
    "Invalid duration '"@ + s + "': "@ + reason
}

/// What parsing `s` as a duration gives, given what the parser answered.
pub open spec fn duration_outcome(s: Seq<char>, parsed: Result<(u64, u32), Seq<char>>) -> Result<
    TimeSpan,
    ErrorView,
> {
    match parsed {
        Ok((secs, nanos)) => Ok(TimeSpan { secs, nanos }),
        Err(reason) => Err(ErrorView::Config(invalid_duration_message(s, reason))),
    }
}

/// What parsing `s` as a duration gives: text that `duration_too_large`
/// refuses does not reach the parser.
pub open spec fn spec_parse_duration(s: Seq<char>) -> Result<TimeSpan, ErrorView> {
    if duration_too_large(s) {
        Err(ErrorView::Config(invalid_duration_message(s, too_large_reason())))
    } else {
        duration_outcome(s, humantime_duration(s))
    }
}

/// The view of a duration result.
pub open spec fn span_result_view(r: Result<TimeSpan, DhanushError>) -> Result<TimeSpan, ErrorView> {
    match r {
        Ok(t) => Ok(t),
        Err(e) => Err(e.deep_view()),
    }
}

/// Turns the parser's answer for `s` into a duration or a configuration error.
pub fn duration_result(s: &str, parsed: Result<TimeSpan, String>) -> (r: Result<
    TimeSpan,
    DhanushError,
>)
    ensures
        span_result_view(r) == duration_outcome(
            s@,
            match parsed {
                Ok(t) => Ok((t.secs, t.nanos)),
                Err(m) => Err(m@),
            },
        ),
{
    match parsed {
        Ok(t) => Ok(t),
        Err(reason) => {
            let mut msg = concat3("Invalid duration '", s, "': ");
            msg.append(reason.as_str());
            Err(DhanushError::Config(msg))
        },
    }
}

/// Parses a duration such as `"10s"`, `"1m"` or `"2m30s"`. Text that
/// `duration_too_large` refuses is a configuration error.
pub fn parse_duration_str(s: &str) -> (r: Result<TimeSpan, DhanushError>)
    ensures
        span_result_view(r) == spec_parse_duration(s@),
        r matches Ok(t) ==> t.wf(),
{
    if has_subsecond_mark_check(s) && digit_mass_above_limit(s) {
        let mut msg = concat3("Invalid duration '", s, "': ");
        msg.append("too large to add up safely");
        proof {
            reveal_strlit("too large to add up safely");
        }
        return Err(DhanushError::Config(msg));
    }
    let parsed = humantime_parse(s);
    duration_result(s, parsed)
}

// ------------------------------------------------------------------
// Headers
// ------------------------------------------------------------------

/// `i` is the position of the first `':'` in `h`.
pub open spec fn is_first_colon(h: Seq<char>, i: int) -> bool {
    0 <= i < h.len() && h[i] == ':' && forall|k: int| 0 <= k < i ==> h[k] != ':'
}

/// The name and value in a `"Key: Value"` header line, each trimmed, split
/// at the first colon; `None` when the line holds no colon.
pub open spec fn header_entry(h: Seq<char>) -> Option<(Seq<char>, Seq<char>)> {
    if exists|i: int| is_first_colon(h, i) {
        let i = choose|i: int| is_first_colon(h, i);
        Some((trim(h.subrange(0, i)), trim(h.subrange(i + 1, h.len() as int))))
    } else {
        None
    }
}

/// `list` with `value` stored under `key`: in place where the key is already
/// there, at the end otherwise.
pub open spec fn insert_pair(
    list: Seq<(Seq<char>, Seq<char>)>,
    key: Seq<char>,
    value: Seq<char>,
) -> Seq<(Seq<char>, Seq<char>)> {
    if exists|j: int| 0 <= j < list.len() && list[j].0 == key {
        let j = choose|j: int| 0 <= j < list.len() && list[j].0 == key;
        list.update(j, (key, value))
    } else {
        list.push((key, value))
    }
}

/// No name occurs twice in `list`.
pub open spec fn distinct_keys(list: Seq<(Seq<char>, Seq<char>)>) -> bool {
    forall|a: int, b: int| 0 <= a < b < list.len() ==> list[a].0 != list[b].0
}

/// The map from names to values that `list` stands for.
pub open spec fn pairs_map(list: Seq<(Seq<char>, Seq<char>)>) -> Map<Seq<char>, Seq<char>>
    decreases list.len(),
{
    if list.len() == 0 {
        Map::empty()
    } else {
        pairs_map(list.drop_last()).insert(list.last().0, list.last().1)
    }
}

/// The message for a header line without a colon.
pub open spec fn invalid_header_message(h: Seq<char>) -> Seq<char> {
    "Invalid header format '"@ + h + "', expected 'Key: Value'"@
}

/// The headers that the lines `hs` give, each later line for a name
/// replacing the value of an earlier one, or the error for the first line
/// without a colon.
pub open spec fn spec_parse_headers(hs: Seq<Seq<char>>) -> Result<
    Seq<(Seq<char>, Seq<char>)>,
    ErrorView,
>
    decreases hs.len(),
{
    if hs.len() == 0 {
        Ok(Seq::empty())
    } else {
        match spec_parse_headers(hs.drop_last()) {
            Err(e) => Err(e),
            Ok(list) => match header_entry(hs.last()) {
                None => Err(ErrorView::Config(invalid_header_message(hs.last()))),
                Some((k, v)) => Ok(insert_pair(list, k, v)),
            },
        }
    }
}

/// The view of a header-list result.
pub open spec fn headers_result_view(r: Result<Vec<(String, String)>, DhanushError>) -> Result<
    Seq<(Seq<char>, Seq<char>)>,
    ErrorView,
> {
    match r {
        Ok(v) => Ok(v.deep_view()),
        Err(e) => Err(e.deep_view()),
    }
}

/// Splits one header line at its first colon.
fn split_header(h: &String) -> (r: Option<(String, String)>)
    ensures
        match r {
            Some((k, v)) => header_entry(h@) == Some((k@, v@)),
            None => header_entry(h@) is None,
        },
{
    let cs = chars_of(h.as_str());
    let mut i: usize = 0;
    while i < cs.len() && cs[i] != ':'
        invariant
            i <= cs.len(),
            cs@ == h@,
            forall|k: int| 0 <= k < i ==> cs@[k] != ':',
        decreases cs.len() - i,
    {
        i += 1;
    }
    if i == cs.len() {
        assert(!exists|j: int| is_first_colon(h@, j));
        None
    } else {
        assert(is_first_colon(h@, i as int));
        assert forall|j: int| is_first_colon(h@, j) implies j == i by {
            if j < i {
            } else if j > i {
                assert(h@[i as int] == ':');
            }
        }
        let key = trimmed_range(&cs, 0, i);
        let value = trimmed_range(&cs, i + 1, cs.len());
        Some((key, value))
    }
}

/// Stores `value` under `key` in `list`, replacing a value already there.
fn insert_header(list: &mut Vec<(String, String)>, key: String, value: String)
    requires
        distinct_keys(old(list).deep_view()),
    ensures
        final(list).deep_view() == insert_pair(old(list).deep_view(), key@, value@),
        distinct_keys(final(list).deep_view()),
{
    let ghost old_view = list.deep_view();
    let mut j: usize = 0;
    while j < list.len()
        invariant
            j <= list.len(),
            list.deep_view() == old_view,
            old_view == old(list).deep_view(),
            distinct_keys(old_view),
            forall|k: int| 0 <= k < j ==> old_view[k].0 != key@,
        decreases list.len() - j,
    {
        if list[j].0 == key {
            assert(old_view[j as int].0 == key@);
            proof {
                let c = choose|c: int| 0 <= c < old_view.len() && old_view[c].0 == key@;
                assert(c == j as int) by {
                    if c > j {
                        assert(old_view[j as int].0 != old_view[c].0);
                    }
                }
            }
            let ghost kv = key@;
            let ghost vv = value@;
            list.set(j, (key, value));
            assert(list.deep_view() =~= old_view.update(j as int, (kv, vv)));
            assert(insert_pair(old_view, kv, vv) == old_view.update(j as int, (kv, vv)));
            return;
        }
        j += 1;
    }
    list.push((key, value));
    assert(list.deep_view() =~= insert_pair(old_view, key@, value@));
}

/// The map that header lines give when each line stores its value under its
/// name, later lines replacing earlier ones.
pub open spec fn headers_map(hs: Seq<Seq<char>>) -> Map<Seq<char>, Seq<char>>
    decreases hs.len(),
{
    if hs.len() == 0 {
        Map::empty()
    } else {
        match header_entry(hs.last()) {
            Some((k, v)) => headers_map(hs.drop_last()).insert(k, v),
            None => headers_map(hs.drop_last()),
        }
    }
}

/// Storing under a name changes the map at that name only.
proof fn lemma_insert_pair_map(list: Seq<(Seq<char>, Seq<char>)>, key: Seq<char>, value: Seq<char>)
    requires
        distinct_keys(list),
    ensures
        distinct_keys(insert_pair(list, key, value)),
        pairs_map(insert_pair(list, key, value)) == pairs_map(list).insert(key, value),
{
    if exists|j: int| 0 <= j < list.len() && list[j].0 == key {
        let j = choose|j: int| 0 <= j < list.len() && list[j].0 == key;
        lemma_update_map(list, j, key, value);
    } else {
        let l2 = list.push((key, value));
        assert(l2.drop_last() =~= list);
    }
}

/// Replacing the value at the position of a name changes the map at that
/// name only.
proof fn lemma_update_map(list: Seq<(Seq<char>, Seq<char>)>, j: int, key: Seq<char>, value: Seq<char>)
    requires
        distinct_keys(list),
        0 <= j < list.len(),
        list[j].0 == key,
    ensures
        distinct_keys(list.update(j, (key, value))),
        pairs_map(list.update(j, (key, value))) == pairs_map(list).insert(key, value),
    decreases list.len(),
{
    let l2 = list.update(j, (key, value));
    if j == list.len() - 1 {
        assert(l2.drop_last() =~= list.drop_last());
        assert(pairs_map(l2) =~= pairs_map(list).insert(key, value));
    } else {
        let d = list.drop_last();
        assert(l2.drop_last() =~= d.update(j, (key, value)));
        lemma_update_map(d, j, key, value);
        assert(list.last().0 != key);
        assert(pairs_map(l2) =~= pairs_map(list).insert(key, value));
    }
}

/// Header lines give names that occur once each, and each name holds the
/// value of the last line that gives it.
pub proof fn law_headers_last_value_wins(hs: Seq<Seq<char>>)
    requires
        spec_parse_headers(hs) is Ok,
    ensures
        distinct_keys(spec_parse_headers(hs)->Ok_0),
        pairs_map(spec_parse_headers(hs)->Ok_0) == headers_map(hs),
    decreases hs.len(),
{
    if hs.len() > 0 {
        law_headers_last_value_wins(hs.drop_last());
        let list = spec_parse_headers(hs.drop_last())->Ok_0;
        let (k, v) = header_entry(hs.last())->Some_0;
        lemma_insert_pair_map(list, k, v);
    } else {
        assert(pairs_map(Seq::empty()) =~= Map::empty());
    }
}

/// The views of a list of strings.
pub open spec fn string_views(v: Seq<String>) -> Seq<Seq<char>> {
    v.map_values(|s: String| s@)
}

/// Parses header lines of the form `"Key: Value"`: each line is split at its
/// first colon, name and value are trimmed, and a later line for a name
/// replaces the value of an earlier one. A line without a colon is an error.
pub fn parse_headers(header_strings: &[String]) -> (r: Result<Vec<(String, String)>, DhanushError>)
    ensures
        headers_result_view(r) == spec_parse_headers(string_views(header_strings@)),
        r matches Ok(v) ==> distinct_keys(v.deep_view()),
{
    let ghost hs = string_views(header_strings@);
    let mut list: Vec<(String, String)> = Vec::new();
    let n = header_strings.len();
    assert(hs.take(0) =~= Seq::<Seq<char>>::empty());
    assert(list.deep_view() =~= Seq::<(Seq<char>, Seq<char>)>::empty());
    for i in 0..n
        invariant
            n == header_strings@.len(),
            hs == string_views(header_strings@),
            spec_parse_headers(hs.take(i as int)) == Ok::<
                Seq<(Seq<char>, Seq<char>)>,
                ErrorView,
            >(list.deep_view()),
            distinct_keys(list.deep_view()),
    {
        let h = &header_strings[i];
        assert(hs.take(i + 1).drop_last() =~= hs.take(i as int));
        assert(hs.take(i + 1).last() == h@);
        match split_header(h) {
            None => {
                let msg = concat3("Invalid header format '", h.as_str(), "', expected 'Key: Value'");
                let ghost full = hs.take(i + 1);
                proof {
                    assert(spec_parse_headers(full) == Err::<Seq<(Seq<char>, Seq<char>)>, ErrorView>(
                        ErrorView::Config(invalid_header_message(h@)),
                    ));
                    lemma_parse_headers_error_persists(hs, i as int + 1);
                }
                return Err(DhanushError::Config(msg));
            },
            Some((k, v)) => {
                insert_header(&mut list, k, v);
            },
        }
    }
    assert(hs.take(n as int) =~= hs);
    Ok(list)
}

/// An error in the first `i` lines is the error of all of them.
proof fn lemma_parse_headers_error_persists(hs: Seq<Seq<char>>, i: int)
    requires
        0 <= i <= hs.len(),
        spec_parse_headers(hs.take(i)) is Err,
    ensures
        spec_parse_headers(hs) == spec_parse_headers(hs.take(i)),
    decreases hs.len() - i,
{
    if i < hs.len() {
        assert(hs.take(i + 1).drop_last() =~= hs.take(i));
        lemma_parse_headers_error_persists(hs, i + 1);
    } else {
        assert(hs.take(i) =~= hs);
    }
}

// ------------------------------------------------------------------
// Output format and thread count
// ------------------------------------------------------------------

/// The message for an output format other than `text` and `json`.
pub open spec fn unknown_format_message(lowered: Seq<char>) -> Seq<char> {
    "Unknown output format '"@ + lowered + "', expected 'text' or 'json'"@
}

/// The output format that the lower-cased name `lowered` selects.
pub open spec fn output_format_outcome(lowered: Seq<char>) -> Result<OutputFormat, ErrorView> {
    if lowered == "json"@ {
        Ok(OutputFormat::Json)
    } else if lowered == "text"@ {
        Ok(OutputFormat::Text)
    } else {
        Err(ErrorView::Config(unknown_format_message(lowered)))
    }
}

/// The view of an output-format result.
pub open spec fn format_result_view(r: Result<OutputFormat, DhanushError>) -> Result<
    OutputFormat,
    ErrorView,
> {
    match r {
        Ok(f) => Ok(f),
        Err(e) => Err(e.deep_view()),
    }
}

/// The output format named by `lowered`, an already lower-cased name.
pub fn output_format_from(lowered: &str) -> (r: Result<OutputFormat, DhanushError>)
    ensures
        format_result_view(r) == output_format_outcome(lowered@),
{
    let s = String::from_str(lowered);
    let json = String::from_str("json");
    let text = String::from_str("text");
    if s == json {
        Ok(OutputFormat::Json)
    } else if s == text {
        Ok(OutputFormat::Text)
    } else {
        let msg = concat3("Unknown output format '", lowered, "', expected 'text' or 'json'");
        Err(DhanushError::Config(msg))
    }
}

/// Calls `num_cpus::get`. The contract claims what its documentation
/// promises: the count is at least 1. Which count comes back depends on the
/// machine and is not stated.
#[verifier::external_body]
fn available_cpus() -> (n: usize)
    ensures
        n >= 1,
{
    num_cpus::get()
}

// ------------------------------------------------------------------
// The YAML configuration file
// ------------------------------------------------------------------

/// A configuration file: global defaults and the groups to run.
#[derive(Debug, Clone)]
pub struct YamlConfig {
    pub defaults: Option<YamlDefaults>,
    pub groups: Vec<YamlGroup>,
}

/// The `defaults` section of a configuration file.
#[derive(Debug, Clone)]
pub struct YamlDefaults {
    pub connections: Option<usize>,
    pub duration: Option<String>,
    pub num_requests: Option<u64>,
    /// The thread count when the command line gives none.
    pub threads: Option<usize>,
    pub timeout: Option<String>,
    pub insecure: Option<bool>,
    pub ramp_up: Option<String>,
}

/// One group of a configuration file.
#[derive(Debug, Clone)]
pub struct YamlGroup {
    pub name: String,
    pub connections: Option<usize>,
    pub duration: Option<String>,
    pub num_requests: Option<u64>,
    pub timeout: Option<String>,
    pub insecure: Option<bool>,
    pub ramp_up: Option<String>,
    pub endpoints: Vec<YamlEndpoint>,
}

/// One endpoint of a group in a configuration file.
#[derive(Debug, Clone)]
pub struct YamlEndpoint {
    pub url: String,
    pub method: Option<String>,
    /// Header names and values, in the order they are sent.
    pub headers: Option<Vec<(String, String)>>,
    pub body: Option<String>,
    pub weight: Option<u32>,
}

/// The defaults in force: those of the file, or none at all.
pub open spec fn effective_defaults(d: Option<YamlDefaults>) -> YamlDefaults {
    match d {
        Some(d) => d,
        None => YamlDefaults {
            connections: None,
            duration: None,
            num_requests: None,
            threads: None,
            timeout: None,
            insecure: None,
            ramp_up: None,
        },
    }
}

/// The text of an optional string, or `default` when it is absent.
pub open spec fn text_or(o: Option<String>, default: Seq<char>) -> Seq<char> {
    match o {
        Some(s) => s@,
        None => default,
    }
}

/// Wraps a parsed duration as a duration-mode test.
pub open spec fn duration_mode(r: Result<TimeSpan, ErrorView>) -> Result<TestMode, ErrorView> {
    match r {
        Ok(t) => Ok(TestMode::Duration(t)),
        Err(e) => Err(e),
    }
}

/// Wraps a parsed duration as a present ramp-up.
pub open spec fn some_span(r: Result<TimeSpan, ErrorView>) -> Result<Option<TimeSpan>, ErrorView> {
    match r {
        Ok(t) => Ok(Some(t)),
        Err(e) => Err(e),
    }
}

/// The endpoint that a file entry describes: method `GET` unless given, in
/// upper case; no headers unless given; weight 1 unless given.
pub open spec fn yaml_endpoint_view(ye: YamlEndpoint) -> EndpointView {
    EndpointView {
        url: ye.url@,
        method: uppercase(text_or(ye.method, "GET"@)),
        headers: match ye.headers {
            Some(h) => h.deep_view(),
            None => Seq::empty(),
        },
        body: ye.body.deep_view(),
        weight: match ye.weight {
            Some(w) => w,
            None => 1,
        },
    }
}

/// Endpoint `e` sends what file entry `ye` says: its URL and body unchanged,
/// its weight, or 1 when none is given.
pub open spec fn keeps_entry(e: EndpointView, ye: YamlEndpoint) -> bool {
    &&& e.url == ye.url@
    &&& e.body == ye.body.deep_view()
    &&& e.weight == match ye.weight {
        Some(w) => w,
        None => 1u32,
    }
}

/// The groups `gs` are built from the file groups `ygs`, one for one, each
/// endpoint from its file entry.
pub open spec fn keeps_file_groups(gs: Seq<GroupView>, ygs: Seq<YamlGroup>) -> bool {
    &&& gs.len() == ygs.len()
    &&& forall|i: int|
        0 <= i < gs.len() ==> keeps_entries(#[trigger] gs[i].endpoints, ygs[i].endpoints@)
}

/// The endpoints `eps` are built from the file entries `yes`, one for one.
pub open spec fn keeps_entries(eps: Seq<EndpointView>, yes: Seq<YamlEndpoint>) -> bool {
    &&& eps.len() == yes.len()
    &&& forall|j: int| 0 <= j < eps.len() ==> keeps_entry(#[trigger] eps[j], yes[j])
}

/// The sum of the weights of `eps`.
pub open spec fn total_weight(eps: Seq<EndpointView>) -> int
    decreases eps.len(),
{
    if eps.len() == 0 {
        0
    } else {
        total_weight(eps.drop_last()) + eps.last().weight
    }
}

/// The total weight of endpoints is the sum of their weights.
proof fn lemma_total_weight_is_weight_sum(eps: Seq<EndpointView>)
    ensures
        total_weight(eps) == weight_sum(endpoint_weights(eps)),
    decreases eps.len(),
{
    if eps.len() > 0 {
        assert(endpoint_weights(eps).drop_last() =~= endpoint_weights(eps.drop_last()));
        lemma_total_weight_is_weight_sum(eps.drop_last());
    }
}

/// A request selector can be made for group `g`: it has endpoints, and their
/// weights add up to a positive total that fits in a `u32`.
pub open spec fn selectable(g: GroupView) -> bool {
    &&& g.endpoints.len() > 0
    &&& 0 < weight_sum(endpoint_weights(g.endpoints)) <= u32::MAX
}

/// The endpoints that a file group describes.
pub open spec fn yaml_endpoints_view(yg: YamlGroup) -> Seq<EndpointView> {
    yg.endpoints@.map_values(|ye: YamlEndpoint| yaml_endpoint_view(ye))
}

/// The weights of file group `yg` are added up (its test mode and ramp-up
/// parse and it has endpoints) and their total does not fit in a `u32`.
pub open spec fn group_weights_overflow(yg: YamlGroup, d: YamlDefaults, cli: CliArgs) -> bool {
    &&& yaml_test_mode(yg, d, cli) is Ok
    &&& yaml_ramp_up(yg, d, cli) is Ok
    &&& yg.endpoints@.len() > 0
    &&& total_weight(yaml_endpoints_view(yg)) > u32::MAX
}

/// No file group whose weights are added up has a total beyond `u32::MAX`:
/// the groups are built in order and the first error ends the building, so
/// only the groups after which no error came count.
pub open spec fn yaml_weights_fit(gs: Seq<YamlGroup>, d: YamlDefaults, cli: CliArgs) -> bool {
    forall|i: int|
        0 <= i < gs.len() && #[trigger] yaml_groups_outcome(gs.take(i), d, cli) is Ok
            ==> !group_weights_overflow(gs[i], d, cli)
}

/// How a file group ends: a request count from the command line, else the
/// group's count, else the group's duration, else the default count, else
/// the default duration (10 seconds unless given).
pub open spec fn yaml_test_mode(yg: YamlGroup, d: YamlDefaults, cli: CliArgs) -> Result<
    TestMode,
    ErrorView,
> {
    match cli.num_requests {
        Some(n) => Ok(TestMode::RequestCount(n)),
        None => match yg.num_requests {
            Some(n) => Ok(TestMode::RequestCount(n)),
            None => match yg.duration {
                Some(s) => duration_mode(spec_parse_duration(s@)),
                None => match d.num_requests {
                    Some(n) => Ok(TestMode::RequestCount(n)),
                    None => duration_mode(spec_parse_duration(text_or(d.duration, "10s"@))),
                },
            },
        },
    }
}

/// The ramp-up of a file group: the command line's, else the group's, else
/// the default one, else none.
pub open spec fn yaml_ramp_up(yg: YamlGroup, d: YamlDefaults, cli: CliArgs) -> Result<
    Option<TimeSpan>,
    ErrorView,
> {
    match cli.ramp_up {
        Some(s) => some_span(spec_parse_duration(s@)),
        None => match yg.ramp_up {
            Some(s) => some_span(spec_parse_duration(s@)),
            None => match d.ramp_up {
                Some(s) => some_span(spec_parse_duration(s@)),
                None => Ok(None),
            },
        },
    }
}

/// The message for a group without endpoints.
pub open spec fn no_endpoints_message(name: Seq<char>) -> Seq<char> {
    "Group '"@ + name + "' has no endpoints"@
}

/// The message for a group whose weights are all zero.
pub open spec fn zero_weight_message(name: Seq<char>) -> Seq<char> {
    "Group '"@ + name + "' has zero total weight"@
}

/// The message for a file without groups.
pub open spec fn no_groups_message() -> Seq<char> {
    "Config file has no groups"@
}

/// The group that a file group describes, or the first error met in it:
/// the test mode, then the ramp-up, then the endpoints, then the timeout.
pub open spec fn yaml_group_outcome(yg: YamlGroup, d: YamlDefaults, cli: CliArgs) -> Result<
    GroupView,
    ErrorView,
> {
    match yaml_test_mode(yg, d, cli) {
        Err(e) => Err(e),
        Ok(mode) => match yaml_ramp_up(yg, d, cli) {
            Err(e) => Err(e),
            Ok(ramp) => {
                let eps = yaml_endpoints_view(yg);
                if eps.len() == 0 {
                    Err(ErrorView::Config(no_endpoints_message(yg.name@)))
                } else if total_weight(eps) == 0 {
                    Err(ErrorView::Config(zero_weight_message(yg.name@)))
                } else {
                    match spec_parse_duration(text_or(yg.timeout, text_or(d.timeout, "5s"@))) {
                        Err(e) => Err(e),
                        Ok(t) => Ok(
                            GroupView {
                                name: yg.name@,
                                endpoints: eps,
                                connections: match yg.connections {
                                    Some(c) => c,
                                    None => match d.connections {
                                        Some(c) => c,
                                        None => 10,
                                    },
                                },
                                test_mode: mode,
                                timeout: t,
                                insecure: match yg.insecure {
                                    Some(b) => b,
                                    None => match d.insecure {
                                        Some(b) => b,
                                        None => false,
                                    },
                                },
                                ramp_up: ramp,
                            },
                        ),
                    }
                }
            },
        },
    }
}

/// The groups that the file groups `gs` describe, in order, or the error of
/// the first group that has one.
pub open spec fn yaml_groups_outcome(gs: Seq<YamlGroup>, d: YamlDefaults, cli: CliArgs) -> Result<
    Seq<GroupView>,
    ErrorView,
>
    decreases gs.len(),
{
    if gs.len() == 0 {
        Ok(Seq::empty())
    } else {
        match yaml_groups_outcome(gs.drop_last(), d, cli) {
            Err(e) => Err(e),
            Ok(done) => match yaml_group_outcome(gs.last(), d, cli) {
                Err(e) => Err(e),
                Ok(g) => Ok(done.push(g)),
            },
        }
    }
}

/// The groups that a configuration file describes; a file without groups is
/// an error.
pub open spec fn spec_build_groups(yaml: YamlConfig, cli: CliArgs) -> Result<
    Seq<GroupView>,
    ErrorView,
> {
    match yaml_groups_outcome(yaml.groups@, effective_defaults(yaml.defaults), cli) {
        Err(e) => Err(e),
        Ok(gs) => if gs.len() == 0 {
            Err(ErrorView::Config(no_groups_message()))
        } else {
            Ok(gs)
        },
    }
}

/// The view of a list of groups or an error.
pub open spec fn groups_result_view(r: Result<Vec<GroupConfig>, DhanushError>) -> Result<
    Seq<GroupView>,
    ErrorView,
> {
    match r {
        Ok(v) => Ok(v.deep_view()),
        Err(e) => Err(e.deep_view()),
    }
}

/// The endpoint that a file entry describes.
fn endpoint_from_yaml(ye: &YamlEndpoint) -> (ep: EndpointConfig)
    ensures
        ep.deep_view() == yaml_endpoint_view(*ye),
        keeps_entry(ep.deep_view(), *ye),
{
    let method = match &ye.method {
        Some(m) => to_uppercase(m.as_str()),
        None => to_uppercase("GET"),
    };
    let headers = match &ye.headers {
        Some(h) => clone_pairs(h),
        None => Vec::new(),
    };
    let ep = EndpointConfig {
        url: ye.url.clone(),
        method,
        headers,
        body: clone_opt_string(&ye.body),
        weight: match ye.weight {
            Some(w) => w,
            None => 1,
        },
    };
    assert(ep.headers.deep_view() =~= yaml_endpoint_view(*ye).headers);
    ep
}

/// Parses an optional duration; absent stays absent.
fn parse_opt_duration(s: &String) -> (r: Result<Option<TimeSpan>, DhanushError>)
    ensures
        opt_span_result_view(r) == some_span(spec_parse_duration(s@)),
        r matches Ok(Some(t)) ==> t.wf(),
{
    match parse_duration_str(s.as_str()) {
        Ok(t) => Ok(Some(t)),
        Err(e) => Err(e),
    }
}

/// The view of an optional-duration result.
pub open spec fn opt_span_result_view(r: Result<Option<TimeSpan>, DhanushError>) -> Result<
    Option<TimeSpan>,
    ErrorView,
> {
    match r {
        Ok(t) => Ok(t),
        Err(e) => Err(e.deep_view()),
    }
}

/// The view of a test-mode result.
pub open spec fn mode_result_view(r: Result<TestMode, DhanushError>) -> Result<TestMode, ErrorView> {
    match r {
        Ok(t) => Ok(t),
        Err(e) => Err(e.deep_view()),
    }
}

/// The test mode of a file group.
fn yaml_mode(yg: &YamlGroup, d: &YamlDefaults, cli: &CliArgs) -> (r: Result<TestMode, DhanushError>)
    ensures
        mode_result_view(r) == yaml_test_mode(*yg, *d, *cli),
{
    if let Some(n) = cli.num_requests {
        Ok(TestMode::RequestCount(n))
    } else if let Some(n) = yg.num_requests {
        Ok(TestMode::RequestCount(n))
    } else if let Some(dur) = &yg.duration {
        match parse_duration_str(dur.as_str()) {
            Ok(t) => Ok(TestMode::Duration(t)),
            Err(e) => Err(e),
        }
    } else if let Some(n) = d.num_requests {
        Ok(TestMode::RequestCount(n))
    } else {
        let parsed = match &d.duration {
            Some(s) => parse_duration_str(s.as_str()),
            None => parse_duration_str("10s"),
        };
        match parsed {
            Ok(t) => Ok(TestMode::Duration(t)),
            Err(e) => Err(e),
        }
    }
}

/// The ramp-up of a file group.
fn yaml_ramp(yg: &YamlGroup, d: &YamlDefaults, cli: &CliArgs) -> (r: Result<
    Option<TimeSpan>,
    DhanushError,
>)
    ensures
        opt_span_result_view(r) == yaml_ramp_up(*yg, *d, *cli),
{
    if let Some(s) = &cli.ramp_up {
        parse_opt_duration(s)
    } else if let Some(s) = &yg.ramp_up {
        parse_opt_duration(s)
    } else if let Some(s) = &d.ramp_up {
        parse_opt_duration(s)
    } else {
        Ok(None)
    }
}

/// The view of a group result.
pub open spec fn group_result_view(r: Result<GroupConfig, DhanushError>) -> Result<
    GroupView,
    ErrorView,
> {
    match r {
        Ok(g) => Ok(g.deep_view()),
        Err(e) => Err(e.deep_view()),
    }
}

/// The group that a file group describes.
fn group_from_yaml(yg: &YamlGroup, d: &YamlDefaults, cli: &CliArgs) -> (r: Result<
    GroupConfig,
    DhanushError,
>)
    requires
        !group_weights_overflow(*yg, *d, *cli),
    ensures
        group_result_view(r) == yaml_group_outcome(*yg, *d, *cli),
        r matches Ok(g) ==> selectable(g.deep_view()),
        r matches Ok(g) ==> keeps_entries(g.deep_view().endpoints, yg.endpoints@),
{
    let connections = match yg.connections {
        Some(c) => c,
        None => match d.connections {
            Some(c) => c,
            None => 10,
        },
    };
    let test_mode = match yaml_mode(yg, d, cli) {
        Ok(m) => m,
        Err(e) => return Err(e),
    };
    let insecure = match yg.insecure {
        Some(b) => b,
        None => match d.insecure {
            Some(b) => b,
            None => false,
        },
    };
    let ramp_up = match yaml_ramp(yg, d, cli) {
        Ok(r) => r,
        Err(e) => return Err(e),
    };
    let ghost eps_view = yaml_endpoints_view(*yg);
    let mut endpoints: Vec<EndpointConfig> = Vec::new();
    let mut sum: u128 = 0;
    for i in 0..yg.endpoints.len()
        invariant
            endpoints.deep_view() =~= eps_view.take(i as int),
            eps_view == yaml_endpoints_view(*yg),
            sum == total_weight(eps_view.take(i as int)),
            sum <= i * 0xffff_ffff,
            keeps_entries(endpoints.deep_view(), yg.endpoints@.take(i as int)),
    {
        let ep = endpoint_from_yaml(&yg.endpoints[i]);
        assert(eps_view.take(i + 1).drop_last() =~= eps_view.take(i as int));
        sum = sum + ep.weight as u128;
        let ghost before = endpoints.deep_view();
        endpoints.push(ep);
        assert(endpoints.deep_view() =~= before.push(ep.deep_view()));
        assert(yg.endpoints@.take(i + 1) =~= yg.endpoints@.take(i as int).push(yg.endpoints@[i as int]));
    }
    assert(eps_view.take(yg.endpoints.len() as int) =~= eps_view);
    assert(yg.endpoints@.take(yg.endpoints.len() as int) =~= yg.endpoints@);
    if endpoints.len() == 0 {
        let msg = concat3("Group '", yg.name.as_str(), "' has no endpoints");
        return Err(DhanushError::Config(msg));
    }
    if sum == 0 {
        let msg = concat3("Group '", yg.name.as_str(), "' has zero total weight");
        return Err(DhanushError::Config(msg));
    }
    let timeout = match &yg.timeout {
        Some(s) => parse_duration_str(s.as_str()),
        None => match &d.timeout {
            Some(s) => parse_duration_str(s.as_str()),
            None => parse_duration_str("5s"),
        },
    };
    let timeout = match timeout {
        Ok(t) => t,
        Err(e) => return Err(e),
    };
    proof {
        lemma_total_weight_is_weight_sum(eps_view);
    }
    Ok(
        GroupConfig {
            name: yg.name.clone(),
            endpoints,
            connections,
            test_mode,
            timeout,
            insecure,
            ramp_up,
        },
    )
}

/// Whether the weights of file group `yg` are added up and overflow a `u32`.
fn group_weights_overflow_check(yg: &YamlGroup, d: &YamlDefaults, cli: &CliArgs) -> (b: bool)
    ensures
        b == group_weights_overflow(*yg, *d, *cli),
{
    if yaml_mode(yg, d, cli).is_err() || yaml_ramp(yg, d, cli).is_err() || yg.endpoints.len()
        == 0 {
        return false;
    }
    let ghost eps_view = yaml_endpoints_view(*yg);
    let mut sum: u128 = 0;
    for i in 0..yg.endpoints.len()
        invariant
            eps_view == yaml_endpoints_view(*yg),
            sum == total_weight(eps_view.take(i as int)),
            sum <= i * 0xffff_ffff,
    {
        assert(eps_view.take(i + 1).drop_last() =~= eps_view.take(i as int));
        let w: u32 = match yg.endpoints[i].weight {
            Some(w) => w,
            None => 1,
        };
        sum = sum + w as u128;
    }
    assert(eps_view.take(yg.endpoints.len() as int) =~= eps_view);
    sum > 0xffff_ffff
}

/// Whether `yaml_weights_fit` holds of the file groups `gs`.
fn yaml_weights_fit_check(gs: &Vec<YamlGroup>, d: &YamlDefaults, cli: &CliArgs) -> (b: bool)
    ensures
        b == yaml_weights_fit(gs@, *d, *cli),
{
    for i in 0..gs.len()
        invariant
            yaml_groups_outcome(gs@.take(i as int), *d, *cli) is Ok,
            forall|k: int|
                0 <= k < i && #[trigger] yaml_groups_outcome(gs@.take(k), *d, *cli) is Ok
                    ==> !group_weights_overflow(gs@[k], *d, *cli),
    {
        assert(gs@.take(i + 1).drop_last() =~= gs@.take(i as int));
        if group_weights_overflow_check(&gs[i], d, cli) {
            return false;
        }
        if group_from_yaml(&gs[i], d, cli).is_err() {
            proof {
                assert forall|k: int|
                    i < k <= gs@.len() implies #[trigger] yaml_groups_outcome(
                    gs@.take(k),
                    *d,
                    *cli,
                ) is Err by {
                    assert(gs@.take(k).take(i + 1) =~= gs@.take(i + 1));
                    lemma_yaml_groups_error_persists(gs@.take(k), *d, *cli, i + 1);
                }
            }
            return true;
        }
    }
    true
}

/// Whether `yaml_weights_fit` holds of the groups of a configuration file.
fn file_weights_fit(yaml: &YamlConfig, cli: &CliArgs) -> (b: bool)
    ensures
        b == yaml_weights_fit(yaml.groups@, effective_defaults(yaml.defaults), *cli),
{
    match &yaml.defaults {
        Some(d) => yaml_weights_fit_check(&yaml.groups, d, cli),
        None => {
            let d = YamlDefaults {
                connections: None,
                duration: None,
                num_requests: None,
                threads: None,
                timeout: None,
                insecure: None,
                ramp_up: None,
            };
            yaml_weights_fit_check(&yaml.groups, &d, cli)
        },
    }
}

/// The single group that a command line without `--config` describes.
fn single_group(args: &CliArgs) -> (r: Result<GroupConfig, DhanushError>)
    ensures
        group_result_view(r) == single_group_outcome(*args),
        r matches Ok(g) ==> match args.num_requests {
            Some(n) => g.test_mode == TestMode::RequestCount(n),
            None => spec_parse_duration(args.duration@) == Ok::<TimeSpan, ErrorView>(
                g.test_mode->Duration_0,
            ) && g.test_mode is Duration,
        },
{
    let url = match &args.url {
        Some(u) => u,
        None => {
            let msg = String::from_str(
                "URL is required in single-URL mode. Provide a URL or use --config",
            );
            return Err(DhanushError::Config(msg));
        },
    };
    let headers = match parse_headers(args.headers.as_slice()) {
        Ok(h) => h,
        Err(e) => return Err(e),
    };
    let test_mode = match args.num_requests {
        Some(n) => TestMode::RequestCount(n),
        None => match parse_duration_str(args.duration.as_str()) {
            Ok(t) => TestMode::Duration(t),
            Err(e) => return Err(e),
        },
    };
    let endpoint = EndpointConfig {
        url: url.clone(),
        method: to_uppercase(args.method.as_str()),
        headers,
        body: clone_opt_string(&args.body),
        weight: 1,
    };
    let ramp_up = match &args.ramp_up {
        Some(s) => match parse_duration_str(s.as_str()) {
            Ok(t) => Some(t),
            Err(e) => return Err(e),
        },
        None => None,
    };
    let timeout = match parse_duration_str(args.timeout.as_str()) {
        Ok(t) => t,
        Err(e) => return Err(e),
    };
    let mut endpoints: Vec<EndpointConfig> = Vec::new();
    endpoints.push(endpoint);
    let g = GroupConfig {
        name: String::from_str("default"),
        endpoints,
        connections: args.connections,
        test_mode,
        timeout,
        insecure: args.insecure,
        ramp_up,
    };
    assert(g.endpoints.deep_view() =~= seq![endpoint.deep_view()]);
    Ok(g)
}

/// An error among the first `i` file groups is the error of all of them.
proof fn lemma_yaml_groups_error_persists(
    gs: Seq<YamlGroup>,
    d: YamlDefaults,
    cli: CliArgs,
    i: int,
)
    requires
        0 <= i <= gs.len(),
        yaml_groups_outcome(gs.take(i), d, cli) is Err,
    ensures
        yaml_groups_outcome(gs, d, cli) == yaml_groups_outcome(gs.take(i), d, cli),
    decreases gs.len() - i,
{
    if i < gs.len() {
        assert(gs.take(i + 1).drop_last() =~= gs.take(i));
        lemma_yaml_groups_error_persists(gs, d, cli, i + 1);
    } else {
        assert(gs.take(i) =~= gs);
    }
}

/// A request count on the command line sets the mode of every group of a
/// configuration file, and a ramp-up on the command line sets the ramp-up of
/// every group.
pub proof fn law_command_line_overrides_file(yaml: YamlConfig, cli: CliArgs)
    requires
        spec_build_groups(yaml, cli) is Ok,
    ensures
        forall|i: int|
            0 <= i < spec_build_groups(yaml, cli)->Ok_0.len() ==> {
                let g = #[trigger] spec_build_groups(yaml, cli)->Ok_0[i];
                &&& cli.num_requests matches Some(n) ==> g.test_mode == TestMode::RequestCount(n)
                &&& cli.ramp_up matches Some(s) ==> spec_parse_duration(s@) matches Ok(t)
                    && g.ramp_up == Some(t)
            },
{
    lemma_groups_follow_cli(yaml.groups@, effective_defaults(yaml.defaults), cli);
}

/// Every group that a configuration file gives can have a request selector
/// made for it: it has endpoints, and their weights add up to a positive
/// total that fits in a `u32` (the weights of the groups that are built being
/// within `u32`, as `yaml_weights_fit` says).
pub proof fn law_file_groups_are_selectable(yaml: YamlConfig, cli: CliArgs)
    requires
        spec_build_groups(yaml, cli) is Ok,
        yaml_weights_fit(yaml.groups@, effective_defaults(yaml.defaults), cli),
    ensures
        forall|i: int|
            0 <= i < spec_build_groups(yaml, cli)->Ok_0.len() ==> selectable(
                #[trigger] spec_build_groups(yaml, cli)->Ok_0[i],
            ),
{
    lemma_groups_selectable(yaml.groups@, effective_defaults(yaml.defaults), cli);
}

/// The groups that file groups give are selectable, when their weights fit.
proof fn lemma_groups_selectable(gs: Seq<YamlGroup>, d: YamlDefaults, cli: CliArgs)
    requires
        yaml_groups_outcome(gs, d, cli) is Ok,
        yaml_weights_fit(gs, d, cli),
    ensures
        forall|i: int|
            0 <= i < yaml_groups_outcome(gs, d, cli)->Ok_0.len() ==> selectable(
                #[trigger] yaml_groups_outcome(gs, d, cli)->Ok_0[i],
            ),
    decreases gs.len(),
{
    if gs.len() > 0 {
        let p = gs.drop_last();
        assert forall|i: int|
            0 <= i < p.len() && #[trigger] yaml_groups_outcome(p.take(i), d, cli) is Ok implies !group_weights_overflow(
            p[i],
            d,
            cli,
        ) by {
            assert(p.take(i) =~= gs.take(i));
            assert(yaml_groups_outcome(gs.take(i), d, cli) is Ok);
        }
        lemma_groups_selectable(p, d, cli);
        let last = gs.len() - 1;
        assert(gs.take(last) =~= p);
        assert(yaml_groups_outcome(gs.take(last), d, cli) is Ok);
        assert(!group_weights_overflow(gs[last], d, cli));
        let eps = yaml_endpoints_view(gs.last());
        lemma_total_weight_is_weight_sum(eps);
        lemma_total_weight_nonneg(eps);
        let done = yaml_groups_outcome(p, d, cli)->Ok_0;
        let g = yaml_group_outcome(gs.last(), d, cli)->Ok_0;
        assert(yaml_groups_outcome(gs, d, cli)->Ok_0 == done.push(g));
        assert(selectable(g));
        assert forall|i: int|
            0 <= i < yaml_groups_outcome(gs, d, cli)->Ok_0.len() implies selectable(
            #[trigger] yaml_groups_outcome(gs, d, cli)->Ok_0[i],
        ) by {
            if i < done.len() {
                assert(yaml_groups_outcome(gs, d, cli)->Ok_0[i] == done[i]);
            }
        }
    }
}

/// Weights add up to a total of at least zero.
proof fn lemma_total_weight_nonneg(eps: Seq<EndpointView>)
    ensures
        total_weight(eps) >= 0,
    decreases eps.len(),
{
    if eps.len() > 0 {
        lemma_total_weight_nonneg(eps.drop_last());
    }
}

/// A command line without a configuration file and without a request count
/// runs its single group for the `-d` duration: when the configuration is
/// built, that text parses, and the group's test mode is the duration it
/// gives.
pub proof fn law_single_url_runs_for_given_duration(args: CliArgs)
    requires
        args.num_requests is None,
        spec_from_cli_groups(args, None) is Ok,
    ensures
        spec_from_cli_groups(args, None)->Ok_0.len() == 1,
        spec_parse_duration(args.duration@) is Ok,
        spec_from_cli_groups(args, None)->Ok_0[0].test_mode == TestMode::Duration(
            spec_parse_duration(args.duration@)->Ok_0,
        ),
{
}

/// Every endpoint built from a configuration file sends what its entry
/// says: the file's groups are built one for one, and each endpoint keeps its
/// entry's URL and body unchanged and its weight (1 when none is given).
pub proof fn law_file_endpoints_keep_their_entries(yaml: YamlConfig, cli: CliArgs)
    requires
        spec_build_groups(yaml, cli) is Ok,
    ensures
        spec_build_groups(yaml, cli)->Ok_0.len() == yaml.groups.len(),
        forall|i: int, j: int|
            0 <= i < yaml.groups.len() && 0 <= j < yaml.groups@[i].endpoints.len() ==> {
                let e = #[trigger] spec_build_groups(yaml, cli)->Ok_0[i].endpoints[j];
                let ye = yaml.groups@[i].endpoints@[j];
                &&& e.url == ye.url@
                &&& e.body == ye.body.deep_view()
                &&& e.weight == match ye.weight {
                    Some(w) => w,
                    None => 1u32,
                }
            },
{
    lemma_groups_keep_entries(yaml.groups@, effective_defaults(yaml.defaults), cli);
    let out = spec_build_groups(yaml, cli)->Ok_0;
    assert forall|i: int, j: int|
        0 <= i < yaml.groups.len() && 0 <= j < yaml.groups@[i].endpoints.len() implies {
            let e = #[trigger] out[i].endpoints[j];
            let ye = yaml.groups@[i].endpoints@[j];
            &&& e.url == ye.url@
            &&& e.body == ye.body.deep_view()
            &&& e.weight == match ye.weight {
                Some(w) => w,
                None => 1u32,
            }
        } by {
        assert(keeps_entries(out[i].endpoints, yaml.groups@[i].endpoints@));
        assert(keeps_entry(out[i].endpoints[j], yaml.groups@[i].endpoints@[j]));
    }
}

/// The groups that file groups give are built from them one for one.
proof fn lemma_groups_keep_entries(gs: Seq<YamlGroup>, d: YamlDefaults, cli: CliArgs)
    requires
        yaml_groups_outcome(gs, d, cli) is Ok,
    ensures
        keeps_file_groups(yaml_groups_outcome(gs, d, cli)->Ok_0, gs),
    decreases gs.len(),
{
    if gs.len() > 0 {
        let p = gs.drop_last();
        lemma_groups_keep_entries(p, d, cli);
        let done = yaml_groups_outcome(p, d, cli)->Ok_0;
        let g = yaml_group_outcome(gs.last(), d, cli)->Ok_0;
        let out = yaml_groups_outcome(gs, d, cli)->Ok_0;
        assert(out == done.push(g));
        assert(keeps_entries(g.endpoints, gs.last().endpoints@));
        assert forall|i: int| 0 <= i < out.len() implies keeps_entries(
            #[trigger] out[i].endpoints,
            gs[i].endpoints@,
        ) by {
            if i < done.len() {
                assert(out[i] == done[i]);
                assert(gs[i] == p[i]);
            }
        }
    }
}

/// Every group that file groups give follows the command line's request
/// count and ramp-up.
proof fn lemma_groups_follow_cli(gs: Seq<YamlGroup>, d: YamlDefaults, cli: CliArgs)
    requires
        yaml_groups_outcome(gs, d, cli) is Ok,
    ensures
        forall|i: int|
            0 <= i < yaml_groups_outcome(gs, d, cli)->Ok_0.len() ==> {
                let g = #[trigger] yaml_groups_outcome(gs, d, cli)->Ok_0[i];
                &&& cli.num_requests matches Some(n) ==> g.test_mode == TestMode::RequestCount(n)
                &&& cli.ramp_up matches Some(s) ==> spec_parse_duration(s@) matches Ok(t)
                    && g.ramp_up == Some(t)
            },
    decreases gs.len(),
{
    if gs.len() > 0 {
        lemma_groups_follow_cli(gs.drop_last(), d, cli);
    }
}

// ------------------------------------------------------------------
// From the command line
// ------------------------------------------------------------------

/// The message when neither a URL nor a configuration file is given.
pub open spec fn url_required_message() -> Seq<char> {
    "URL is required in single-URL mode. Provide a URL or use --config"@
}

/// The single group `default` that a command line without `--config`
/// describes, or the first error met: a missing URL, then the headers, then
/// the duration (unless a request count is given), then the ramp-up, then the
/// timeout.
pub open spec fn single_group_outcome(args: CliArgs) -> Result<GroupView, ErrorView> {
    match args.url {
        None => Err(ErrorView::Config(url_required_message())),
        Some(url) => match spec_parse_headers(string_views(args.headers@)) {
            Err(e) => Err(e),
            Ok(headers) => {
                let mode = match args.num_requests {
                    Some(n) => Ok(TestMode::RequestCount(n)),
                    None => duration_mode(spec_parse_duration(args.duration@)),
                };
                match mode {
                    Err(e) => Err(e),
                    Ok(mode) => {
                        let ramp = match args.ramp_up {
                            Some(s) => some_span(spec_parse_duration(s@)),
                            None => Ok(None),
                        };
                        match ramp {
                            Err(e) => Err(e),
                            Ok(ramp) => match spec_parse_duration(args.timeout@) {
                                Err(e) => Err(e),
                                Ok(timeout) => Ok(
                                    GroupView {
                                        name: "default"@,
                                        endpoints: seq![
                                            EndpointView {
                                                url: url@,
                                                method: uppercase(args.method@),
                                                headers,
                                                body: args.body.deep_view(),
                                                weight: 1,
                                            },
                                        ],
                                        connections: args.connections,
                                        test_mode: mode,
                                        timeout,
                                        insecure: args.insecure,
                                        ramp_up: ramp,
                                    },
                                ),
                            },
                        }
                    },
                }
            },
        },
    }
}

/// The groups that a command line describes, given what reading and parsing
/// its configuration file gave (when it names one), or the first error met:
/// an unknown output format comes first.
pub open spec fn spec_from_cli_groups(
    args: CliArgs,
    loaded: Option<Result<YamlConfig, DhanushError>>,
) -> Result<Seq<GroupView>, ErrorView> {
    match output_format_outcome(lowercase(args.output_format@)) {
        Err(e) => Err(e),
        Ok(_) => match loaded {
            Some(Err(e)) => Err(e.deep_view()),
            Some(Ok(yaml)) => spec_build_groups(yaml, args),
            None => match single_group_outcome(args) {
                Err(e) => Err(e),
                Ok(g) => Ok(seq![g]),
            },
        },
    }
}

/// The groups of a configuration, or its error.
pub open spec fn config_groups_view(r: Result<Config, DhanushError>) -> Result<
    Seq<GroupView>,
    ErrorView,
> {
    match r {
        Ok(c) => Ok(c.groups.deep_view()),
        Err(e) => Err(e.deep_view()),
    }
}

/// The thread count that a configuration file gives in its defaults, when a
/// file was read and parsed.
pub open spec fn file_threads(loaded: Option<Result<YamlConfig, DhanushError>>) -> Option<usize> {
    match loaded {
        Some(Ok(y)) => match y.defaults {
            Some(d) => d.threads,
            None => None,
        },
        _ => None,
    }
}

/// The file groups that a command line hands on would be built and the
/// weights of one of them do not add up to a `u32`.
pub open spec fn from_cli_overflows(
    args: CliArgs,
    loaded: Option<Result<YamlConfig, DhanushError>>,
) -> bool {
    &&& output_format_outcome(lowercase(args.output_format@)) is Ok
    &&& loaded matches Some(Ok(y)) && !yaml_weights_fit(
        y.groups@,
        effective_defaults(y.defaults),
        args,
    )
}

/// `r` is the configuration that command line `args` describes, given what
/// reading and parsing its configuration file gave: the groups or error of
/// `spec_from_cli_groups`; the output format and progress switch of the
/// command line; the thread count of the command line, else of the file,
/// else a count of at least 1 (the number of CPUs).
pub open spec fn from_cli_result(
    args: CliArgs,
    loaded: Option<Result<YamlConfig, DhanushError>>,
    r: Result<Config, DhanushError>,
) -> bool {
    &&& config_groups_view(r) == spec_from_cli_groups(args, loaded)
    &&& r matches Ok(c) ==> {
        &&& output_format_outcome(lowercase(args.output_format@)) == Ok::<OutputFormat, ErrorView>(
            c.output_format,
        )
        &&& c.no_progress == args.no_progress
        &&& match args.threads {
            Some(t) => c.threads == t,
            None => match file_threads(loaded) {
                Some(t) => c.threads == t,
                None => c.threads >= 1,
            },
        }
        &&& forall|k: int| 0 <= k < c.groups.len() ==> selectable(#[trigger] c.groups.deep_view()[k])
        &&& loaded is None ==> {
            &&& c.groups.len() == 1
            &&& match args.num_requests {
                Some(n) => c.groups[0].test_mode == TestMode::RequestCount(n),
                None => c.groups[0].test_mode is Duration && spec_parse_duration(args.duration@)
                    == Ok::<TimeSpan, ErrorView>(c.groups[0].test_mode->Duration_0),
            }
        }
        &&& loaded matches Some(Ok(y)) ==> keeps_file_groups(c.groups.deep_view(), y.groups@)
    }
}

impl Config {
    /// Builds the configuration that a command line describes. `loaded` is
    /// what reading and parsing the file named by `--config` gave, and is
    /// present exactly when a file is named. The thread count is the
    /// command line's, else the file's, else the number of CPUs; the request
    /// count, ramp-up, output format and progress switch of the command line
    /// override the file. The weights of each file group must add up to a
    /// `u32`: `from_cli_checked` tests this first.
    pub fn from_cli(args: &CliArgs, loaded: Option<Result<YamlConfig, DhanushError>>) -> (r: Result<
        Config,
        DhanushError,
    >)
        requires
            loaded is Some <==> args.config is Some,
            !from_cli_overflows(*args, loaded),
        ensures
            from_cli_result(*args, loaded, r),
    {
        let lowered = to_lowercase(args.output_format.as_str());
        let output_format = match output_format_from(lowered.as_str()) {
            Ok(f) => f,
            Err(e) => return Err(e),
        };
        let from_file = match &loaded {
            Some(Ok(y)) => match &y.defaults {
                Some(d) => d.threads,
                None => None,
            },
            _ => None,
        };
        let threads = match args.threads {
            Some(t) => t,
            None => match from_file {
                Some(t) => t,
                None => available_cpus(),
            },
        };
        match loaded {
            Some(Err(e)) => Err(e),
            Some(Ok(yaml)) => {
                let groups = match Self::build_groups_from_yaml(yaml, args) {
                    Ok(g) => g,
                    Err(e) => return Err(e),
                };
                Ok(Config { groups, threads, output_format, no_progress: args.no_progress })
            },
            None => {
                let group = match single_group(args) {
                    Ok(g) => g,
                    Err(e) => return Err(e),
                };
                let mut groups: Vec<GroupConfig> = Vec::new();
                groups.push(group);
                assert(groups.deep_view() =~= seq![group.deep_view()]);
                assert(selectable(groups.deep_view()[0])) by {
                    let w = endpoint_weights(group.deep_view().endpoints);
                    assert(w.drop_last() =~= Seq::<u32>::empty());
                    reveal_with_fuel(weight_sum, 2);
                }
                Ok(Config { groups, threads, output_format, no_progress: args.no_progress })
            },
        }
    }

    /// `from_cli` for every input: gives `None`, in place of a configuration,
    /// exactly when the weights of a file group would be added up and would
    /// not fit in a `u32`.
    pub fn from_cli_checked(
        args: &CliArgs,
        loaded: Option<Result<YamlConfig, DhanushError>>,
    ) -> (r: Option<Result<Config, DhanushError>>)
        requires
            loaded is Some <==> args.config is Some,
        ensures
            r is None <==> from_cli_overflows(*args, loaded),
            r matches Some(c) ==> from_cli_result(*args, loaded, c),
    {
        let fits = match &loaded {
            Some(Ok(y)) => file_weights_fit(y, args),
            _ => true,
        };
        if !fits {
            let lowered = to_lowercase(args.output_format.as_str());
            if output_format_from(lowered.as_str()).is_ok() {
                return None;
            }
        }
        Some(Self::from_cli(args, loaded))
    }

    /// Builds the groups that a configuration file describes. Group settings
    /// fall back on the file's defaults and then on built-in ones; the
    /// command line's request count and ramp-up take precedence over both.
    /// The weights of each group must add up to a `u32`: see
    /// `from_cli_checked` for the entry that tests this first.
    pub fn build_groups_from_yaml(yaml: YamlConfig, cli: &CliArgs) -> (r: Result<
        Vec<GroupConfig>,
        DhanushError,
    >)
        requires
            yaml_weights_fit(yaml.groups@, effective_defaults(yaml.defaults), *cli),
        ensures
            groups_result_view(r) == spec_build_groups(yaml, *cli),
            r matches Ok(v) ==> forall|k: int| 0 <= k < v.len() ==> selectable(#[trigger] v.deep_view()[k]),
            r matches Ok(v) ==> keeps_file_groups(v.deep_view(), yaml.groups@),
    {
        let defaults = match yaml.defaults {
            Some(d) => d,
            None => YamlDefaults {
                connections: None,
                duration: None,
                num_requests: None,
                threads: None,
                timeout: None,
                insecure: None,
                ramp_up: None,
            },
        };
        let ghost d = effective_defaults(yaml.defaults);
        assert(defaults == d);
        let ghost gs = yaml.groups@;
        let mut groups: Vec<GroupConfig> = Vec::new();
        assert(gs.take(0) =~= Seq::<YamlGroup>::empty());
        assert(groups.deep_view() =~= Seq::<GroupView>::empty());
        for i in 0..yaml.groups.len()
            invariant
                gs == yaml.groups@,
                defaults == d,
                d == effective_defaults(yaml.defaults),
                yaml_groups_outcome(gs.take(i as int), d, *cli) == Ok::<Seq<GroupView>, ErrorView>(
                    groups.deep_view(),
                ),
                yaml_weights_fit(gs, d, *cli),
                forall|k: int| 0 <= k < groups.len() ==> selectable(#[trigger] groups.deep_view()[k]),
                keeps_file_groups(groups.deep_view(), gs.take(i as int)),
        {
            assert(gs.take(i + 1).drop_last() =~= gs.take(i as int));
            assert(gs.take(i + 1).last() == gs[i as int]);
            match group_from_yaml(&yaml.groups[i], &defaults, cli) {
                Ok(g) => {
                    let ghost before = groups.deep_view();
                    groups.push(g);
                    assert(groups.deep_view() =~= before.push(g.deep_view()));
                    assert(gs.take(i + 1) =~= gs.take(i as int).push(gs[i as int]));
                },
                Err(e) => {
                    proof {
                        lemma_yaml_groups_error_persists(gs, d, *cli, i + 1);
                    }
                    return Err(e);
                },
            }
        }
        assert(gs.take(gs.len() as int) =~= gs);
        if groups.len() == 0 {
            let msg = String::from_str("Config file has no groups");
            return Err(DhanushError::Config(msg));
        }
        Ok(groups)
    }
}

} // verus!
