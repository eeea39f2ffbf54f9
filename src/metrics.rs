//! Request counters: the total, the requests by method and the responses by
//! status, kept in a prometheus registry and exported in its text format.
use vstd::prelude::*;
use prometheus::{Encoder, IntCounter, IntCounterVec, Opts, Registry, TextEncoder};

verus! {

/// The counters, registered in a registry of their own.
#[verifier::external_body]
pub struct Metrics {
    registry: Registry,
    total: IntCounter,
    by_method: IntCounterVec,
    by_status: IntCounterVec,
}

/// The value of the total request counter.
pub uninterp spec fn total_of(m: Metrics) -> nat;

/// The request counters by method: for the hash of each label counted, the
/// label that created the counter and its value.
pub uninterp spec fn method_counts(m: Metrics) -> Map<u64, (Seq<char>, nat)>;

/// The response counters by status, in the same shape.
pub uninterp spec fn status_counts(m: Metrics) -> Map<u64, (Seq<char>, nat)>;

/// The FNV-1a hash of a label's UTF-8 bytes, by which a prometheus counter
/// vector tells its counters apart.
pub uninterp spec fn label_hash(label: Seq<char>) -> u64;

/// The text exposition of a registry holding these counter values.
pub uninterp spec fn exposition_of(
    total: nat,
    methods: Map<u64, (Seq<char>, nat)>,
    statuses: Map<u64, (Seq<char>, nat)>,
) -> Seq<char>;

/// A 64-bit counter after one increment: it wraps past `u64::MAX`.
pub open spec fn wrap_inc(n: nat) -> nat {
    ((n + 1) % 0x1_0000_0000_0000_0000) as nat
}

/// The value of the counter kept under hash `h`, zero where there is none.
pub open spec fn count_in(m: Map<u64, (Seq<char>, nat)>, h: u64) -> nat {
    if m.contains_key(h) {
        m[h].1
    } else {
        0
    }
}

/// The labelled counters after one increment of `label`: the counter under
/// its hash is created with that label where there is none, then incremented.
pub open spec fn bump(m: Map<u64, (Seq<char>, nat)>, label: Seq<char>) -> Map<
    u64,
    (Seq<char>, nat),
> {
    let h = label_hash(label);
    let name = if m.contains_key(h) {
        m[h].0
    } else {
        label
    };
    m.insert(h, (name, wrap_inc(count_in(m, h))))
}

pub open spec fn digit_char(d: int) -> char {
    if d == 0 {
        '0'
    } else if d == 1 {
        '1'
    } else if d == 2 {
        '2'
    } else if d == 3 {
        '3'
    } else if d == 4 {
        '4'
    } else if d == 5 {
        '5'
    } else if d == 6 {
        '6'
    } else if d == 7 {
        '7'
    } else if d == 8 {
        '8'
    } else {
        '9'
    }
}

/// The decimal digits of `n`, without leading zeros.
pub open spec fn decimal(n: nat) -> Seq<char>
    decreases n,
{
    if n < 10 {
        seq![digit_char(n as int)]
    } else {
        decimal(n / 10).push(digit_char((n % 10) as int))
    }
}

/// `line` stands in `text` as a whole line, ended by a newline.
pub open spec fn has_line(text: Seq<char>, line: Seq<char>) -> bool {
    exists|i: int|
        0 <= i && i + line.len() < text.len() && (i == 0 || text[i - 1] == '\n')
            && #[trigger] text.subrange(i, i + line.len()) == line && text[i + line.len()] == '\n'
}

/// The sample line of the total request counter at value `n`.
pub open spec fn total_line(n: nat) -> Seq<char> {
    "argus_total_requests "@ + decimal(n)
}

/// Relies on `ToString` for `u16`, which writes the number in decimal.
#[verifier::external_body]
pub(crate) fn decimal_text(n: u16) -> (r: String)
    ensures
        r@ == decimal(n as nat),
{
    n.to_string()
}

/// Relies on prometheus: `Registry::new`, `IntCounter::new`,
/// `IntCounterVec::new` and `Registry::register`; the names and help texts
/// are valid and distinct, so none of them fails, and every counter starts
/// at zero with no label.
#[verifier::external_body]
fn create() -> (r: Metrics)
    ensures
        total_of(r) == 0,
        method_counts(r).dom().is_empty(),
        status_counts(r).dom().is_empty(),
{
    let registry = Registry::new();
    let total = IntCounter::new("argus_total_requests", "Total number of requests").unwrap();
    let method_opts = Opts::new("argus_requests_by_method", "Number of requests by HTTP method");
    let by_method = IntCounterVec::new(method_opts, &["method"]).unwrap();
    let status_opts = Opts::new("argus_responses_by_status", "Number of responses by HTTP status code");
    let by_status = IntCounterVec::new(status_opts, &["status"]).unwrap();
    registry.register(Box::new(total.clone())).unwrap();
    registry.register(Box::new(by_method.clone())).unwrap();
    registry.register(Box::new(by_status.clone())).unwrap();
    Metrics { registry, total, by_method, by_status }
}

impl Metrics {
    /// Relies on prometheus's `IntCounter::inc`: a wrapping `fetch_add` of one.
    #[verifier::external_body]
    fn inc_total(&mut self)
        ensures
            total_of(*final(self)) == wrap_inc(total_of(*old(self))),
            method_counts(*final(self)) == method_counts(*old(self)),
            status_counts(*final(self)) == status_counts(*old(self)),
    {
        self.total.inc()
    }

    /// Relies on prometheus's `IntCounterVec::with_label_values`, which finds
    /// the counter kept under the label's hash or creates it with that label,
    /// and `IntCounter::inc` on it.
    #[verifier::external_body]
    fn inc_method(&mut self, label: &str)
        ensures
            total_of(*final(self)) == total_of(*old(self)),
            method_counts(*final(self)) == bump(method_counts(*old(self)), label@),
            method_counts(*final(self)).contains_key(label_hash(label@)),
            status_counts(*final(self)) == status_counts(*old(self)),
    {
        self.by_method.with_label_values(&[label]).inc()
    }

    /// Relies on prometheus's `IntCounterVec::with_label_values`, which finds
    /// the counter kept under the label's hash or creates it with that label,
    /// and `IntCounter::inc` on it.
    #[verifier::external_body]
    fn inc_status(&mut self, label: &str)
        ensures
            total_of(*final(self)) == total_of(*old(self)),
            method_counts(*final(self)) == method_counts(*old(self)),
            status_counts(*final(self)) == bump(status_counts(*old(self)), label@),
            status_counts(*final(self)).contains_key(label_hash(label@)),
    {
        self.by_status.with_label_values(&[label]).inc()
    }

    /// Relies on prometheus's `Registry::gather` and `TextEncoder::encode`:
    /// the text depends on the counter values alone, and encoding into a
    /// vector of UTF-8 text does not fail. The total counter has no label and
    /// is always gathered; its sample is written as its name, a space and its
    /// value as an `f64`, which shows an integer below 2^53 in plain decimal.
    #[verifier::external_body]
    fn encode_text(&self) -> (r: String)
        ensures
            r@ == exposition_of(total_of(*self), method_counts(*self), status_counts(*self)),
            total_of(*self) < 0x20_0000_0000_0000 ==> has_line(r@, total_line(total_of(*self))),
    {
        let mut buffer = Vec::new();
        TextEncoder::new().encode(&self.registry.gather(), &mut buffer).unwrap();
        String::from_utf8(buffer).unwrap()
    }

    /// Fresh counters, all at zero.
    pub fn new() -> (r: Metrics)
        ensures
            total_of(r) == 0,
            method_counts(r).dom().is_empty(),
            status_counts(r).dom().is_empty(),
    {
        create()
    }

    /// Counts one request with the given method.
    pub fn record_request(&mut self, method: &str)
        ensures
            total_of(*final(self)) == wrap_inc(total_of(*old(self))),
            method_counts(*final(self)) == bump(method_counts(*old(self)), method@),
            status_counts(*final(self)) == status_counts(*old(self)),
    {
        self.inc_total();
        self.inc_method(method);
    }

    /// Counts one response with the given status, labelled in decimal.
    pub fn record_response(&mut self, status: u16)
        ensures
            total_of(*final(self)) == total_of(*old(self)),
            method_counts(*final(self)) == method_counts(*old(self)),
            status_counts(*final(self)) == bump(status_counts(*old(self)), decimal(status as nat)),
    {
        let label = decimal_text(status);
        self.inc_status(label.as_str());
    }

    /// The counters in the prometheus text exposition format; it holds the
    /// line `argus_total_requests <total>`.
    pub fn export(&self) -> (r: String)
        ensures
            r@ == exposition_of(total_of(*self), method_counts(*self), status_counts(*self)),
            total_of(*self) < 0x20_0000_0000_0000 ==> has_line(r@, total_line(total_of(*self))),
    {
        self.encode_text()
    }
}

/// How many entries of `ms` equal `k`.
pub open spec fn occurrences(ms: Seq<Seq<char>>, k: Seq<char>) -> nat
    decreases ms.len(),
{
    if ms.len() == 0 {
        0
    } else {
        occurrences(ms.drop_last(), k) + if ms.last() == k {
            1nat
        } else {
            0nat
        }
    }
}

/// How many entries of `ms` have the label hash `h`.
pub open spec fn hash_occurrences(ms: Seq<Seq<char>>, h: u64) -> nat
    decreases ms.len(),
{
    if ms.len() == 0 {
        0
    } else {
        hash_occurrences(ms.drop_last(), h) + if label_hash(ms.last()) == h {
            1nat
        } else {
            0nat
        }
    }
}

/// The total counter after `n` more requests.
pub open spec fn total_after(t: nat, n: nat) -> nat
    decreases n,
{
    if n == 0 {
        t
    } else {
        wrap_inc(total_after(t, (n - 1) as nat))
    }
}

/// The method counters after requests with the methods `ms`, in order.
pub open spec fn methods_after(m: Map<u64, (Seq<char>, nat)>, ms: Seq<Seq<char>>) -> Map<
    u64,
    (Seq<char>, nat),
>
    decreases ms.len(),
{
    if ms.len() == 0 {
        m
    } else {
        bump(methods_after(m, ms.drop_last()), ms.last())
    }
}

/// No method of `ms` other than `k` shares the label hash of `k`.
pub open spec fn no_collision(ms: Seq<Seq<char>>, k: Seq<char>) -> bool {
    forall|i: int| 0 <= i < ms.len() && label_hash(#[trigger] ms[i]) == label_hash(k) ==> ms[i] == k
}

proof fn lemma_occurrences_bound(ms: Seq<Seq<char>>)
    ensures
        forall|h: u64| #[trigger] hash_occurrences(ms, h) <= ms.len(),
    decreases ms.len(),
{
    if ms.len() > 0 {
        lemma_occurrences_bound(ms.drop_last());
        assert forall|h: u64| #[trigger] hash_occurrences(ms, h) <= ms.len() by {
            assert(hash_occurrences(ms.drop_last(), h) <= ms.drop_last().len());
        }
    }
}

proof fn lemma_hash_occurrences(ms: Seq<Seq<char>>, k: Seq<char>)
    requires
        no_collision(ms, k),
    ensures
        hash_occurrences(ms, label_hash(k)) == occurrences(ms, k),
    decreases ms.len(),
{
    if ms.len() > 0 {
        let rest = ms.drop_last();
        assert forall|i: int| 0 <= i < rest.len() && label_hash(#[trigger] rest[i]) == label_hash(k)
            implies rest[i] == k by {
            assert(rest[i] == ms[i]);
        }
        lemma_hash_occurrences(rest, k);
        assert(ms.last() == ms[ms.len() - 1]);
    }
}

/// From fresh counters, after a run of fewer than 2^64 requests the total
/// is the number of requests, and the counter of each method whose label
/// hash no other method of the run shares is the number of requests with
/// that method.
pub proof fn lemma_counts_match_requests(ms: Seq<Seq<char>>)
    requires
        ms.len() < 0x1_0000_0000_0000_0000,
    ensures
        total_after(0, ms.len()) == ms.len(),
        forall|h: u64| #[trigger]
            count_in(methods_after(Map::empty(), ms), h) == hash_occurrences(ms, h),
        forall|k: Seq<char>|
            no_collision(ms, k) ==> #[trigger] count_in(
                methods_after(Map::empty(), ms),
                label_hash(k),
            ) == occurrences(ms, k),
    decreases ms.len(),
{
    if ms.len() > 0 {
        let rest = ms.drop_last();
        lemma_counts_match_requests(rest);
        lemma_occurrences_bound(rest);
        assert forall|h: u64| #[trigger]
            count_in(methods_after(Map::empty(), ms), h) == hash_occurrences(ms, h) by {
            assert(count_in(methods_after(Map::empty(), rest), h) == hash_occurrences(rest, h));
            assert(hash_occurrences(rest, h) <= rest.len());
        }
    }
    assert forall|k: Seq<char>| no_collision(ms, k) implies #[trigger] count_in(
        methods_after(Map::empty(), ms),
        label_hash(k),
    ) == occurrences(ms, k) by {
        lemma_hash_occurrences(ms, k);
    }
}

/// `n` copies of `k`.
pub open spec fn repeat(k: Seq<char>, n: nat) -> Seq<Seq<char>> {
    Seq::new(n, |i: int| k)
}

/// Repeating one request `n` times, without reaching the counters' limit,
/// adds exactly `n` to the total and to its method's counter, and lowers no
/// counter.
pub proof fn lemma_repeated_request(
    t: nat,
    m: Map<u64, (Seq<char>, nat)>,
    k: Seq<char>,
    n: nat,
)
    requires
        t + n < 0x1_0000_0000_0000_0000,
        count_in(m, label_hash(k)) + n < 0x1_0000_0000_0000_0000,
    ensures
        total_after(t, n) == t + n,
        count_in(methods_after(m, repeat(k, n)), label_hash(k)) == count_in(m, label_hash(k)) + n,
        forall|h: u64| #[trigger] count_in(methods_after(m, repeat(k, n)), h) >= count_in(m, h),
    decreases n,
{
    if n > 0 {
        let rest = repeat(k, (n - 1) as nat);
        assert(repeat(k, n).drop_last() =~= rest);
        lemma_repeated_request(t, m, k, (n - 1) as nat);
        assert forall|h: u64| #[trigger] count_in(methods_after(m, repeat(k, n)), h) >= count_in(
            m,
            h,
        ) by {
            assert(count_in(methods_after(m, rest), h) >= count_in(m, h));
        }
    }
}

/// Each state of `states` is what one call of `handle` with metrics enabled
/// leaves of the one before: the total, the counter of the request's method
/// (`methods[i]`) and the counter of the response status label `status` each
/// go up by one.
pub open spec fn handled_run(states: Seq<Metrics>, methods: Seq<Seq<char>>, status: Seq<char>) -> bool {
    &&& states.len() == methods.len() + 1
    &&& forall|i: int|
        0 <= i < methods.len() ==> {
            &&& total_of(#[trigger] states[i + 1]) == wrap_inc(total_of(states[i]))
            &&& method_counts(states[i + 1]) == bump(method_counts(states[i]), methods[i])
            &&& status_counts(states[i + 1]) == bump(status_counts(states[i]), status)
        }
}

proof fn lemma_run_prefix(states: Seq<Metrics>, methods: Seq<Seq<char>>, status: Seq<char>, j: int)
    requires
        handled_run(states, methods, status),
        0 <= j <= methods.len(),
    ensures
        total_of(states[j]) == total_after(total_of(states[0]), j as nat),
        method_counts(states[j]) == methods_after(method_counts(states[0]), methods.subrange(0, j)),
        status_counts(states[j]) == methods_after(status_counts(states[0]), repeat(status, j as nat)),
    decreases j,
{
    if j == 0 {
        assert(methods.subrange(0, 0) =~= Seq::<Seq<char>>::empty());
        assert(repeat(status, 0) =~= Seq::<Seq<char>>::empty());
    } else {
        lemma_run_prefix(states, methods, status, j - 1);
        assert(methods.subrange(0, j).drop_last() =~= methods.subrange(0, j - 1));
        assert(repeat(status, j as nat).drop_last() =~= repeat(status, (j - 1) as nat));
        let k = j - 1;
        assert(total_of(states[k + 1]) == wrap_inc(total_of(states[k])));
    }
}

/// After a run of fewer than 2^64 handled requests from fresh counters, the
/// total is the number of requests, and the counter of each method that
/// shares its label hash with no other method of the run is the number of
/// requests with that method.
pub proof fn lemma_run_from_fresh(states: Seq<Metrics>, methods: Seq<Seq<char>>, status: Seq<char>)
    requires
        handled_run(states, methods, status),
        total_of(states[0]) == 0,
        method_counts(states[0]).dom().is_empty(),
        methods.len() < 0x1_0000_0000_0000_0000,
    ensures
        total_of(states.last()) == methods.len(),
        forall|k: Seq<char>|
            no_collision(methods, k) ==> #[trigger] count_in(
                method_counts(states.last()),
                label_hash(k),
            ) == occurrences(methods, k),
{
    let n = methods.len() as int;
    lemma_run_prefix(states, methods, status, n);
    assert(methods.subrange(0, n) =~= methods);
    assert(method_counts(states[0]) =~= Map::empty());
    lemma_counts_match_requests(methods);
}

/// Handling one request `n` times, with no counter reaching its limit, adds
/// exactly `n` to the total, to the counter of its method and to the counter
/// of its status, and lowers no counter.
pub proof fn lemma_repeated_run(states: Seq<Metrics>, method: Seq<char>, status: Seq<char>, n: nat)
    requires
        handled_run(states, repeat(method, n), status),
        total_of(states[0]) + n < 0x1_0000_0000_0000_0000,
        count_in(method_counts(states[0]), label_hash(method)) + n < 0x1_0000_0000_0000_0000,
        count_in(status_counts(states[0]), label_hash(status)) + n < 0x1_0000_0000_0000_0000,
    ensures
        total_of(states.last()) == total_of(states[0]) + n,
        count_in(method_counts(states.last()), label_hash(method)) == count_in(
            method_counts(states[0]),
            label_hash(method),
        ) + n,
        count_in(status_counts(states.last()), label_hash(status)) == count_in(
            status_counts(states[0]),
            label_hash(status),
        ) + n,
        forall|h: u64|
            #[trigger] count_in(method_counts(states.last()), h) >= count_in(method_counts(states[0]), h),
        forall|h: u64|
            #[trigger] count_in(status_counts(states.last()), h) >= count_in(status_counts(states[0]), h),
{
    let ms = repeat(method, n);
    lemma_run_prefix(states, ms, status, n as int);
    assert(ms.subrange(0, n as int) =~= ms);
    lemma_repeated_request(total_of(states[0]), method_counts(states[0]), method, n);
    lemma_repeated_request(total_of(states[0]), status_counts(states[0]), status, n);
}

} // verus!
