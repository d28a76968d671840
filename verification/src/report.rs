//! Gathering the results of a sweep and putting them in order.

use vstd::prelude::*;
use vstd::seq_lib::*;
use crate::network_core::{PortScanResult, Status};

verus! {

/// The address that a result is about.
pub open spec fn address_at(s: Seq<PortScanResult>, i: int) -> u32 {
    s[i]@.ip_address
}

/// Whether the results come in ascending order of address.
pub open spec fn ascending(s: Seq<PortScanResult>) -> bool {
    forall|i: int, j: int| 0 <= i < j < s.len() ==> address_at(s, i) <= address_at(s, j)
}

/// Whether no two results are about one address.
pub open spec fn distinct_addresses(s: Seq<PortScanResult>) -> bool {
    forall|i: int, j: int| 0 <= i < j < s.len() ==> address_at(s, i) != address_at(s, j)
}

/// How many of the results say that the host is up.
pub open spec fn count_up(s: Seq<PortScanResult>) -> nat
    decreases s.len(),
{
    if s.len() == 0 {
        0
    } else if s[0]@.status == Status::Up {
        1 + count_up(s.drop_first())
    } else {
        count_up(s.drop_first())
    }
}

/// Where a result about `address` goes into `s`: before the first result
/// whose address is not below it.
pub open spec fn insert_index(s: Seq<PortScanResult>, address: u32) -> int
    decreases s.len(),
{
    if s.len() == 0 || s[0]@.ip_address >= address {
        0
    } else {
        1 + insert_index(s.drop_first(), address)
    }
}

/// The results in ascending order of address; results about one address keep
/// the order in which they came.
pub open spec fn sort_by_address(s: Seq<PortScanResult>) -> Seq<PortScanResult>
    decreases s.len(),
{
    if s.len() == 0 {
        s
    } else {
        let rest = sort_by_address(s.drop_first());
        rest.insert(insert_index(rest, s[0]@.ip_address), s[0])
    }
}

/// The report of a sweep: the results in ascending order of address, how many
/// hosts were scanned and how many of them are up.
#[derive(Debug, PartialEq, Eq)]
pub struct AggregateReport {
    pub results: Vec<PortScanResult>,
    pub total_scanned: usize,
    pub total_up: usize,
}

/// The place that `insert_index` names lies in the sequence, with only lower
/// addresses before it and none lower at it.
pub proof fn lemma_insert_index_bounds(s: Seq<PortScanResult>, address: u32)
    ensures
        0 <= insert_index(s, address) <= s.len(),
        forall|k: int| 0 <= k < insert_index(s, address) ==> address_at(s, k) < address,
        insert_index(s, address) < s.len() ==> address_at(s, insert_index(s, address)) >= address,
    decreases s.len(),
{
    if s.len() == 0 || s[0]@.ip_address >= address {
    } else {
        let t = s.drop_first();
        lemma_insert_index_bounds(t, address);
        assert forall|k: int| 0 <= k < insert_index(s, address) implies address_at(s, k)
            < address by {
            if k > 0 {
                assert(address_at(t, k - 1) == address_at(s, k));
            }
        }
        if insert_index(s, address) < s.len() {
            assert(address_at(t, insert_index(t, address)) == address_at(
                s,
                insert_index(s, address),
            ));
        }
    }
}

/// A place with only lower addresses before it and none lower at it is the
/// one that `insert_index` names.
pub proof fn lemma_insert_index_is(s: Seq<PortScanResult>, address: u32, j: int)
    requires
        0 <= j <= s.len(),
        forall|k: int| 0 <= k < j ==> address_at(s, k) < address,
        j < s.len() ==> address_at(s, j) >= address,
    ensures
        insert_index(s, address) == j,
    decreases s.len(),
{
    if s.len() == 0 {
    } else if j == 0 {
        assert(address_at(s, 0) >= address);
    } else {
        assert(address_at(s, 0) < address);
        let t = s.drop_first();
        assert forall|k: int| 0 <= k < j - 1 implies address_at(t, k) < address by {
            assert(address_at(t, k) == address_at(s, k + 1));
        }
        if j - 1 < t.len() {
            assert(address_at(t, j - 1) == address_at(s, j));
        }
        lemma_insert_index_is(t, address, j - 1);
    }
}

/// Putting one more result in leaves the count of hosts that are up as it
/// was, or adds one for a host that is up.
pub proof fn lemma_count_up_insert(s: Seq<PortScanResult>, j: int, r: PortScanResult)
    requires
        0 <= j <= s.len(),
    ensures
        count_up(s.insert(j, r)) == count_up(s) + if r@.status == Status::Up {
            1nat
        } else {
            0nat
        },
    decreases j,
{
    let t = s.insert(j, r);
    if j == 0 {
        assert(t[0] == r);
        assert(t.drop_first() =~= s);
    } else {
        assert(t[0] == s[0]);
        assert(t.drop_first() =~= s.drop_first().insert(j - 1, r));
        lemma_count_up_insert(s.drop_first(), j - 1, r);
    }
}

/// Sorting keeps every result, as often as it occurs, puts the results in
/// ascending order of address, and keeps the count of hosts that are up.
pub proof fn lemma_sort_by_address(s: Seq<PortScanResult>)
    ensures
        sort_by_address(s).to_multiset() == s.to_multiset(),
        sort_by_address(s).len() == s.len(),
        ascending(sort_by_address(s)),
        count_up(sort_by_address(s)) == count_up(s),
    decreases s.len(),
{
    if s.len() > 0 {
        let rest = sort_by_address(s.drop_first());
        let j = insert_index(rest, s[0]@.ip_address);
        let out = rest.insert(j, s[0]);
        lemma_sort_by_address(s.drop_first());
        lemma_insert_index_bounds(rest, s[0]@.ip_address);
        to_multiset_insert(rest, j, s[0]);
        to_multiset_insert(s.drop_first(), 0, s[0]);
        assert(s.drop_first().insert(0, s[0]) =~= s);
        lemma_count_up_insert(rest, j, s[0]);
        assert forall|a: int, b: int| 0 <= a < b < out.len() implies address_at(out, a)
            <= address_at(out, b) by {
            if a < j {
                assert(out[a] == rest[a]);
                assert(address_at(rest, a) < s[0]@.ip_address);
            } else if a > j {
                assert(out[a] == rest[a - 1]);
            }
            if b < j {
                assert(out[b] == rest[b]);
            } else if b > j {
                assert(out[b] == rest[b - 1]);
                assert(address_at(rest, j) <= address_at(rest, b - 1) || j == b - 1);
            }
            if a < j && b < j {
                assert(address_at(rest, a) <= address_at(rest, b));
            }
            if a > j && b > j {
                assert(address_at(rest, a - 1) <= address_at(rest, b - 1));
            }
        }
    }
}

/// What one of two sequences with the same content holds, the other holds too.
proof fn lemma_same_members(a: Seq<PortScanResult>, b: Seq<PortScanResult>, r: PortScanResult)
    requires
        a.to_multiset() == b.to_multiset(),
        a.contains(r),
    ensures
        b.contains(r),
{
    to_multiset_contains(a, r);
    to_multiset_contains(b, r);
}

/// Results about distinct addresses stay so in whatever order they come.
pub proof fn lemma_distinct_addresses_by_content(a: Seq<PortScanResult>, b: Seq<PortScanResult>)
    requires
        a.to_multiset() == b.to_multiset(),
        distinct_addresses(a),
    ensures
        distinct_addresses(b),
{
    broadcast use vstd::multiset::group_multiset_axioms;

    assert(a.no_duplicates()) by {
        assert forall|i: int, j: int| 0 <= i < a.len() && 0 <= j < a.len() && i != j implies a[i]
            != a[j] by {
            if i < j {
                assert(address_at(a, i) != address_at(a, j));
            } else {
                assert(address_at(a, j) != address_at(a, i));
            }
        }
    }
    a.lemma_multiset_has_no_duplicates();
    b.lemma_multiset_has_no_duplicates_conv();
    assert forall|i: int, j: int| 0 <= i < j < b.len() implies address_at(b, i) != address_at(
        b,
        j,
    ) by {
        assert(b.contains(b[i]) && b.contains(b[j]));
        lemma_same_members(b, a, b[i]);
        lemma_same_members(b, a, b[j]);
        let p = choose|p: int| 0 <= p < a.len() && a[p] == b[i];
        let q = choose|q: int| 0 <= q < a.len() && a[q] == b[j];
        assert(b[i] != b[j]);
        if p < q {
            assert(address_at(a, p) != address_at(a, q));
        } else {
            assert(address_at(a, q) != address_at(a, p));
        }
    }
}

/// Two ascending sequences of results about distinct addresses that hold the
/// same results are the same sequence.
pub proof fn lemma_ascending_unique(x: Seq<PortScanResult>, y: Seq<PortScanResult>)
    requires
        x.to_multiset() == y.to_multiset(),
        ascending(x),
        ascending(y),
        distinct_addresses(x),
        distinct_addresses(y),
    ensures
        x == y,
    decreases x.len(),
{
    broadcast use vstd::multiset::group_multiset_axioms;

    x.to_multiset_ensures();
    y.to_multiset_ensures();
    if x.len() == 0 {
        assert(x =~= y);
    } else {
        let n = x.len() as int;
        assert(y.len() == n);
        assert(x.contains(x[n - 1]) && y.contains(y[n - 1]));
        lemma_same_members(x, y, x[n - 1]);
        lemma_same_members(y, x, y[n - 1]);
        let p = choose|p: int| 0 <= p < n && y[p] == x[n - 1];
        let q = choose|q: int| 0 <= q < n && x[q] == y[n - 1];
        assert(address_at(y, p) == address_at(x, n - 1));
        assert(address_at(x, q) == address_at(y, n - 1));
        if p < n - 1 {
            assert(address_at(y, p) <= address_at(y, n - 1));
            assert(address_at(y, p) != address_at(y, n - 1));
            if q < n - 1 {
                assert(address_at(x, q) <= address_at(x, n - 1));
            }
            assert(false);
        }
        assert(x[n - 1] == y[n - 1]);
        assert(x.remove(n - 1) =~= x.drop_last());
        assert(y.remove(n - 1) =~= y.drop_last());
        assert(x.drop_last().to_multiset() == y.drop_last().to_multiset());
        assert forall|i: int, j: int| 0 <= i < j < n - 1 implies address_at(x.drop_last(), i)
            <= address_at(x.drop_last(), j) && address_at(x.drop_last(), i) != address_at(
            x.drop_last(),
            j,
        ) && address_at(y.drop_last(), i) <= address_at(y.drop_last(), j) && address_at(
            y.drop_last(),
            i,
        ) != address_at(y.drop_last(), j) by {
            assert(address_at(x, i) <= address_at(x, j) && address_at(x, i) != address_at(x, j));
            assert(address_at(y, i) <= address_at(y, j) && address_at(y, i) != address_at(y, j));
        }
        lemma_ascending_unique(x.drop_last(), y.drop_last());
        assert(x =~= x.drop_last().push(x[n - 1]));
        assert(y =~= y.drop_last().push(y[n - 1]));
    }
}

/// The report does not depend on the order in which the results came in:
/// two collections that hold the same results, each about an address of its
/// own, give the same sorted sequence and the same two counts.
pub proof fn lemma_aggregate_order_independent(a: Seq<PortScanResult>, b: Seq<PortScanResult>)
    requires
        a.to_multiset() == b.to_multiset(),
        distinct_addresses(a),
    ensures
        sort_by_address(a) == sort_by_address(b),
        a.len() == b.len(),
        count_up(a) == count_up(b),
{
    lemma_sort_by_address(a);
    lemma_sort_by_address(b);
    lemma_distinct_addresses_by_content(a, sort_by_address(a));
    lemma_distinct_addresses_by_content(a, sort_by_address(b));
    lemma_ascending_unique(sort_by_address(a), sort_by_address(b));
}

/// The report does not depend on which of two workers hands in its chunk
/// first: behind what was gathered before, the results of two chunks taken in
/// either order give the same sorted sequence and the same two counts.
pub proof fn lemma_chunk_order_independent(
    gathered: Seq<PortScanResult>,
    first: Seq<PortScanResult>,
    second: Seq<PortScanResult>,
)
    requires
        distinct_addresses(gathered + first + second),
    ensures
        sort_by_address(gathered + first + second) == sort_by_address(gathered + second + first),
        count_up(gathered + first + second) == count_up(gathered + second + first),
{
    let one = gathered + first + second;
    let other = gathered + second + first;
    lemma_multiset_commutative(gathered + first, second);
    lemma_multiset_commutative(gathered, first);
    lemma_multiset_commutative(gathered + second, first);
    lemma_multiset_commutative(gathered, second);
    assert(one.to_multiset() =~= other.to_multiset());
    lemma_aggregate_order_independent(one, other);
}

/// Puts the results of a sweep in ascending order of address and counts them.
pub fn aggregate(results: Vec<PortScanResult>) -> (report: AggregateReport)
    ensures
        report.results@ == sort_by_address(results@),
        report.total_scanned == results@.len(),
        report.total_up == count_up(results@),
        report.results@.len() == results@.len(),
        ascending(report.results@),
        report.results@.to_multiset() == results@.to_multiset(),
        report.total_up <= report.total_scanned,
{
    let ghost all = results@;
    let mut pending = results;
    let total_scanned = pending.len();
    let mut sorted: Vec<PortScanResult> = Vec::new();
    let mut total_up: usize = 0;
    proof {
        assert(all.subrange(all.len() as int, all.len() as int) =~= Seq::empty());
    }
    while pending.len() > 0
        invariant
            pending@.len() <= all.len(),
            all.len() == total_scanned,
            pending@ == all.take(pending@.len() as int),
            sorted@ == sort_by_address(all.subrange(pending@.len() as int, all.len() as int)),
            total_up == count_up(all.subrange(pending@.len() as int, all.len() as int)),
            sorted@.len() + pending@.len() == all.len(),
            total_up <= sorted@.len(),
        decreases pending@.len(),
    {
        let ghost k = pending@.len() as int;
        let result = pending.pop().unwrap();
        let address = result.ip_address();
        proof {
            let tail = all.subrange(k - 1, all.len() as int);
            assert(result == all[k - 1]);
            assert(tail[0] == result);
            assert(tail.drop_first() =~= all.subrange(k, all.len() as int));
            assert(pending@ =~= all.take(k - 1));
        }
        match result.status() {
            Status::Up => {
                total_up = total_up + 1;
            },
            Status::Down => {},
        }
        let mut j: usize = 0;
        while j < sorted.len() && sorted[j].ip_address() < address
            invariant
                j <= sorted@.len(),
                forall|i: int| 0 <= i < j ==> address_at(sorted@, i) < address,
            decreases sorted@.len() - j,
        {
            j = j + 1;
        }
        proof {
            lemma_insert_index_is(sorted@, address, j as int);
        }
        sorted.insert(j, result);
    }
    proof {
        assert(all.subrange(0, all.len() as int) =~= all);
        lemma_sort_by_address(all);
    }
    AggregateReport { results: sorted, total_scanned, total_up }
}

/// What a sweep has gathered so far: the result of every host that is done,
/// in the order of completion, and the number of progress signals given. A
/// signal is given once for each result taken in, so the two always agree.
#[derive(Debug)]
pub struct ScanCollector {
    results: Vec<PortScanResult>,
    signals: usize,
}

impl ScanCollector {
    #[verifier::type_invariant]
    spec fn inv(self) -> bool {
        self.signals == self.results@.len()
    }

    /// The results taken in so far, in the order in which they came.
    pub closed spec fn gathered(&self) -> Seq<PortScanResult> {
        self.results@
    }

    /// The number of progress signals given so far.
    pub closed spec fn signalled(&self) -> nat {
        self.signals as nat
    }

    /// A collector that holds nothing.
    pub fn new() -> (c: Self)
        ensures
            c.gathered() == Seq::<PortScanResult>::empty(),
            c.signalled() == 0,
    {
        ScanCollector { results: Vec::new(), signals: 0 }
    }

    /// Takes in the result of one host and gives one progress signal.
    pub fn record(self, result: PortScanResult) -> (next: Self)
        ensures
            next.gathered() == self.gathered().push(result),
            next.signalled() == self.signalled() + 1,
            next.signalled() == next.gathered().len(),
    {
        proof {
            use_type_invariant(&self);
        }
        let ScanCollector { results, signals } = self;
        let mut results = results;
        results.push(result);
        let signals = results.len();
        ScanCollector { results, signals }
    }

    /// Takes in the results of the hosts of one chunk, in their order, and
    /// gives one progress signal for each of them.
    pub fn record_chunk(self, chunk: Vec<PortScanResult>) -> (next: Self)
        ensures
            next.gathered() == self.gathered() + chunk@,
            next.signalled() == self.signalled() + chunk@.len(),
            next.signalled() == next.gathered().len(),
    {
        proof {
            use_type_invariant(&self);
        }
        let ScanCollector { results, signals } = self;
        let mut results = results;
        let mut chunk = chunk;
        results.append(&mut chunk);
        let signals = results.len();
        ScanCollector { results, signals }
    }

    /// The number of progress signals given so far: one for each result.
    pub fn progress(&self) -> (done: usize)
        ensures
            done == self.signalled(),
            done == self.gathered().len(),
    {
        proof {
            use_type_invariant(self);
        }
        self.signals
    }

    /// Ends the sweep: the report of all that was gathered. As many hosts are
    /// reported as scanned as progress signals were given.
    pub fn finish(self) -> (report: AggregateReport)
        ensures
            report.results@ == sort_by_address(self.gathered()),
            report.total_scanned == self.gathered().len(),
            report.total_scanned == self.signalled(),
            report.total_up == count_up(self.gathered()),
    {
        proof {
            use_type_invariant(&self);
        }
        aggregate(self.results)
    }
}

} // verus!
