//! Address ranges: listing their addresses and cutting them into chunks.

use vstd::prelude::*;
use crate::address::{address_of, dotted, format_address, parse_address};

verus! {

/// The addresses from `start` to `end`, both included, in ascending order.
/// There are none where `start` is above `end`.
pub open spec fn addresses(start: u32, end: u32) -> Seq<u32> {
    if start <= end {
        Seq::new((end - start + 1) as nat, |i: int| (start + i) as u32)
    } else {
        Seq::empty()
    }
}

/// The number of addresses in the range from `start` to `end`.
pub open spec fn range_total(start: u32, end: u32) -> int {
    end - start + 1
}

/// The number of addresses in each chunk but the last, for a range of `total`
/// addresses and a requested number of chunks: the whole range where more
/// chunks are asked for than there are addresses, else the quotient of the two.
pub open spec fn chunk_len(total: int, chunksize: int) -> int {
    if chunksize > total {
        total
    } else {
        total / chunksize
    }
}

/// The number of chunks that a range of `total` addresses is cut into.
pub open spec fn chunk_count(total: int, chunksize: int) -> int {
    let len = chunk_len(total, chunksize);
    (total + len - 1) / len
}

/// The first address of chunk `i`.
pub open spec fn chunk_start(start: u32, end: u32, chunksize: int, i: int) -> int {
    start + i * chunk_len(range_total(start, end), chunksize)
}

/// The last address of chunk `i`: the chunk is full, or it ends where the range ends.
pub open spec fn chunk_end(start: u32, end: u32, chunksize: int, i: int) -> int {
    let full = start + (i + 1) * chunk_len(range_total(start, end), chunksize) - 1;
    if full < end {
        full
    } else {
        end as int
    }
}

/// Calls `ipnet::Ipv4AddrRange::new` and collects what the iterator yields,
/// each address as its 32-bit value. The iterator yields every address from
/// `start_ip` to `end_ip`, both included, in ascending order, and nothing
/// where `start_ip` is above `end_ip`; the contract says so and is not proved.
#[verifier::external_body]
pub fn create_ipv4_range(start_ip: u32, end_ip: u32) -> (hosts: Vec<u32>)
    ensures
        hosts@ == addresses(start_ip, end_ip),
{
    ipnet::Ipv4AddrRange::new(start_ip.into(), end_ip.into()).map(u32::from).collect()
}

/// Lists, as dotted-decimal texts, the addresses of a range given by the texts
/// of its two ends.
pub fn create_ip_from_range(range_ip: (String, String)) -> (ip_list: Vec<String>)
    requires
        address_of(range_ip.0@) is Some,
        address_of(range_ip.1@) is Some,
    ensures
        ip_list@.len() == addresses(address_of(range_ip.0@)->0, address_of(range_ip.1@)->0).len(),
        forall|i: int|
            0 <= i < ip_list@.len() ==> (#[trigger] ip_list@[i])@ == dotted(
                addresses(address_of(range_ip.0@)->0, address_of(range_ip.1@)->0)[i],
            ),
{
    let mut ip_list: Vec<String> = Vec::new();
    let start: u32 = parse_address(range_ip.0.as_str()).unwrap();
    let end: u32 = parse_address(range_ip.1.as_str()).unwrap();
    let mut current: u64 = start as u64;
    while current <= end as u64
        invariant
            start <= current <= end + 1 || (start > end && current == start),
            ip_list@.len() == current - start,
            forall|i: int|
                0 <= i < ip_list@.len() ==> (#[trigger] ip_list@[i])@ == dotted((start + i) as u32),
        decreases end + 1 - current,
    {
        ip_list.push(format_address(current as u32));
        current = current + 1;
    }
    ip_list
}

/// For a divisor above zero, `i` full steps stay below `total` exactly while
/// `i` is below the rounded-up quotient.
proof fn lemma_steps_below(total: int, len: int, i: int)
    requires
        total >= 1,
        len >= 1,
        i >= 0,
    ensures
        (i * len < total) <==> (i < (total + len - 1) / len),
{
    let q = (total + len - 1) / len;
    let r = (total + len - 1) % len;
    assert(total + len - 1 == q * len + r && 0 <= r < len) by (nonlinear_arith)
        requires
            q == (total + len - 1) / len,
            r == (total + len - 1) % len,
            len >= 1,
    ;
    if i < q {
        assert(i * len <= (q - 1) * len) by (nonlinear_arith)
            requires
                i <= q - 1,
                len >= 1,
        ;
        assert((q - 1) * len == q * len - len) by (nonlinear_arith);
    } else {
        assert(i * len >= q * len) by (nonlinear_arith)
            requires
                i >= q,
                len >= 1,
        ;
    }
}

/// Cuts the range from `start_ip` to `end_ip` into chunks, each given by the
/// dotted-decimal texts of its first and last address, in ascending order, and
/// returns with them the number of addresses in the range. `chunksize` is the
/// number of chunks asked for: each chunk holds the range's size divided by
/// it, rounded down, and the last chunk holds what is left. Where `chunksize`
/// is above the range's size, the one chunk is the whole range.
pub fn split_ip_range(start_ip: u32, end_ip: u32, chunksize: usize) -> (r: (
    Vec<(String, String)>,
    u64,
))
    requires
        start_ip <= end_ip,
        chunksize > 0,
    ensures
        r.1 == range_total(start_ip, end_ip),
        r.0@.len() == chunk_count(range_total(start_ip, end_ip), chunksize as int),
        r.0@.len() >= 1,
        forall|i: int|
            0 <= i < r.0@.len() ==> {
                &&& (#[trigger] r.0@[i]).0@ == dotted(
                    chunk_start(start_ip, end_ip, chunksize as int, i) as u32,
                )
                &&& r.0@[i].1@ == dotted(chunk_end(start_ip, end_ip, chunksize as int, i) as u32)
            },
{
    let mut ranges: Vec<(String, String)> = Vec::new();
    let total_ips: u64 = (end_ip - start_ip) as u64 + 1;
    let ghost total = range_total(start_ip, end_ip);
    let ghost len = chunk_len(total, chunksize as int);
    if chunksize as u64 > total_ips {
        ranges.push((format_address(start_ip), format_address(end_ip)));
        proof {
            assert(len == total);
            assert((total + total - 1) / total == 1) by (nonlinear_arith)
                requires
                    total >= 1,
            ;
            assert(0 * len == 0 && 1 * len == len) by (nonlinear_arith);
        }
        return (ranges, total_ips);
    }
    let chunk_size: u64 = total_ips / (chunksize as u64);
    proof {
        assert(total / (chunksize as int) >= 1) by (nonlinear_arith)
            requires
                total >= chunksize,
                chunksize >= 1,
        ;
        assert(total / (chunksize as int) <= total) by (nonlinear_arith)
            requires
                total >= chunksize,
                chunksize >= 1,
        ;
        assert(0 * len == 0) by (nonlinear_arith);
    }
    let mut current: u64 = start_ip as u64;
    while current <= end_ip as u64
        invariant
            start_ip <= end_ip,
            total == range_total(start_ip, end_ip),
            len == chunk_len(total, chunksize as int),
            chunk_size == len,
            1 <= len <= total,
            ranges@.len() * len >= 0,
            ranges@.len() > 0 ==> start_ip + (ranges@.len() - 1) * len <= end_ip,
            current == if start_ip + ranges@.len() * len <= end_ip {
                start_ip + ranges@.len() * len
            } else {
                end_ip + 1
            },
            forall|i: int|
                0 <= i < ranges@.len() ==> {
                    &&& (#[trigger] ranges@[i]).0@ == dotted(
                        chunk_start(start_ip, end_ip, chunksize as int, i) as u32,
                    )
                    &&& ranges@[i].1@ == dotted(
                        chunk_end(start_ip, end_ip, chunksize as int, i) as u32,
                    )
                },
        decreases end_ip + 1 - current,
    {
        let ghost i = ranges@.len() as int;
        let last: u64 = if end_ip as u64 - current < chunk_size {
            end_ip as u64
        } else {
            current + chunk_size - 1
        };
        proof {
            assert((i + 1) * len == i * len + len) by (nonlinear_arith);
            assert((i + 1 - 1) * len == i * len) by (nonlinear_arith);
            assert(current == chunk_start(start_ip, end_ip, chunksize as int, i));
            assert(last == chunk_end(start_ip, end_ip, chunksize as int, i));
        }
        ranges.push((format_address(current as u32), format_address(last as u32)));
        current = last + 1;
    }
    proof {
        let n = ranges@.len() as int;
        lemma_steps_below(total, len, n);
        if n > 0 {
            lemma_steps_below(total, len, n - 1);
            assert((n - 1) * len + len == n * len) by (nonlinear_arith);
        }
    }
    (ranges, total_ips)
}

/// Whether chunk `i` of the range holds the address `a`.
pub open spec fn chunk_holds(start: u32, end: u32, chunksize: int, i: int, a: int) -> bool {
    chunk_start(start, end, chunksize, i) <= a <= chunk_end(start, end, chunksize, i)
}

/// Whether some chunk of the range holds the address `a`.
pub open spec fn covered(start: u32, end: u32, chunksize: int, a: int) -> bool {
    exists|i: int|
        0 <= i < chunk_count(range_total(start, end), chunksize) && #[trigger] chunk_holds(
            start,
            end,
            chunksize,
            i,
            a,
        )
}

/// One chunk lies inside the range, is not empty, and is followed at once by
/// the next one; the last one ends where the range ends.
pub proof fn lemma_chunk_bounds(start: u32, end: u32, chunksize: int, i: int)
    requires
        start <= end,
        chunksize >= 1,
        0 <= i < chunk_count(range_total(start, end), chunksize),
    ensures
        start <= chunk_start(start, end, chunksize, i) <= chunk_end(start, end, chunksize, i)
            <= end,
        i == 0 ==> chunk_start(start, end, chunksize, i) == start,
        i + 1 < chunk_count(range_total(start, end), chunksize) ==> chunk_end(
            start,
            end,
            chunksize,
            i,
        ) + 1 == chunk_start(start, end, chunksize, i + 1),
        i + 1 == chunk_count(range_total(start, end), chunksize) ==> chunk_end(
            start,
            end,
            chunksize,
            i,
        ) == end,
{
    let total = range_total(start, end);
    let len = chunk_len(total, chunksize);
    lemma_chunk_len_bounds(total, chunksize);
    lemma_steps_below(total, len, i);
    lemma_steps_below(total, len, i + 1);
    assert((i + 1) * len == i * len + len) by (nonlinear_arith);
    assert(i * len >= 0) by (nonlinear_arith)
        requires
            i >= 0,
            len >= 1,
    ;
    assert(i == 0 ==> i * len == 0) by (nonlinear_arith);
}

/// The number of chunks is the least number of full chunks that hold the
/// whole range.
pub proof fn lemma_chunk_count_is(total: int, chunksize: int, n: int)
    requires
        total >= 1,
        chunksize >= 1,
        n >= 1,
        (n - 1) * chunk_len(total, chunksize) < total <= n * chunk_len(total, chunksize),
    ensures
        chunk_count(total, chunksize) == n,
{
    let len = chunk_len(total, chunksize);
    lemma_chunk_len_bounds(total, chunksize);
    lemma_steps_below(total, len, n - 1);
    lemma_steps_below(total, len, n);
}

/// A chunk holds at least one address and at most the whole range.
pub proof fn lemma_chunk_len_bounds(total: int, chunksize: int)
    requires
        total >= 1,
        chunksize >= 1,
    ensures
        1 <= chunk_len(total, chunksize) <= total,
{
    if chunksize <= total {
        assert(1 <= total / chunksize <= total) by (nonlinear_arith)
            requires
                1 <= chunksize <= total,
        ;
    }
}

/// The chunks of a range part it: there is at least one, they come in
/// ascending order, the first starts where the range starts, each next one
/// starts right after the one before it ends, and the last ends where the
/// range ends. So every address of the range lies in exactly one chunk, and
/// no chunk holds an address outside the range.
pub proof fn lemma_chunks_partition(start: u32, end: u32, chunksize: int)
    requires
        start <= end,
        chunksize >= 1,
    ensures
        chunk_count(range_total(start, end), chunksize) >= 1,
        chunk_start(start, end, chunksize, 0) == start,
        chunk_end(
            start,
            end,
            chunksize,
            chunk_count(range_total(start, end), chunksize) - 1,
        ) == end,
        forall|i: int|
            0 <= i < chunk_count(range_total(start, end), chunksize) ==> start <= (
            #[trigger] chunk_start(start, end, chunksize, i)) <= chunk_end(
                start,
                end,
                chunksize,
                i,
            ) <= end,
        forall|i: int|
            0 <= i < chunk_count(range_total(start, end), chunksize) - 1 ==> (#[trigger] chunk_end(
                start,
                end,
                chunksize,
                i,
            )) + 1 == chunk_start(start, end, chunksize, i + 1),
        forall|a: int| start <= a <= end ==> #[trigger] covered(start, end, chunksize, a),
        forall|i: int, j: int, a: int|
            0 <= i < chunk_count(range_total(start, end), chunksize) && 0 <= j < chunk_count(
                range_total(start, end),
                chunksize,
            ) && #[trigger] chunk_holds(start, end, chunksize, i, a) && #[trigger] chunk_holds(
                start,
                end,
                chunksize,
                j,
                a,
            ) ==> i == j,
{
    let total = range_total(start, end);
    let len = chunk_len(total, chunksize);
    let count = chunk_count(total, chunksize);
    lemma_chunk_len_bounds(total, chunksize);
    lemma_steps_below(total, len, 0);
    assert(0 * len == 0) by (nonlinear_arith);
    lemma_chunk_bounds(start, end, chunksize, 0);
    lemma_chunk_bounds(start, end, chunksize, count - 1);
    assert forall|i: int| 0 <= i < count implies start <= (#[trigger] chunk_start(
        start,
        end,
        chunksize,
        i,
    )) <= chunk_end(start, end, chunksize, i) <= end by {
        lemma_chunk_bounds(start, end, chunksize, i);
    }
    assert forall|i: int| 0 <= i < count - 1 implies (#[trigger] chunk_end(
        start,
        end,
        chunksize,
        i,
    )) + 1 == chunk_start(start, end, chunksize, i + 1) by {
        lemma_chunk_bounds(start, end, chunksize, i);
    }
    assert forall|a: int| start <= a <= end implies #[trigger] covered(
        start,
        end,
        chunksize,
        a,
    ) by {
        let i = (a - start) / len;
        assert(i * len <= a - start < i * len + len && i >= 0) by (nonlinear_arith)
            requires
                i == (a - start) / len,
                a - start >= 0,
                len >= 1,
        ;
        assert((i + 1) * len == i * len + len) by (nonlinear_arith);
        lemma_steps_below(total, len, i);
        assert(chunk_holds(start, end, chunksize, i, a));
    }
    assert forall|i: int, j: int, a: int|
        0 <= i < count && 0 <= j < count && #[trigger] chunk_holds(start, end, chunksize, i, a)
            && #[trigger] chunk_holds(start, end, chunksize, j, a) implies i == j by {
        if i < j {
            assert((i + 1) * len <= j * len) by (nonlinear_arith)
                requires
                    i + 1 <= j,
                    len >= 1,
            ;
        }
        if j < i {
            assert((j + 1) * len <= i * len) by (nonlinear_arith)
                requires
                    j + 1 <= i,
                    len >= 1,
            ;
        }
    }
}

/// Where more chunks are asked for than the range has addresses, the one
/// chunk is the whole range.
pub proof fn lemma_oversized_request_gives_one_chunk(start: u32, end: u32, chunksize: int)
    requires
        start <= end,
        chunksize > range_total(start, end),
    ensures
        chunk_count(range_total(start, end), chunksize) == 1,
        chunk_start(start, end, chunksize, 0) == start,
        chunk_end(start, end, chunksize, 0) == end,
{
    let total = range_total(start, end);
    assert((total + total - 1) / total == 1) by (nonlinear_arith)
        requires
            total >= 1,
    ;
    assert(0 * total == 0 && 1 * total == total) by (nonlinear_arith);
}

} // verus!
