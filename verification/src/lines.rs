//! The line model: which byte positions of a file start a line.
//!
//! A line starts at position 0 of a file that is not empty, and after every
//! line feed that is not the file's last byte. A line runs up to the next
//! start, or to the end of the file.

use vstd::prelude::*;

verus! {

/// The line feed byte.
pub const LINE_FEED: u8 = 0x0A;

/// Whether a line of `data` starts at position `p`.
pub open spec fn is_line_start(data: Seq<u8>, p: int) -> bool {
    0 <= p < data.len() && (p == 0 || data[p - 1] == LINE_FEED)
}

/// The line starts of `data` below position `n`, in increasing order.
pub open spec fn line_starts_before(data: Seq<u8>, n: int) -> Seq<u64>
    decreases n,
{
    if n <= 0 {
        Seq::empty()
    } else if is_line_start(data, n - 1) {
        line_starts_before(data, n - 1).push((n - 1) as u64)
    } else {
        line_starts_before(data, n - 1)
    }
}

/// All line starts of `data`, in increasing order.
pub open spec fn line_starts(data: Seq<u8>) -> Seq<u64> {
    line_starts_before(data, data.len() as int)
}

/// The number of line feeds among the first `n` bytes of `data`.
pub open spec fn line_feeds_before(data: Seq<u8>, n: int) -> nat
    decreases n,
{
    if n <= 0 {
        0
    } else if data[n - 1] == LINE_FEED {
        line_feeds_before(data, n - 1) + 1
    } else {
        line_feeds_before(data, n - 1)
    }
}

/// The number of lines of `data`: one for each line feed, and one more for
/// a last line that no line feed ends.
pub open spec fn line_count(data: Seq<u8>) -> nat {
    if data.len() > 0 && data.last() != LINE_FEED {
        line_feeds_before(data, data.len() as int) + 1
    } else {
        line_feeds_before(data, data.len() as int)
    }
}

/// Below `n` there is one line start for position 0 and one for every line
/// feed below `n - 1`.
proof fn lemma_starts_count(data: Seq<u8>, n: int)
    requires
        0 <= n <= data.len(),
    ensures
        n == 0 ==> line_starts_before(data, n).len() == 0,
        n > 0 ==> line_starts_before(data, n).len() == line_feeds_before(data, n - 1) + 1,
    decreases n,
{
    if n > 0 {
        lemma_starts_count(data, n - 1);
        if n == 1 {
            assert(line_starts_before(data, 0).len() == 0);
        }
    }
}

/// What `line_starts_before` holds: exactly the line starts below `n`, each
/// once, in increasing order.
pub proof fn lemma_starts_before(data: Seq<u8>, n: int)
    requires
        0 <= n <= data.len() <= u64::MAX,
    ensures
        forall|i: int|
            0 <= i < line_starts_before(data, n).len() ==> {
                &&& (#[trigger] line_starts_before(data, n)[i]) < n
                &&& is_line_start(data, line_starts_before(data, n)[i] as int)
            },
        forall|i: int, j: int|
            0 <= i < j < line_starts_before(data, n).len() ==> line_starts_before(data, n)[i]
                < line_starts_before(data, n)[j],
        forall|p: int|
            0 <= p < n && is_line_start(data, p) ==> line_starts_before(data, n).contains(
                p as u64,
            ),
        line_starts_before(data, n).len() <= n,
        n > 0 ==> line_starts_before(data, n).len() > 0 && line_starts_before(data, n)[0] == 0,
    decreases n,
{
    if n > 0 {
        lemma_starts_before(data, n - 1);
        let earlier = line_starts_before(data, n - 1);
        let now = line_starts_before(data, n);
        if is_line_start(data, n - 1) {
            assert(now == earlier.push((n - 1) as u64));
            assert(now[now.len() - 1] == (n - 1) as u64);
            assert forall|p: int| 0 <= p < n && is_line_start(data, p) implies now.contains(
                p as u64,
            ) by {
                if p < n - 1 {
                    let k = choose|k: int| 0 <= k < earlier.len() && earlier[k] == p as u64;
                    assert(now[k] == p as u64);
                } else {
                    assert(now[now.len() - 1] == p as u64);
                }
            }
        } else {
            assert(now == earlier);
            assert(n - 1 != 0);
        }
    }
}

/// The line starts of a file are as many as its lines, begin at 0 and
/// increase strictly; they are exactly the positions at which a line starts.
pub proof fn lemma_line_starts(data: Seq<u8>)
    requires
        data.len() <= u64::MAX,
    ensures
        line_starts(data).len() == line_count(data),
        data.len() > 0 ==> line_starts(data)[0] == 0,
        forall|i: int, j: int|
            0 <= i < j < line_starts(data).len() ==> line_starts(data)[i] < line_starts(data)[j],
        forall|i: int|
            0 <= i < line_starts(data).len() ==> is_line_start(
                data,
                (#[trigger] line_starts(data)[i]) as int,
            ),
        forall|p: int| is_line_start(data, p) ==> line_starts(data).contains(p as u64),
{
    let n = data.len() as int;
    lemma_starts_before(data, n);
    lemma_starts_count(data, n);
    if n > 0 {
        assert(data.last() == data[n - 1]);
        assert(line_feeds_before(data, n) == if data[n - 1] == LINE_FEED {
            line_feeds_before(data, n - 1) + 1
        } else {
            line_feeds_before(data, n - 1)
        });
    }
}

} // verus!
