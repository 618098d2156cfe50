//! How a file is split into byte ranges that are fetched in parallel, and
//! when a download goes through a single stream instead.

use vstd::prelude::*;

verus! {

/// The most connections one file is fetched over.
pub const MAX_PARTS: u64 = 8;

/// How a file is downloaded.
#[derive(Clone, Copy, Debug, PartialEq, Eq, Structural)]
pub enum Strategy {
    /// One request for the whole file.
    Single,
    /// The file is split into this many parts, fetched at once.
    Parallel { parts: u64 },
}

/// `parts` brought into `1..=MAX_PARTS`.
pub open spec fn clamp_parts(parts: u64) -> u64 {
    if parts < 1 {
        1
    } else if parts > MAX_PARTS {
        MAX_PARTS
    } else {
        parts
    }
}

/// The strategy for a file of `total` bytes (zero when its size is not
/// known) and the number of connections the user asked for.
pub open spec fn strategy_spec(total: u64, parts: u64) -> Strategy {
    if total == 0 || clamp_parts(parts) <= 1 {
        Strategy::Single
    } else {
        Strategy::Parallel { parts: clamp_parts(parts) }
    }
}

/// The connections asked for are used as they are: one stream for a file
/// of unknown size or a single connection, exactly the number asked for
/// between 2 and `MAX_PARTS`, and `MAX_PARTS` for any larger request.
pub proof fn lemma_strategy_uses_the_count_asked(total: u64, parts: u64)
    ensures
        total == 0 || parts <= 1 ==> strategy_spec(total, parts) == Strategy::Single,
        total > 0 && 2 <= parts <= MAX_PARTS ==> strategy_spec(total, parts) == (Strategy::Parallel { parts }),
        total > 0 && parts > MAX_PARTS ==> strategy_spec(total, parts) == (Strategy::Parallel { parts: MAX_PARTS }),
{
}

/// Chooses between one stream and parallel ranges: a file whose size is
/// unknown, or a request for a single connection, goes through one stream;
/// otherwise the connections asked for, at most `MAX_PARTS`, are used.
pub fn choose_strategy(total: u64, parts: u64) -> (r: Strategy)
    ensures
        r == strategy_spec(total, parts),
        total == 0 || parts <= 1 ==> r == Strategy::Single,
        total > 0 && 2 <= parts <= MAX_PARTS ==> r == (Strategy::Parallel { parts }),
        total > 0 && parts > MAX_PARTS ==> r == (Strategy::Parallel { parts: MAX_PARTS }),
{
    let p = if parts < 1 {
        1
    } else if parts > MAX_PARTS {
        MAX_PARTS
    } else {
        parts
    };
    if total == 0 || p <= 1 {
        Strategy::Single
    } else {
        Strategy::Parallel { parts: p }
    }
}

/// The inclusive byte range `start..=end` of one part.
#[derive(Clone, Copy, Debug, PartialEq, Eq, Structural)]
pub struct PartRange {
    pub start: u64,
    pub end: u64,
}

/// The number of parts: no more parts than bytes.
pub open spec fn part_count(total: nat, parts: nat) -> nat {
    if parts > total {
        total
    } else {
        parts
    }
}

/// The length of every part but the last.
pub open spec fn part_len(total: nat, parts: nat) -> nat {
    total / part_count(total, parts)
}

/// The first byte of part `i`.
pub open spec fn part_start(total: nat, parts: nat, i: nat) -> nat {
    i * part_len(total, parts)
}

/// The last byte of part `i`: the last part runs to the end of the file.
pub open spec fn part_end(total: nat, parts: nat, i: nat) -> int {
    if i + 1 == part_count(total, parts) {
        total - 1
    } else {
        (i + 1) * part_len(total, parts) - 1
    }
}

proof fn lemma_part_bounds(total: nat, parts: nat, i: nat)
    requires
        total > 0,
        parts > 0,
        i < part_count(total, parts),
    ensures
        part_len(total, parts) >= 1,
        part_start(total, parts, i) <= part_end(total, parts, i) < total,
        i + 1 < part_count(total, parts) ==> part_end(total, parts, i) + 1 == part_start(
            total,
            parts,
            i + 1,
        ),
{
    let n = part_count(total, parts);
    let len = part_len(total, parts);
    assert(n >= 1 && n <= total);
    assert(len >= 1) by (nonlinear_arith)
        requires
            n >= 1,
            n <= total,
            len == total / n,
    ;
    assert(n * len <= total) by (nonlinear_arith)
        requires
            n >= 1,
            len == total / n,
    ;
    assert((i + 1) * len <= n * len) by (nonlinear_arith)
        requires
            i + 1 <= n,
            len >= 1,
    ;
    assert((i + 1) * len == i * len + len) by (nonlinear_arith);
}

/// Splits a file of `total` bytes into `parts` ranges (no more ranges than
/// bytes): every range but the last holds `total / n` bytes, for `n` the
/// number of ranges, and the last runs to the end of the file.
pub fn plan_parts(total: u64, parts: u64) -> (r: Vec<PartRange>)
    requires
        total > 0,
        parts > 0,
    ensures
        r@.len() == part_count(total as nat, parts as nat),
        forall|i: int|
            0 <= i < r@.len() ==> {
                &&& #[trigger] r@[i].start == part_start(total as nat, parts as nat, i as nat)
                &&& r@[i].end == part_end(total as nat, parts as nat, i as nat)
            },
{
    let n = if parts > total {
        total
    } else {
        parts
    };
    let len = total / n;
    let mut r: Vec<PartRange> = Vec::new();
    let mut i: u64 = 0;
    while i < n
        invariant
            n == part_count(total as nat, parts as nat),
            len == part_len(total as nat, parts as nat),
            total > 0,
            parts > 0,
            i <= n,
            r@.len() == i,
            forall|j: int|
                0 <= j < i ==> {
                    &&& #[trigger] r@[j].start == part_start(total as nat, parts as nat, j as nat)
                    &&& r@[j].end == part_end(total as nat, parts as nat, j as nat)
                },
        decreases n - i,
    {
        proof {
            lemma_part_bounds(total as nat, parts as nat, i as nat);
            assert((i + 1) * len == i * len + len) by (nonlinear_arith);
        }
        let start = i * len;
        let end = if i == n - 1 {
            total - 1
        } else {
            (i + 1) * len - 1
        };
        r.push(PartRange { start, end });
        i = i + 1;
    }
    r
}

/// The bytes the ranges `rs` cover, counted range by range.
pub open spec fn covered(rs: Seq<PartRange>) -> int
    decreases rs.len(),
{
    if rs.len() == 0 {
        0
    } else {
        covered(rs.drop_last()) + (rs.last().end - rs.last().start + 1)
    }
}

/// The ranges that `plan_parts` makes split the file exactly: the first
/// starts at byte zero, each next one starts right after the previous one
/// ends, none is empty, the last ends at the file's last byte, and together
/// they cover `total` bytes.
pub proof fn lemma_plan_partitions(total: u64, parts: u64, rs: Seq<PartRange>)
    requires
        total > 0,
        parts > 0,
        rs.len() == part_count(total as nat, parts as nat),
        forall|i: int|
            0 <= i < rs.len() ==> {
                &&& #[trigger] rs[i].start == part_start(total as nat, parts as nat, i as nat)
                &&& rs[i].end == part_end(total as nat, parts as nat, i as nat)
            },
    ensures
        rs.len() >= 1,
        rs[0].start == 0,
        rs[rs.len() - 1].end == total - 1,
        forall|i: int| 0 <= i < rs.len() ==> #[trigger] rs[i].start <= rs[i].end,
        forall|i: int| 1 <= i < rs.len() ==> #[trigger] rs[i].start == rs[i - 1].end + 1,
        covered(rs) == total,
{
    let n = rs.len() as int;
    assert forall|i: int| 0 <= i < rs.len() implies #[trigger] rs[i].start <= rs[i].end by {
        lemma_part_bounds(total as nat, parts as nat, i as nat);
    }
    assert forall|i: int| 1 <= i < rs.len() implies #[trigger] rs[i].start == rs[i - 1].end
        + 1 by {
        lemma_part_bounds(total as nat, parts as nat, (i - 1) as nat);
        assert(rs[i - 1].start == part_start(total as nat, parts as nat, (i - 1) as nat));
    }
    assert(rs[0].start == 0) by {
        assert(0 * part_len(total as nat, parts as nat) == 0);
    }
    lemma_covered_prefix(rs, n);
    assert(rs.take(n) =~= rs);
}

proof fn lemma_covered_prefix(rs: Seq<PartRange>, k: int)
    requires
        1 <= k <= rs.len(),
        rs[0].start == 0,
        forall|i: int| 0 <= i < rs.len() ==> #[trigger] rs[i].start <= rs[i].end,
        forall|i: int| 1 <= i < rs.len() ==> #[trigger] rs[i].start == rs[i - 1].end + 1,
    ensures
        covered(rs.take(k)) == rs[k - 1].end + 1,
    decreases k,
{
    let t = rs.take(k);
    assert(t.drop_last() =~= rs.take(k - 1));
    assert(t.last() == rs[k - 1]);
    assert(covered(t) == covered(t.drop_last()) + (t.last().end - t.last().start + 1));
    if k > 1 {
        lemma_covered_prefix(rs, k - 1);
        assert(rs[k - 1].start == rs[k - 2].end + 1);
    } else {
        assert(rs.take(0) =~= Seq::<PartRange>::empty());
        assert(covered(Seq::<PartRange>::empty()) == 0);
    }
}

} // verus!

verus! {

/// A parallel download uses between two and `MAX_PARTS` connections, and
/// only for a file whose size is known; a single stream is chosen exactly
/// otherwise.
pub proof fn lemma_strategy_bounds(total: u64, parts: u64)
    ensures
        strategy_spec(total, parts) matches Strategy::Parallel { parts: p } ==> 2 <= p <= MAX_PARTS
            && total > 0,
        strategy_spec(total, parts) is Single <==> (total == 0 || parts <= 1),
{
}

} // verus!
