//! What a statistics block written from known fields parses back to.
use vstd::prelude::*;
use crate::number::{decimal, lemma_u64_of_decimal};
use crate::response::{scan_fields, stats_anchors, stats_fields, stats_head, stats_parses, Stats};
use crate::text::find_from;

verus! {

/// Each field followed by its anchor, in order.
pub open spec fn interleave(fs: Seq<Seq<char>>, pats: Seq<Seq<char>>) -> Seq<char>
    decreases pats.len(),
{
    if pats.len() == 0 || fs.len() == 0 {
        seq![]
    } else {
        fs[0] + pats[0] + interleave(fs.drop_first(), pats.drop_first())
    }
}

/// In `f` followed by `a`, the first occurrence of `a` is the one at the end:
/// the field does not hold the anchor that ends it, not even in part across
/// the boundary.
pub open spec fn ends_at_anchor(f: Seq<char>, a: Seq<char>) -> bool {
    find_from(f + a, a, 0) == Some(f.len() as int)
}

/// A statistics block: its head, then each field followed by its anchor,
/// then anything.
pub open spec fn stats_block(fields: Seq<Seq<char>>, tail: Seq<char>) -> Seq<char> {
    stats_head() + interleave(fields, stats_anchors()) + tail
}

/// A search that succeeds within `y` finds the same place within any text
/// that holds `y`.
proof fn lemma_find_in_context(x: Seq<char>, y: Seq<char>, t: Seq<char>, a: Seq<char>, k: int)
    requires
        0 <= k <= y.len(),
        find_from(y, a, k) is Some,
    ensures
        find_from(x + y + t, a, x.len() + k) == Some(x.len() + find_from(y, a, k)->Some_0),
    decreases y.len() + 1 - k,
{
    let s = x + y + t;
    assert(k + a.len() <= y.len());
    assert(s.subrange(x.len() + k, x.len() + k + a.len()) =~= y.subrange(k, k + a.len()));
    if y.subrange(k, k + a.len()) != a {
        lemma_find_in_context(x, y, t, a, k + 1);
    }
}

proof fn lemma_scan_interleaved(x: Seq<char>, fs: Seq<Seq<char>>, pats: Seq<Seq<char>>, t: Seq<char>)
    requires
        fs.len() == pats.len(),
        forall|i: int| 0 <= i < fs.len() ==> ends_at_anchor(#[trigger] fs[i], pats[i]),
    ensures
        scan_fields(x + interleave(fs, pats) + t, x.len() as int, pats) == Some(fs),
    decreases pats.len(),
{
    let s = x + interleave(fs, pats) + t;
    if pats.len() == 0 {
        assert(fs =~= Seq::<Seq<char>>::empty());
    } else {
        let y = fs[0] + pats[0];
        let rest = interleave(fs.drop_first(), pats.drop_first());
        assert(ends_at_anchor(fs[0], pats[0]));
        assert(s =~= x + y + (rest + t));
        lemma_find_in_context(x, y, rest + t, pats[0], 0);
        let x2 = x + y;
        assert(s =~= x2 + rest + t);
        assert forall|i: int| 0 <= i < fs.drop_first().len() implies ends_at_anchor(
            #[trigger] fs.drop_first()[i],
            pats.drop_first()[i],
        ) by {
            assert(ends_at_anchor(fs[i + 1], pats[i + 1]));
        }
        lemma_scan_interleaved(x2, fs.drop_first(), pats.drop_first(), t);
        assert(s.subrange(x.len() as int, (x.len() + fs[0].len()) as int) =~= fs[0]);
        assert(seq![fs[0]] + fs.drop_first() =~= fs);
    }
}

/// A block written from sixteen field texts, none of which holds the
/// anchor that follows it, yields exactly those texts.
pub proof fn stats_fields_round_trip(fields: Seq<Seq<char>>, tail: Seq<char>)
    requires
        fields.len() == 16,
        forall|i: int| 0 <= i < 16 ==> ends_at_anchor(#[trigger] fields[i], stats_anchors()[i]),
    ensures
        stats_fields(stats_block(fields, tail)) == Some(fields),
{
    let b = stats_block(fields, tail);
    assert(b.take(stats_head().len() as int) =~= stats_head());
    lemma_scan_interleaved(stats_head(), fields, stats_anchors(), tail);
}

/// The field texts of a block written from `st`: its numbers in decimal,
/// its texts as they are, and the two texts that the block skips.
pub open spec fn fields_of(st: Stats, skipped: Seq<char>, pool_count: Seq<char>) -> Seq<
    Seq<char>,
> {
    seq![
        decimal(st.pools as nat), st.state@, decimal(st.threads_live as nat),
        decimal(st.threads_idle as nat), decimal(st.threads_max as nat),
        decimal(st.threads_idle_timeout_secs as nat), decimal(st.queue as nat), skipped,
        st.mem_heap@, st.mem_mmap@, st.mem_used@, st.mem_free@, st.mem_releasable@, pool_count,
        st.pools_used@, st.pools_total@,
    ]
}

/// The fourteen fields of two records agree.
pub open spec fn same_fields(a: Stats, b: Stats) -> bool {
    &&& a.pools == b.pools
    &&& a.state@ == b.state@
    &&& a.threads_live == b.threads_live
    &&& a.threads_idle == b.threads_idle
    &&& a.threads_max == b.threads_max
    &&& a.threads_idle_timeout_secs == b.threads_idle_timeout_secs
    &&& a.queue == b.queue
    &&& a.mem_heap@ == b.mem_heap@
    &&& a.mem_mmap@ == b.mem_mmap@
    &&& a.mem_used@ == b.mem_used@
    &&& a.mem_free@ == b.mem_free@
    &&& a.mem_releasable@ == b.mem_releasable@
    &&& a.pools_used@ == b.pools_used@
    &&& a.pools_total@ == b.pools_total@
}

/// A well-formed block written from a record parses, and every record that
/// it parses to has the fourteen fields of the one it was written from.
pub proof fn stats_round_trip(st: Stats, skipped: Seq<char>, pool_count: Seq<char>, tail: Seq<char>)
    requires
        forall|i: int|
            0 <= i < 16 ==> ends_at_anchor(
                #[trigger] fields_of(st, skipped, pool_count)[i],
                stats_anchors()[i],
            ),
    ensures
        stats_parses(stats_block(fields_of(st, skipped, pool_count), tail)),
        st.is_parse_of(stats_block(fields_of(st, skipped, pool_count), tail)),
        forall|other: Stats|
            #[trigger] other.is_parse_of(stats_block(fields_of(st, skipped, pool_count), tail))
                ==> same_fields(other, st),
{
    let f = fields_of(st, skipped, pool_count);
    stats_fields_round_trip(f, tail);
    lemma_u64_of_decimal(st.pools);
    lemma_u64_of_decimal(st.threads_live);
    lemma_u64_of_decimal(st.threads_idle);
    lemma_u64_of_decimal(st.threads_max);
    lemma_u64_of_decimal(st.threads_idle_timeout_secs);
    lemma_u64_of_decimal(st.queue);
}

} // verus!
