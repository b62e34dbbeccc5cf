//! Ordering by start line: what the serializer does to a chunk list before
//! it writes it.

use vstd::prelude::*;
use crate::chunk::{content, contents, ChunkView};
use crate::serializer::{by_start_line, sorted_slot};

verus! {

/// The chunks come in the order of their first lines.
pub open spec fn starts_sorted(cs: Seq<ChunkView>) -> bool {
    forall|m: int, n: int|
        0 <= m <= n < cs.len() ==> (#[trigger] cs[m]).range.0 <= (#[trigger] cs[n]).range.0
}

/// Every chunk of the list ordered by start line is a chunk of the list.
pub proof fn lemma_sorted_members(chunks: Seq<ChunkView>, k: int)
    requires
        0 <= k < by_start_line(chunks).len(),
    ensures
        by_start_line(chunks).len() == chunks.len(),
        exists|m: int| 0 <= m < chunks.len() && chunks[m] == by_start_line(chunks)[k],
    decreases chunks.len(),
{
    lemma_sorted_len(chunks);
    if chunks.len() > 0 {
        let before = by_start_line(chunks.drop_last());
        lemma_sorted_len(chunks.drop_last());
        let pos = sorted_slot(before, chunks.last().range.0);
        lemma_sorted_slot(before, chunks.last().range.0);
        if k != pos {
            let k2 = if k < pos {
                k
            } else {
                k - 1
            };
            lemma_sorted_members(chunks.drop_last(), k2);
            let m = choose|m: int|
                0 <= m < chunks.drop_last().len() && chunks.drop_last()[m] == before[k2];
        }
    }
}

/// A slot in an ordered list lies inside the list or at its end.
pub proof fn lemma_sorted_slot(sorted: Seq<ChunkView>, start: usize)
    ensures
        0 <= sorted_slot(sorted, start) <= sorted.len(),
    decreases sorted.len(),
{
    if sorted.len() > 0 && sorted.last().range.0 > start {
        lemma_sorted_slot(sorted.drop_last(), start);
    }
}

/// Ordering a list keeps its length.
pub proof fn lemma_sorted_len(chunks: Seq<ChunkView>)
    ensures
        by_start_line(chunks).len() == chunks.len(),
    decreases chunks.len(),
{
    if chunks.len() > 0 {
        lemma_sorted_len(chunks.drop_last());
        lemma_sorted_slot(by_start_line(chunks.drop_last()), chunks.last().range.0);
    }
}

/// Ordering a list keeps what its chunks say, each as often as before.
pub proof fn lemma_sorted_contents(chunks: Seq<ChunkView>)
    ensures
        contents(by_start_line(chunks)).to_multiset() == contents(chunks).to_multiset(),
    decreases chunks.len(),
{
    broadcast use vstd::seq_lib::group_to_multiset_ensures;

    if chunks.len() != 0 {
        let rest = chunks.drop_last();
        let before = by_start_line(rest);
        let pos = sorted_slot(before, chunks.last().range.0);
        lemma_sorted_slot(before, chunks.last().range.0);
        lemma_sorted_contents(rest);
        let x = content(chunks.last());
        assert(contents(before.insert(pos, chunks.last())) =~= contents(before).insert(pos, x));
        assert(contents(chunks) =~= contents(rest).push(x));
        vstd::seq_lib::to_multiset_insert(contents(before), pos, x);
    }
}

/// The slot for a start line in an ordered list: every chunk before it
/// starts on that line or before it, every chunk from it on starts after
/// that line.
pub proof fn lemma_slot_splits(sorted: Seq<ChunkView>, start: usize)
    requires
        starts_sorted(sorted),
    ensures
        0 <= sorted_slot(sorted, start) <= sorted.len(),
        forall|m: int| 0 <= m < sorted_slot(sorted, start) ==> (#[trigger] sorted[m]).range.0 <= start,
        forall|m: int|
            sorted_slot(sorted, start) <= m < sorted.len() ==> (#[trigger] sorted[m]).range.0
                > start,
    decreases sorted.len(),
{
    if sorted.len() > 0 {
        if sorted.last().range.0 > start {
            let rest = sorted.drop_last();
            assert(starts_sorted(rest)) by {
                assert forall|m: int, n: int| 0 <= m <= n < rest.len() implies (
                #[trigger] rest[m]).range.0 <= (#[trigger] rest[n]).range.0 by {}
            }
            lemma_slot_splits(rest, start);
            let p = sorted_slot(rest, start);
            assert forall|m: int| 0 <= m < p implies (#[trigger] sorted[m]).range.0 <= start by {
                assert(sorted[m] == rest[m]);
            }
            assert forall|m: int| p <= m < sorted.len() implies (#[trigger] sorted[m]).range.0
                > start by {
                if m < rest.len() {
                    assert(sorted[m] == rest[m]);
                }
            }
        } else {
            assert forall|m: int| 0 <= m < sorted.len() implies (#[trigger] sorted[m]).range.0
                <= start by {}
        }
    }
}

/// Ordering by start line orders: in the result the chunks come in the
/// order of their first lines.
pub proof fn lemma_ordering_sorts(chunks: Seq<ChunkView>)
    ensures
        starts_sorted(by_start_line(chunks)),
    decreases chunks.len(),
{
    if chunks.len() > 0 {
        let before = by_start_line(chunks.drop_last());
        let x = chunks.last();
        lemma_ordering_sorts(chunks.drop_last());
        lemma_slot_splits(before, x.range.0);
        let p = sorted_slot(before, x.range.0);
        let all = before.insert(p, x);
        assert forall|m: int, n: int| 0 <= m <= n < all.len() implies (#[trigger] all[m]).range.0
            <= (#[trigger] all[n]).range.0 by {}
    }
}

/// The predicate "starts on line `line`".
pub open spec fn starts_on(line: usize) -> spec_fn(ChunkView) -> bool {
    |c: ChunkView| c.range.0 == line
}

/// A filter that no chunk of a list passes leaves nothing of the list.
pub proof fn lemma_filter_none(s: Seq<ChunkView>, p: spec_fn(ChunkView) -> bool)
    requires
        forall|k: int| 0 <= k < s.len() ==> !p(#[trigger] s[k]),
    ensures
        s.filter(p) == Seq::<ChunkView>::empty(),
    decreases s.len(),
{
    reveal(Seq::filter);
    if s.len() > 0 {
        lemma_filter_none(s.drop_last(), p);
    }
}

/// Ordering by start line is stable: the chunks that start on one line
/// come in the order in which the list holds them.
pub proof fn lemma_ordering_is_stable(chunks: Seq<ChunkView>, line: usize)
    ensures
        by_start_line(chunks).filter(starts_on(line)) == chunks.filter(starts_on(line)),
    decreases chunks.len(),
{
    reveal(Seq::filter);
    if chunks.len() > 0 {
        let rest = chunks.drop_last();
        let x = chunks.last();
        let before = by_start_line(rest);
        let f = starts_on(line);
        lemma_ordering_is_stable(rest, line);
        lemma_ordering_sorts(rest);
        lemma_slot_splits(before, x.range.0);
        let p = sorted_slot(before, x.range.0);
        let front = before.subrange(0, p);
        let back = before.subrange(p, before.len() as int);
        let one = seq![x];
        assert(before =~= front + back);
        assert(by_start_line(chunks) =~= (front + one) + back);
        Seq::filter_distributes_over_add(front, back, f);
        Seq::filter_distributes_over_add(front + one, back, f);
        Seq::filter_distributes_over_add(front, one, f);
        assert(one.drop_last() =~= Seq::<ChunkView>::empty());
        assert(one.drop_last().filter(f) =~= Seq::<ChunkView>::empty());
        if x.range.0 == line {
            assert forall|k: int| 0 <= k < back.len() implies !f(#[trigger] back[k]) by {
                assert(back[k] == before[p + k]);
            }
            lemma_filter_none(back, f);
            assert(one.filter(f) =~= one);
            assert(by_start_line(chunks).filter(f) =~= before.filter(f).push(x));
        } else {
            assert(one.filter(f) =~= Seq::<ChunkView>::empty());
            assert(by_start_line(chunks).filter(f) =~= before.filter(f));
        }
    }
}

/// A list whose chunks come in the order of their first lines is its own
/// ordering by start line.
pub proof fn lemma_sorted_identity(cs: Seq<ChunkView>)
    requires
        starts_sorted(cs),
    ensures
        by_start_line(cs) == cs,
    decreases cs.len(),
{
    if cs.len() > 0 {
        let rest = cs.drop_last();
        assert(starts_sorted(rest)) by {
            assert forall|m: int, n: int| 0 <= m <= n < rest.len() implies (
            #[trigger] rest[m]).range.0 <= (#[trigger] rest[n]).range.0 by {}
        }
        lemma_sorted_identity(rest);
    }
}

} // verus!
