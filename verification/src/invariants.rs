//! What every edit keeps: no two nodes share an id and no two edges join
//! the same endpoints.

use vstd::prelude::*;
use crate::chunk::{
    edge_between, lemma_kinds_differ, of_kind, with_kind_id, ChunkView, KIND_ATTR_STMT, KIND_EDGE,
    KIND_ID_EQ, KIND_NODE, KIND_SUBGRAPH,
};
use crate::commands::{apply, lemma_slot_bounds, set_default, slot, CommandView};
use crate::seqs::{first_index, lemma_first_index, lemma_last_index, last_index};

verus! {

/// Two chunks clash when they are nodes of the same id or edges between
/// the same endpoints.
pub open spec fn clash(a: ChunkView, b: ChunkView) -> bool {
    (a.kind == KIND_NODE@ && b.kind == KIND_NODE@ && a.id is Some && a.id == b.id) || (a.kind
        == KIND_EDGE@ && b.kind == KIND_EDGE@ && a.id is Some && a.extra is Some && a.id == b.id
        && a.extra == b.extra)
}

/// No two chunks of the list clash.
pub open spec fn unique(chunks: Seq<ChunkView>) -> bool {
    forall|i: int, j: int|
        0 <= i < j < chunks.len() ==> !clash(#[trigger] chunks[i], #[trigger] chunks[j])
}

/// Removing a chunk keeps the list free of clashes.
pub proof fn lemma_unique_remove(chunks: Seq<ChunkView>, i: int)
    requires
        unique(chunks),
        0 <= i < chunks.len(),
    ensures
        unique(chunks.remove(i)),
{
    let r = chunks.remove(i);
    assert forall|a: int, b: int| 0 <= a < b < r.len() implies !clash(
        #[trigger] r[a],
        #[trigger] r[b],
    ) by {}
}

/// Keeping some of the chunks keeps the list free of clashes.
pub proof fn lemma_unique_filter(chunks: Seq<ChunkView>, keep: spec_fn(ChunkView) -> bool)
    requires
        unique(chunks),
    ensures
        unique(chunks.filter(keep)),
    decreases chunks.len(),
{
    reveal(Seq::filter);
    if chunks.len() > 0 {
        let rest = chunks.drop_last();
        let last = chunks.last();
        assert(unique(rest)) by {
            assert forall|a: int, b: int| 0 <= a < b < rest.len() implies !clash(
                #[trigger] rest[a],
                #[trigger] rest[b],
            ) by {}
        }
        lemma_unique_filter(rest, keep);
        let kept = rest.filter(keep);
        if keep(last) {
            let r = kept.push(last);
            assert forall|a: int, b: int| 0 <= a < b < r.len() implies !clash(
                #[trigger] r[a],
                #[trigger] r[b],
            ) by {
                if b == kept.len() {
                    rest.lemma_filter_contains_rev(keep, kept[a]);
                    let m = choose|m: int| 0 <= m < rest.len() && rest[m] == kept[a];
                }
            }
        }
    }
}

/// Putting in a chunk that clashes with none keeps the list free of
/// clashes.
pub proof fn lemma_unique_insert(chunks: Seq<ChunkView>, pos: int, c: ChunkView)
    requires
        unique(chunks),
        0 <= pos <= chunks.len(),
        forall|m: int| 0 <= m < chunks.len() ==> !clash(#[trigger] chunks[m], c) && !clash(
            c,
            chunks[m],
        ),
    ensures
        unique(chunks.insert(pos, c)),
{
    let r = chunks.insert(pos, c);
    assert forall|a: int, b: int| 0 <= a < b < r.len() implies !clash(
        #[trigger] r[a],
        #[trigger] r[b],
    ) by {}
}

/// Replacing a chunk by one of the same kind, id and extra value keeps the
/// list free of clashes.
pub proof fn lemma_unique_update(chunks: Seq<ChunkView>, i: int, c: ChunkView)
    requires
        unique(chunks),
        0 <= i < chunks.len(),
        c.kind == chunks[i].kind,
        c.id == chunks[i].id,
        c.extra == chunks[i].extra || (c.kind != KIND_NODE@ && c.kind != KIND_EDGE@),
    ensures
        unique(chunks.update(i, c)),
{
    let r = chunks.update(i, c);
    assert forall|a: int, b: int| 0 <= a < b < r.len() implies !clash(
        #[trigger] r[a],
        #[trigger] r[b],
    ) by {
        let _ = chunks[a];
        let _ = chunks[b];
    }
}

/// Every edit keeps the list free of clashes: if no two nodes share an id
/// and no two edges join the same endpoints before a command, then none do
/// after it. A command that would break this is refused.
pub proof fn lemma_apply_keeps_unique(chunks: Seq<ChunkView>, cmd: CommandView)
    requires
        unique(chunks),
    ensures
        apply(chunks, cmd) matches Ok(after) ==> unique(after),
{
    lemma_kinds_differ();
    match cmd {
        CommandView::CreateNode { id, attrs, parent } => {
            lemma_first_index(chunks, with_kind_id(KIND_NODE@, id));
            lemma_slot_bounds(chunks, KIND_NODE@, parent);
            if let Ok(after) = apply(chunks, cmd) {
                let (pos, line) = slot(chunks, KIND_NODE@, parent)->Ok_0;
                let c = crate::grammar::node_chunk(
                    id,
                    crate::commands::attrs_of(attrs),
                    (line, line),
                );
                lemma_unique_insert(chunks, pos, c);
            }
        },
        CommandView::UpdateNode { id, attrs } => {
            lemma_first_index(chunks, with_kind_id(KIND_NODE@, id));
            if let Some(i) = first_index(chunks, with_kind_id(KIND_NODE@, id)) {
                lemma_unique_update(
                    chunks,
                    i,
                    crate::commands::with_merged(chunks[i], crate::commands::attrs_of(attrs)),
                );
            }
        },
        CommandView::DeleteNode { id } => {
            lemma_first_index(chunks, with_kind_id(KIND_NODE@, id));
            if let Some(i) = first_index(chunks, with_kind_id(KIND_NODE@, id)) {
                lemma_unique_remove(chunks, i);
            }
        },
        CommandView::CreateEdge { from, to, attrs, parent } => {
            lemma_first_index(chunks, edge_between(from, to));
            lemma_slot_bounds(chunks, KIND_EDGE@, parent);
            if let Ok(after) = apply(chunks, cmd) {
                let (pos, line) = slot(chunks, KIND_EDGE@, parent)->Ok_0;
                let c = crate::grammar::edge_chunk(
                    from,
                    to,
                    crate::commands::attrs_of(attrs),
                    (line, line),
                );
                lemma_unique_insert(chunks, pos, c);
            }
        },
        CommandView::UpdateEdge { from, to, attrs } => {
            lemma_first_index(chunks, edge_between(from, to));
            match first_index(chunks, edge_between(from, to)) {
                Some(i) => {
                    lemma_unique_update(
                        chunks,
                        i,
                        crate::commands::with_merged(chunks[i], crate::commands::attrs_of(attrs)),
                    );
                },
                None => {
                    let line = crate::commands::next_line(chunks);
                    let c = crate::grammar::edge_chunk(
                        from,
                        to,
                        crate::commands::attrs_of(attrs),
                        (line, line),
                    );
                    lemma_unique_insert(chunks, chunks.len() as int, c);
                },
            }
        },
        CommandView::DeleteEdge { from, to } => {
            lemma_first_index(chunks, edge_between(from, to));
            if let Some(i) = first_index(chunks, edge_between(from, to)) {
                lemma_unique_remove(chunks, i);
            }
        },
        CommandView::CreateSubgraph { id, parent } => {
            if let Ok(after) = apply(chunks, cmd) {
                match parent {
                    Some(p) => {
                        lemma_first_index(chunks, with_kind_id(KIND_SUBGRAPH@, p));
                        let ppos = first_index(chunks, with_kind_id(KIND_SUBGRAPH@, p))->0;
                        let c = crate::grammar::subgraph_chunk(
                            id,
                            (
                                crate::commands::line_after(chunks[ppos].range.0),
                                crate::commands::line_before(chunks[ppos].range.1),
                            ),
                        );
                        lemma_unique_insert(chunks, ppos + 1, c);
                    },
                    None => {
                        let line = crate::commands::next_line(chunks);
                        let c = crate::grammar::subgraph_chunk(
                            id,
                            (line, crate::commands::ten_after(line)),
                        );
                        lemma_unique_insert(chunks, chunks.len() as int, c);
                    },
                }
            }
        },
        CommandView::DeleteSubgraph { id } => {
            lemma_first_index(chunks, with_kind_id(KIND_SUBGRAPH@, id));
            if let Some(i) = first_index(chunks, with_kind_id(KIND_SUBGRAPH@, id)) {
                lemma_unique_filter(chunks, crate::commands::outside(chunks[i].range));
            }
        },
        CommandView::SetGraphAttr { key, value } => {
            lemma_first_index(chunks, with_kind_id(KIND_ID_EQ@, key));
            match first_index(chunks, with_kind_id(KIND_ID_EQ@, key)) {
                Some(i) => {
                    lemma_unique_update(chunks, i, ChunkView { extra: Some(value), ..chunks[i] });
                },
                None => {
                    lemma_unique_insert(
                        chunks,
                        0,
                        crate::grammar::id_eq_chunk(key, value, (1, 1)),
                    );
                },
            }
        },
        CommandView::SetNodeDefault { attrs } => {
            lemma_default_keeps_unique(chunks, "node"@, attrs, false);
        },
        CommandView::SetEdgeDefault { attrs } => {
            lemma_default_keeps_unique(chunks, "edge"@, attrs, true);
        },
        CommandView::DeleteAttr { key } => {
            lemma_first_index(chunks, with_kind_id(KIND_ID_EQ@, key));
            if let Some(i) = first_index(chunks, with_kind_id(KIND_ID_EQ@, key)) {
                lemma_unique_remove(chunks, i);
            }
        },
    }
}

/// Setting defaults keeps the list free of clashes.
pub proof fn lemma_default_keeps_unique(
    chunks: Seq<ChunkView>,
    target: Seq<char>,
    attrs: Seq<char>,
    after: bool,
)
    requires
        unique(chunks),
    ensures
        unique(set_default(chunks, target, attrs, after)),
{
    lemma_kinds_differ();
    lemma_first_index(chunks, with_kind_id(KIND_ATTR_STMT@, target));
    match first_index(chunks, with_kind_id(KIND_ATTR_STMT@, target)) {
        Some(i) => {
            lemma_unique_update(
                chunks,
                i,
                crate::commands::with_merged(chunks[i], crate::grammar::parse_attrs(attrs)),
            );
        },
        None => {
            lemma_first_index(chunks, of_kind(KIND_ATTR_STMT@));
            lemma_last_index(chunks, of_kind(KIND_ATTR_STMT@));
            let pos = if after {
                match last_index(chunks, of_kind(KIND_ATTR_STMT@)) {
                    Some(k) => k + 1,
                    None => 0,
                }
            } else {
                match first_index(chunks, of_kind(KIND_ATTR_STMT@)) {
                    Some(k) => k,
                    None => 0,
                }
            };
            lemma_unique_insert(
                chunks,
                pos,
                crate::grammar::attr_stmt_chunk(target, crate::grammar::parse_attrs(attrs), (1, 1)),
            );
        },
    }
}

} // verus!
