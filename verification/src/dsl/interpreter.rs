//! What the commands of the edit language do to a chunk list.

use vstd::prelude::*;
use vstd::string::StringExecFns;
use crate::attrs::{lookup, put, without, AttrSeq, Attrs};
use crate::chunk::{
    edge_between, views, with_kind_id, Chunk, ChunkView, KIND_ATTR_STMT, KIND_EDGE, KIND_NODE,
    KIND_RANK, KIND_SUBGRAPH,
};
use crate::commands::{
    find_first, lemma_views_push, remove_all, touching, unmatched, with_merged, Probe,
};
use crate::dsl::ast::{
    command_views, ClusterCmd, ClusterCmdView, DslCommand, DslCommandView, EdgeCmd, EdgeCmdView,
    GlobalCmd, GlobalCmdView, NodeCmd, NodeCmdView, RankCmd, RankCmdView,
};
use crate::seqs::first_index;
use crate::text::{chars_of, has_prefix, opt_eq, starts_with, str_eq, string_of, texts};

verus! {

/// Sets a chunk: the first chunk that satisfies `p` takes the attributes of
/// `fresh` merged into its own; when none does, `fresh` is appended.
pub open spec fn upsert(chunks: Seq<ChunkView>, p: spec_fn(ChunkView) -> bool, fresh: ChunkView) -> Seq<
    ChunkView,
> {
    match first_index(chunks, p) {
        Some(i) => chunks.update(i, with_merged(chunks[i], fresh.attrs)),
        None => chunks.push(fresh),
    }
}

/// Updates a chunk: the first chunk that satisfies `p` takes `attrs` merged
/// into its own; when none does, the list stays as it is.
pub open spec fn merge_into(chunks: Seq<ChunkView>, p: spec_fn(ChunkView) -> bool, attrs: AttrSeq) -> Seq<
    ChunkView,
> {
    match first_index(chunks, p) {
        Some(i) => chunks.update(i, with_merged(chunks[i], attrs)),
        None => chunks,
    }
}

/// A chunk that an edit created: it has no source range yet.
pub open spec fn fresh_chunk(
    kind: Seq<char>,
    id: Seq<char>,
    attrs: AttrSeq,
    extra: Option<Seq<char>>,
) -> ChunkView {
    ChunkView { kind, id: Some(id), attrs, range: (0, 0), extra }
}

/// The first position at or after `i` that holds a comma, or the end of
/// the text.
pub open spec fn comma_from(s: Seq<char>, i: int) -> int
    decreases s.len() - i,
{
    if i < 0 || i >= s.len() {
        s.len() as int
    } else if s[i] == ',' {
        i
    } else {
        comma_from(s, i + 1)
    }
}

/// The comma-separated list `s[i..]` with every item equal to `old`
/// replaced by `new`.
pub open spec fn renamed_from(s: Seq<char>, i: int, old: Seq<char>, new: Seq<char>) -> Seq<char>
    decreases s.len() - i,
{
    let k = comma_from(s, i);
    if i < 0 || i > k || k > s.len() {
        Seq::empty()
    } else {
        let item = s.subrange(i, k);
        let out = if item == old {
            new
        } else {
            item
        };
        if k >= s.len() {
            out
        } else {
            out + seq![','] + renamed_from(s, k + 1, old, new)
        }
    }
}

/// The comma-separated list `s` with every item equal to `old` replaced by
/// `new`.
pub open spec fn renamed_list(s: Seq<char>, old: Seq<char>, new: Seq<char>) -> Seq<char> {
    renamed_from(s, 0, old, new)
}

/// `o`, with `old` replaced by `new`.
pub open spec fn renamed_name(o: Option<Seq<char>>, old: Seq<char>, new: Seq<char>) -> Option<
    Seq<char>,
> {
    if o == Some(old) {
        Some(new)
    } else {
        o
    }
}

/// What a rename does to a chunk that may refer to the node: an edge takes
/// the new id as source and as target wherever it had the old one, a rank
/// group takes it in its list of nodes; any other chunk stays.
pub open spec fn renamed_refs(c: ChunkView, old: Seq<char>, new: Seq<char>) -> ChunkView {
    if c.kind == KIND_EDGE@ {
        ChunkView {
            id: renamed_name(c.id, old, new),
            extra: renamed_name(c.extra, old, new),
            ..c
        }
    } else if c.kind == KIND_RANK@ && lookup(c.attrs, "nodes"@) is Some {
        ChunkView {
            attrs: put(c.attrs, "nodes"@, renamed_list(lookup(c.attrs, "nodes"@)->0, old, new)),
            ..c
        }
    } else {
        c
    }
}

/// The chunk list after the node `old` was renamed to `new`: the first node
/// chunk of that id takes the new id, and every edge and rank group that
/// refers to the old id follows.
pub open spec fn rename_node(chunks: Seq<ChunkView>, old: Seq<char>, new: Seq<char>) -> Seq<
    ChunkView,
> {
    let base = match first_index(chunks, with_kind_id(KIND_NODE@, old)) {
        Some(i) => chunks.update(i, ChunkView { id: Some(new), ..chunks[i] }),
        None => chunks,
    };
    base.map_values(|c: ChunkView| renamed_refs(c, old, new))
}

/// A rename reaches every chunk that refers to the node: the first node
/// chunk of the old id takes the new id and keeps everything else; every
/// edge takes the new id wherever it had the old one, as source and as
/// target, and keeps its attributes and range; so no edge refers to the
/// old id afterwards, unless the new id is the old one.
pub proof fn lemma_rename_cascades(chunks: Seq<ChunkView>, old: Seq<char>, new: Seq<char>, j: int)
    requires
        0 <= j < chunks.len(),
    ensures
        rename_node(chunks, old, new).len() == chunks.len(),
        first_index(chunks, with_kind_id(KIND_NODE@, old)) == Some(j) ==> rename_node(
            chunks,
            old,
            new,
        )[j] == (ChunkView { id: Some(new), ..chunks[j] }),
        chunks[j].kind == KIND_EDGE@ ==> rename_node(chunks, old, new)[j] == (ChunkView {
            id: renamed_name(chunks[j].id, old, new),
            extra: renamed_name(chunks[j].extra, old, new),
            ..chunks[j]
        }),
        chunks[j].kind == KIND_EDGE@ && old != new ==> rename_node(chunks, old, new)[j].id
            != Some(old) && rename_node(chunks, old, new)[j].extra != Some(old),
{
    crate::chunk::lemma_kinds_differ();
    crate::seqs::lemma_first_index(chunks, with_kind_id(KIND_NODE@, old));
}

/// What a node command does.
pub open spec fn run_node(chunks: Seq<ChunkView>, cmd: NodeCmdView) -> Seq<ChunkView> {
    match cmd {
        NodeCmdView::Add { id, attrs } => upsert(
            chunks,
            with_kind_id(KIND_NODE@, id),
            fresh_chunk(KIND_NODE@, id, attrs, None),
        ),
        NodeCmdView::Update { id, attrs } => match lookup(attrs, "id"@) {
            Some(new_id) => merge_into(
                rename_node(chunks, id, new_id),
                with_kind_id(KIND_NODE@, new_id),
                without(attrs, "id"@),
            ),
            None => merge_into(chunks, with_kind_id(KIND_NODE@, id), attrs),
        },
        NodeCmdView::Delete { id } => chunks.filter(unmatched(touching(id))),
    }
}

/// What an edge command does.
pub open spec fn run_edge(chunks: Seq<ChunkView>, cmd: EdgeCmdView) -> Seq<ChunkView> {
    match cmd {
        EdgeCmdView::Add { from, to, attrs } => upsert(
            chunks,
            edge_between(from, to),
            fresh_chunk(KIND_EDGE@, from, attrs, Some(to)),
        ),
        EdgeCmdView::Update { from, to, attrs } => merge_into(chunks, edge_between(from, to), attrs),
        EdgeCmdView::Delete { from, to } => chunks.filter(unmatched(edge_between(from, to))),
    }
}

/// The id of the cluster that `id` names: `id` itself when it starts with
/// `cluster_`, and `cluster_` before it otherwise.
pub open spec fn cluster_id(id: Seq<char>) -> Seq<char> {
    if has_prefix(id, "cluster_"@) {
        id
    } else {
        "cluster_"@ + id
    }
}

/// What a cluster command does.
pub open spec fn run_cluster(chunks: Seq<ChunkView>, cmd: ClusterCmdView) -> Seq<ChunkView> {
    match cmd {
        ClusterCmdView::Add { id, attrs } => upsert(
            chunks,
            with_kind_id(KIND_SUBGRAPH@, cluster_id(id)),
            fresh_chunk(KIND_SUBGRAPH@, cluster_id(id), attrs, None),
        ),
        ClusterCmdView::Update { id, attrs } => merge_into(
            chunks,
            with_kind_id(KIND_SUBGRAPH@, cluster_id(id)),
            attrs,
        ),
        ClusterCmdView::Delete { id } => chunks.filter(
            unmatched(with_kind_id(KIND_SUBGRAPH@, cluster_id(id))),
        ),
        ClusterCmdView::Move { node, cluster } => chunks,
    }
}

/// An update creates nothing: the list is as long afterwards as it was
/// before, and an update without a new id that names a node, an edge or a
/// cluster that is not there leaves the list as it is.
pub proof fn lemma_update_creates_nothing(
    chunks: Seq<ChunkView>,
    id: Seq<char>,
    to: Seq<char>,
    attrs: AttrSeq,
)
    ensures
        run_node(chunks, NodeCmdView::Update { id, attrs }).len() == chunks.len(),
        run_edge(chunks, EdgeCmdView::Update { from: id, to, attrs }).len() == chunks.len(),
        run_cluster(chunks, ClusterCmdView::Update { id, attrs }).len() == chunks.len(),
        lookup(attrs, "id"@) is None && first_index(chunks, with_kind_id(KIND_NODE@, id)) is None
            ==> run_node(chunks, NodeCmdView::Update { id, attrs }) == chunks,
        first_index(chunks, edge_between(id, to)) is None ==> run_edge(
            chunks,
            EdgeCmdView::Update { from: id, to, attrs },
        ) == chunks,
        first_index(chunks, with_kind_id(KIND_SUBGRAPH@, cluster_id(id))) is None ==> run_cluster(
            chunks,
            ClusterCmdView::Update { id, attrs },
        ) == chunks,
{
    crate::seqs::lemma_first_index(chunks, with_kind_id(KIND_NODE@, id));
    crate::seqs::lemma_first_index(chunks, edge_between(id, to));
    crate::seqs::lemma_first_index(chunks, with_kind_id(KIND_SUBGRAPH@, cluster_id(id)));
    match lookup(attrs, "id"@) {
        Some(new_id) => {
            crate::seqs::lemma_first_index(
                rename_node(chunks, id, new_id),
                with_kind_id(KIND_NODE@, new_id),
            );
        },
        None => {},
    }
}

/// What a global command does: the attribute statement of its target takes
/// the attributes, and is appended when it is missing.
pub open spec fn run_global(chunks: Seq<ChunkView>, cmd: GlobalCmdView) -> Seq<ChunkView> {
    match cmd {
        GlobalCmdView::Graph(attrs) => upsert(
            chunks,
            with_kind_id(KIND_ATTR_STMT@, "graph"@),
            fresh_chunk(KIND_ATTR_STMT@, "graph"@, attrs, None),
        ),
        GlobalCmdView::NodeDefaults(attrs) => upsert(
            chunks,
            with_kind_id(KIND_ATTR_STMT@, "node"@),
            fresh_chunk(KIND_ATTR_STMT@, "node"@, attrs, None),
        ),
        GlobalCmdView::EdgeDefaults(attrs) => upsert(
            chunks,
            with_kind_id(KIND_ATTR_STMT@, "edge"@),
            fresh_chunk(KIND_ATTR_STMT@, "edge"@, attrs, None),
        ),
    }
}

/// The names with a comma between each two.
pub open spec fn joined(names: Seq<Seq<char>>) -> Seq<char>
    decreases names.len(),
{
    if names.len() == 0 {
        Seq::empty()
    } else if names.len() == 1 {
        names[0]
    } else {
        joined(names.drop_last()) + seq![','] + names.last()
    }
}

/// The chunk of a rank group of kind `kind` over `names`.
pub open spec fn rank_chunk(kind: Seq<char>, names: Seq<Seq<char>>) -> ChunkView {
    fresh_chunk(KIND_RANK@, kind, seq![("nodes"@, joined(names))], None)
}

/// What a rank command does: it appends a rank group.
pub open spec fn run_rank(chunks: Seq<ChunkView>, cmd: RankCmdView) -> Seq<ChunkView> {
    match cmd {
        RankCmdView::Same(names) => chunks.push(rank_chunk("same"@, names)),
        RankCmdView::Min(names) => chunks.push(rank_chunk("min"@, names)),
        RankCmdView::Max(names) => chunks.push(rank_chunk("max"@, names)),
    }
}

/// What one command does.
pub open spec fn run_one(chunks: Seq<ChunkView>, cmd: DslCommandView) -> Seq<ChunkView> {
    match cmd {
        DslCommandView::Node(c) => run_node(chunks, c),
        DslCommandView::Edge(c) => run_edge(chunks, c),
        DslCommandView::Cluster(c) => run_cluster(chunks, c),
        DslCommandView::Global(c) => run_global(chunks, c),
        DslCommandView::Rank(c) => run_rank(chunks, c),
    }
}

/// What a list of commands does, applied first to last.
pub open spec fn run(chunks: Seq<ChunkView>, cmds: Seq<DslCommandView>) -> Seq<ChunkView>
    decreases cmds.len(),
{
    if cmds.len() == 0 {
        chunks
    } else {
        run(run_one(chunks, cmds[0]), cmds.drop_first())
    }
}

/// Computes [`upsert`] for a fresh chunk with the given fields.
pub fn upsert_chunk(
    chunks: &mut Vec<Chunk>,
    probe: &Probe,
    kind: &str,
    id: String,
    attrs: Attrs,
    extra: Option<String>,
)
    ensures
        views(final(chunks)@) == upsert(
            views(old(chunks)@),
            probe.pred(),
            fresh_chunk(kind@, id@, attrs@, crate::chunk::opt_view(extra)),
        ),
{
    match find_first(chunks, probe) {
        Some(i) => {
            chunks[i].attrs.extend(&attrs);
            assert(views(chunks@) =~= views(old(chunks)@).update(
                i as int,
                with_merged(views(old(chunks)@)[i as int], attrs@),
            ));
        },
        None => {
            let c = Chunk::new(kind, Some(id), attrs, (0, 0), extra);
            proof {
                lemma_views_push(chunks@, c);
            }
            chunks.push(c);
        },
    }
}

/// Computes [`merge_into`].
pub fn merge_chunk(chunks: &mut Vec<Chunk>, probe: &Probe, attrs: &Attrs)
    ensures
        views(final(chunks)@) == merge_into(views(old(chunks)@), probe.pred(), attrs@),
{
    match find_first(chunks, probe) {
        Some(i) => {
            chunks[i].attrs.extend(attrs);
            assert(views(chunks@) =~= views(old(chunks)@).update(
                i as int,
                with_merged(views(old(chunks)@)[i as int], attrs@),
            ));
        },
        None => {},
    }
}

/// Computes [`comma_from`].
fn scan_comma(s: &Vec<char>, i: usize) -> (r: usize)
    requires
        i <= s.len(),
    ensures
        r == comma_from(s@, i as int),
        i <= r <= s.len(),
{
    let mut j: usize = i;
    while j < s.len() && s[j] != ','
        invariant
            i <= j <= s.len(),
            comma_from(s@, i as int) == comma_from(s@, j as int),
        decreases s.len() - j,
    {
        j = j + 1;
    }
    j
}

/// Replaces every item of the comma-separated list `s` that equals `old`
/// by `new`.
pub fn rename_in_list(s: &str, old: &str, new: &str) -> (r: String)
    ensures
        r@ == renamed_list(s@, old@, new@),
{
    let chars = chars_of(s);
    let mut out = String::new();
    let mut i: usize = 0;
    loop
        invariant_except_break
            renamed_from(chars@, 0, old@, new@) == out@ + renamed_from(chars@, i as int, old@, new@),
        invariant
            i <= chars.len(),
            chars@ == s@,
        ensures
            out@ == renamed_from(chars@, 0, old@, new@),
        decreases chars.len() - i,
    {
        let ghost before = out@;
        let k = scan_comma(&chars, i);
        let item = string_of(&chars, i, k);
        if str_eq(item.as_str(), old) {
            out.append(new);
        } else {
            out.append(item.as_str());
        }
        if k >= chars.len() {
            break ;
        }
        out.push(',');
        let ghost piece = if item@ == old@ {
            new@
        } else {
            item@
        };
        assert(out@ + renamed_from(chars@, k as int + 1, old@, new@) =~= before + (piece + seq![',']
            + renamed_from(chars@, k as int + 1, old@, new@)));
        i = k + 1;
    }
    out
}

/// Computes [`rename_node`].
pub fn rename_node_refs(chunks: &mut Vec<Chunk>, old_id: &str, new_id: &str)
    ensures
        views(final(chunks)@) == rename_node(views(old(chunks)@), old_id@, new_id@),
{
    match find_first(chunks, &Probe::KindId(KIND_NODE, old_id)) {
        Some(i) => {
            chunks[i].id = Some(String::from_str(new_id));
        },
        None => {},
    }
    let ghost base = views(chunks@);
    assert(base =~= match first_index(views(old(chunks)@), with_kind_id(KIND_NODE@, old_id@)) {
        Some(i) => views(old(chunks)@).update(
            i,
            ChunkView { id: Some(new_id@), ..views(old(chunks)@)[i] },
        ),
        None => views(old(chunks)@),
    });
    let mut j: usize = 0;
    while j < chunks.len()
        invariant
            j <= chunks.len(),
            chunks.len() == base.len(),
            forall|m: int|
                0 <= m < j ==> (#[trigger] chunks@[m])@ == renamed_refs(base[m], old_id@, new_id@),
            forall|m: int| j <= m < chunks.len() ==> (#[trigger] chunks@[m])@ == base[m],
        decreases chunks.len() - j,
    {
        if chunks[j].is_kind(KIND_EDGE) {
            if opt_eq(&chunks[j].id, old_id) {
                chunks[j].id = Some(String::from_str(new_id));
            }
            if opt_eq(&chunks[j].extra, old_id) {
                chunks[j].extra = Some(String::from_str(new_id));
            }
        } else if chunks[j].is_kind(KIND_RANK) {
            let renamed = match chunks[j].attrs.get("nodes") {
                Some(nodes) => Some(rename_in_list(nodes.as_str(), old_id, new_id)),
                None => None,
            };
            match renamed {
                Some(list) => {
                    chunks[j].attrs.insert(String::from_str("nodes"), list);
                },
                None => {},
            }
        }
        j = j + 1;
    }
}

/// Applies a node command.
pub fn apply_node(chunks: &mut Vec<Chunk>, cmd: NodeCmd)
    ensures
        views(final(chunks)@) == run_node(views(old(chunks)@), cmd@),
{
    match cmd {
        NodeCmd::Add { id, attrs } => {
            let name = id.clone();
            upsert_chunk(chunks, &Probe::KindId(KIND_NODE, name.as_str()), KIND_NODE, id, attrs, None);
        },
        NodeCmd::Update { id, attrs } => {
            let mut rest = attrs;
            match rest.remove("id") {
                Some(new_id) => {
                    rename_node_refs(chunks, id.as_str(), new_id.as_str());
                    merge_chunk(chunks, &Probe::KindId(KIND_NODE, new_id.as_str()), &rest);
                },
                None => {
                    merge_chunk(chunks, &Probe::KindId(KIND_NODE, id.as_str()), &rest);
                },
            }
        },
        NodeCmd::Delete { id } => {
            remove_all(chunks, &Probe::Touching(id.as_str()));
        },
    }
}

/// Applies an edge command.
pub fn apply_edge(chunks: &mut Vec<Chunk>, cmd: EdgeCmd)
    ensures
        views(final(chunks)@) == run_edge(views(old(chunks)@), cmd@),
{
    match cmd {
        EdgeCmd::Add { from, to, attrs } => {
            let a = from.clone();
            let b = to.clone();
            upsert_chunk(
                chunks,
                &Probe::Edge(a.as_str(), b.as_str()),
                KIND_EDGE,
                from,
                attrs,
                Some(to),
            );
        },
        EdgeCmd::Update { from, to, attrs } => {
            merge_chunk(chunks, &Probe::Edge(from.as_str(), to.as_str()), &attrs);
        },
        EdgeCmd::Delete { from, to } => {
            remove_all(chunks, &Probe::Edge(from.as_str(), to.as_str()));
        },
    }
}

/// Computes [`cluster_id`].
pub fn cluster_name(id: String) -> (r: String)
    ensures
        r@ == cluster_id(id@),
{
    if starts_with(id.as_str(), "cluster_") {
        id
    } else {
        let mut r = String::from_str("cluster_");
        r.append(id.as_str());
        r
    }
}

/// Applies a cluster command.
pub fn apply_cluster(chunks: &mut Vec<Chunk>, cmd: ClusterCmd)
    ensures
        views(final(chunks)@) == run_cluster(views(old(chunks)@), cmd@),
{
    match cmd {
        ClusterCmd::Add { id, attrs } => {
            let name = cluster_name(id);
            let key = name.clone();
            upsert_chunk(
                chunks,
                &Probe::KindId(KIND_SUBGRAPH, key.as_str()),
                KIND_SUBGRAPH,
                name,
                attrs,
                None,
            );
        },
        ClusterCmd::Update { id, attrs } => {
            let name = cluster_name(id);
            merge_chunk(chunks, &Probe::KindId(KIND_SUBGRAPH, name.as_str()), &attrs);
        },
        ClusterCmd::Delete { id } => {
            let name = cluster_name(id);
            remove_all(chunks, &Probe::KindId(KIND_SUBGRAPH, name.as_str()));
        },
        ClusterCmd::Move { node, cluster } => {},
    }
}

/// Applies a global command.
pub fn apply_global(chunks: &mut Vec<Chunk>, cmd: GlobalCmd)
    ensures
        views(final(chunks)@) == run_global(views(old(chunks)@), cmd@),
{
    match cmd {
        GlobalCmd::Graph(attrs) => {
            upsert_chunk(
                chunks,
                &Probe::KindId(KIND_ATTR_STMT, "graph"),
                KIND_ATTR_STMT,
                String::from_str("graph"),
                attrs,
                None,
            );
        },
        GlobalCmd::NodeDefaults(attrs) => {
            upsert_chunk(
                chunks,
                &Probe::KindId(KIND_ATTR_STMT, "node"),
                KIND_ATTR_STMT,
                String::from_str("node"),
                attrs,
                None,
            );
        },
        GlobalCmd::EdgeDefaults(attrs) => {
            upsert_chunk(
                chunks,
                &Probe::KindId(KIND_ATTR_STMT, "edge"),
                KIND_ATTR_STMT,
                String::from_str("edge"),
                attrs,
                None,
            );
        },
    }
}

/// Computes [`joined`].
pub fn join_names(names: &Vec<String>) -> (r: String)
    ensures
        r@ == joined(texts(names@)),
{
    let mut out = String::new();
    let mut i: usize = 0;
    let ghost all = texts(names@);
    while i < names.len()
        invariant
            i <= names.len(),
            all == texts(names@),
            out@ == joined(all.take(i as int)),
        decreases names.len() - i,
    {
        let ghost now = all.take(i as int + 1);
        proof {
            assert(now.drop_last() =~= all.take(i as int));
        }
        if i > 0 {
            out.push(',');
        }
        out.append(names[i].as_str());
        i = i + 1;
    }
    assert(all.take(names.len() as int) =~= all);
    out
}

/// Appends a rank group of kind `kind` over `names`.
fn push_rank(chunks: &mut Vec<Chunk>, kind: &str, names: &Vec<String>)
    ensures
        views(final(chunks)@) == views(old(chunks)@).push(rank_chunk(kind@, texts(names@))),
{
    let mut attrs = Attrs::new();
    attrs.insert(String::from_str("nodes"), join_names(names));
    assert(attrs@ =~= seq![("nodes"@, joined(texts(names@)))]);
    let c = Chunk::new(KIND_RANK, Some(String::from_str(kind)), attrs, (0, 0), None);
    proof {
        lemma_views_push(chunks@, c);
    }
    chunks.push(c);
}

/// Applies a rank command.
pub fn apply_rank(chunks: &mut Vec<Chunk>, cmd: RankCmd)
    ensures
        views(final(chunks)@) == run_rank(views(old(chunks)@), cmd@),
{
    match cmd {
        RankCmd::Same(names) => push_rank(chunks, "same", &names),
        RankCmd::Min(names) => push_rank(chunks, "min", &names),
        RankCmd::Max(names) => push_rank(chunks, "max", &names),
    }
}

/// Applies one command.
pub fn apply_one(chunks: &mut Vec<Chunk>, cmd: DslCommand)
    ensures
        views(final(chunks)@) == run_one(views(old(chunks)@), cmd@),
{
    match cmd {
        DslCommand::Node(c) => apply_node(chunks, c),
        DslCommand::Edge(c) => apply_edge(chunks, c),
        DslCommand::Cluster(c) => apply_cluster(chunks, c),
        DslCommand::Global(c) => apply_global(chunks, c),
        DslCommand::Rank(c) => apply_rank(chunks, c),
    }
}

/// Applies the commands to the chunk list, first to last. No command of
/// this language is refused.
pub fn apply_commands(chunks: &mut Vec<Chunk>, cmds: Vec<DslCommand>)
    ensures
        views(final(chunks)@) == run(views(old(chunks)@), command_views(cmds@)),
{
    let ghost all = command_views(cmds@);
    assert(all.skip(0) =~= all);
    for cmd in it: cmds
        invariant
            all == command_views(it.seq()),
            run(views(old(chunks)@), all) == run(views(chunks@), all.skip(it.index() as int)),
    {
        let ghost i = it.index() as int;
        proof {
            assert(all.skip(i).drop_first() =~= all.skip(i + 1));
        }
        apply_one(chunks, cmd);
    }
}

} // verus!
