//! The route recognizer: a tree keyed by path segments.
//!
//! Every registered pattern is filed under its key, the sequence of edges
//! that leads to its node.  A request path is matched by descending from the
//! root one segment at a time, and the model of the whole structure is just
//! the sequence of the registered keys.

use vstd::prelude::*;
use crate::bytes::{
    copy_bytes, find_seg_end, lemma_seg_end, lemma_seg_end_unique, range_eq, seg_end,
};
use crate::uri::{
    body_of, lemma_render_segment, render_components, Component, Uri, UriComponent, UriView,
};

verus! {

/// One edge of the tree.
pub enum Edge {
    /// A literal segment.  The empty literal is the trailing slash.
    Lit(Seq<u8>),
    /// Any one non-empty segment.
    Cap,
    /// The whole rest of the path.
    Wild,
}

/// The edge under which a component is filed.
pub open spec fn edge_of(c: Component) -> Edge {
    match c {
        Component::Static(s) => Edge::Lit(s),
        Component::Slash => Edge::Lit(Seq::empty()),
        Component::Capture(_) => Edge::Cap,
        Component::Wildcard(_) => Edge::Wild,
    }
}

/// The key under which a pattern is filed.  The root `/` is the trailing
/// slash of nothing.  The pattern `*` is filed under the literal `/`, which
/// no segment of a path can equal.
pub open spec fn key_of(u: UriView) -> Seq<Edge> {
    if u.asterisk {
        seq![Edge::Lit(seq![0x2fu8])]
    } else if u.components.len() == 0 {
        seq![Edge::Lit(Seq::empty())]
    } else {
        Seq::new(u.components.len(), |i: int| edge_of(u.components[i]))
    }
}

/// The identifiers, in rising order, of the patterns filed exactly under `k`.
pub open spec fn ids_at(keys: Seq<Seq<Edge>>, k: Seq<Edge>) -> Seq<usize>
    decreases keys.len(),
{
    if keys.len() == 0 {
        Seq::empty()
    } else if keys.last() == k {
        ids_at(keys.drop_last(), k).push((keys.len() - 1) as usize)
    } else {
        ids_at(keys.drop_last(), k)
    }
}

/// The identifiers, in rising order, of the patterns filed under `k` or
/// below it.
pub open spec fn ids_under(keys: Seq<Seq<Edge>>, k: Seq<Edge>) -> Seq<usize>
    decreases keys.len(),
{
    if keys.len() == 0 {
        Seq::empty()
    } else if k.is_prefix_of(keys.last()) {
        ids_under(keys.drop_last(), k).push((keys.len() - 1) as usize)
    } else {
        ids_under(keys.drop_last(), k)
    }
}

/// Whether the tree has a node for `k`: some registered key passes through
/// it.
pub open spec fn has_node(keys: Seq<Seq<Edge>>, k: Seq<Edge>) -> bool {
    exists|j: int| 0 <= j < keys.len() && k.is_prefix_of(#[trigger] keys[j])
}

/// Whether a wildcard that ends the key `k` could never be reached: its
/// node also has a capture child, which takes every non-empty segment, and
/// a trailing-slash child, which takes the empty one.
pub open spec fn wildcard_shadowed(keys: Seq<Seq<Edge>>, k: Seq<Edge>) -> bool {
    &&& k.len() > 0
    &&& k.last() is Wild
    &&& has_node(keys, k.drop_last().push(Edge::Cap))
    &&& has_node(keys, k.drop_last().push(Edge::Lit(Seq::empty())))
}

/// The byte ranges of a path that a match has bound.
pub struct CapturesView {
    /// One `(start, end)` range per capture, in the order of the pattern.
    pub params: Seq<(int, int)>,
    /// The range that the wildcard absorbed.
    pub wildcard: Option<(int, int)>,
}

/// The outcome of matching a path, as a mathematical value.
pub enum PathMatch {
    /// The descent ended on a node with patterns.
    Found { ids: Seq<usize>, captures: CapturesView },
    /// The descent left the root but ended where no pattern is filed; the
    /// candidates are the patterns filed below the deepest node reached.
    PartiallyMatched { candidates: Seq<usize> },
    /// The descent failed at the root or on an empty segment.
    NotMatched,
}

/// The outcome of a descent that stops at node `k` without a match.
pub open spec fn unmatched(keys: Seq<Seq<Edge>>, k: Seq<Edge>) -> PathMatch {
    if k.len() == 0 || ids_under(keys, k).len() == 0 {
        PathMatch::NotMatched
    } else {
        PathMatch::PartiallyMatched { candidates: ids_under(keys, k) }
    }
}

/// The outcome of a descent that has consumed the path and stands at `k`.
pub open spec fn settle(keys: Seq<Seq<Edge>>, k: Seq<Edge>, captures: CapturesView) -> PathMatch {
    if ids_at(keys, k).len() > 0 {
        PathMatch::Found { ids: ids_at(keys, k), captures }
    } else {
        unmatched(keys, k)
    }
}

/// The descent from node `cur`, with the next segment starting at `pos`.
///
/// A literal child that equals the segment is preferred; else the capture
/// child takes a non-empty segment; else the wildcard child takes the whole
/// rest of the path.  A choice once made is never taken back.  Where no
/// child takes the segment, an empty segment matches nothing, and any other
/// leaves the patterns below the node as candidates.
pub open spec fn walk(
    keys: Seq<Seq<Edge>>,
    cur: Seq<Edge>,
    path: Seq<u8>,
    pos: int,
    params: Seq<(int, int)>,
) -> PathMatch
    decreases path.len() - pos,
{
    let e = seg_end(path, pos);
    let seg = path.subrange(pos, e);
    if pos < 0 || pos > path.len() || e < pos || e > path.len() {
        PathMatch::NotMatched
    } else if has_node(keys, cur.push(Edge::Lit(seg))) {
        if e == path.len() {
            settle(keys, cur.push(Edge::Lit(seg)), CapturesView { params, wildcard: None })
        } else {
            walk(keys, cur.push(Edge::Lit(seg)), path, e + 1, params)
        }
    } else if e > pos && has_node(keys, cur.push(Edge::Cap)) {
        if e == path.len() {
            settle(
                keys,
                cur.push(Edge::Cap),
                CapturesView { params: params.push((pos, e)), wildcard: None },
            )
        } else {
            walk(keys, cur.push(Edge::Cap), path, e + 1, params.push((pos, e)))
        }
    } else if has_node(keys, cur.push(Edge::Wild)) {
        settle(
            keys,
            cur.push(Edge::Wild),
            CapturesView { params, wildcard: Some((pos, path.len() as int)) },
        )
    } else if e == pos {
        PathMatch::NotMatched
    } else {
        unmatched(keys, cur)
    }
}

/// What matching `path` against the registered keys gives.  The request
/// target `*` is looked up where the pattern `*` is filed; every other path
/// must start with `/` and is matched segment by segment.
pub open spec fn recognize_path(keys: Seq<Seq<Edge>>, path: Seq<u8>) -> PathMatch {
    if path == seq![0x2au8] {
        settle(
            keys,
            seq![Edge::Lit(seq![0x2fu8])],
            CapturesView { params: Seq::empty(), wildcard: None },
        )
    } else if path.len() == 0 || path[0] != 0x2f {
        PathMatch::NotMatched
    } else {
        walk(keys, Seq::empty(), path, 1, Seq::empty())
    }
}

/// The identifiers filed at a key are exactly the indices of the registered
/// keys that equal it.
pub proof fn lemma_ids_at_members(keys: Seq<Seq<Edge>>, k: Seq<Edge>)
    requires
        keys.len() <= usize::MAX,
    ensures
        forall|t: int|
            0 <= t < ids_at(keys, k).len() ==> (#[trigger] ids_at(keys, k)[t]) < keys.len()
                && keys[ids_at(keys, k)[t] as int] == k,
        forall|i: int|
            0 <= i < keys.len() && #[trigger] keys[i] == k ==> ids_at(keys, k).contains(i as usize),
    decreases keys.len(),
{
    if keys.len() > 0 {
        let init = keys.drop_last();
        let last = (keys.len() - 1) as usize;
        lemma_ids_at_members(init, k);
        assert forall|t: int| 0 <= t < ids_at(keys, k).len() implies (#[trigger] ids_at(keys, k)[t])
            < keys.len() && keys[ids_at(keys, k)[t] as int] == k by {
            if t < ids_at(init, k).len() {
                let i = ids_at(init, k)[t];
                assert(ids_at(keys, k)[t] == i);
                assert(init[i as int] == keys[i as int]);
            }
        }
        assert forall|i: int| 0 <= i < keys.len() && #[trigger] keys[i] == k implies ids_at(
            keys,
            k,
        ).contains(i as usize) by {
            if i < init.len() {
                assert(init[i] == keys[i]);
                let t = choose|t: int|
                    0 <= t < ids_at(init, k).len() && ids_at(init, k)[t] == i as usize;
                assert(ids_at(keys, k)[t] == i as usize);
            } else {
                assert(ids_at(keys, k) == ids_at(init, k).push(last));
                assert(ids_at(keys, k)[ids_at(init, k).len() as int] == last);
            }
        }
    }
}

/// A key with identifiers under it is a node of the tree, and conversely.
pub proof fn lemma_ids_under_has_node(keys: Seq<Seq<Edge>>, k: Seq<Edge>)
    ensures
        has_node(keys, k) <==> ids_under(keys, k).len() > 0,
        ids_at(keys, k).len() > 0 ==> has_node(keys, k),
    decreases keys.len(),
{
    if keys.len() > 0 {
        let init = keys.drop_last();
        lemma_ids_under_has_node(init, k);
        if has_node(keys, k) {
            let j = choose|j: int| 0 <= j < keys.len() && k.is_prefix_of(#[trigger] keys[j]);
            if j < init.len() {
                assert(init[j] == keys[j]);
            }
        }
        if has_node(init, k) {
            let j = choose|j: int| 0 <= j < init.len() && k.is_prefix_of(#[trigger] init[j]);
            assert(init[j] == keys[j]);
        }
        if k.is_prefix_of(keys.last()) || keys.last() == k {
            assert(k.is_prefix_of(keys[keys.len() - 1]));
        }
    }
}

/// Whether a pattern is made of literal segments alone, with or without a
/// trailing slash.
pub open spec fn is_static(u: UriView) -> bool {
    &&& !u.asterisk
    &&& forall|i: int|
        0 <= i < u.components.len() ==> (#[trigger] u.components[i]) is Static
            || u.components[i] is Slash
}

/// The literal that a component of a static pattern stands for.
pub open spec fn literal_of(c: Component) -> Seq<u8> {
    match c {
        Component::Static(s) => s,
        _ => Seq::empty(),
    }
}

/// The order of the branches at one node: a literal child that equals the
/// segment is taken whatever else the node has, and a capture child is taken
/// before a wildcard child.
pub proof fn lemma_branch_order(
    keys: Seq<Seq<Edge>>,
    cur: Seq<Edge>,
    path: Seq<u8>,
    pos: int,
    params: Seq<(int, int)>,
)
    requires
        0 <= pos <= path.len(),
    ensures
        ({
            let e = seg_end(path, pos);
            let seg = path.subrange(pos, e);
            let lit = cur.push(Edge::Lit(seg));
            let cap = cur.push(Edge::Cap);
            &&& has_node(keys, lit) ==> walk(keys, cur, path, pos, params) == if e == path.len() {
                settle(keys, lit, CapturesView { params, wildcard: None })
            } else {
                walk(keys, lit, path, e + 1, params)
            }
            &&& !has_node(keys, lit) && e > pos && has_node(keys, cap) ==> walk(
                keys,
                cur,
                path,
                pos,
                params,
            ) == if e == path.len() {
                settle(keys, cap, CapturesView { params: params.push((pos, e)), wildcard: None })
            } else {
                walk(keys, cap, path, e + 1, params.push((pos, e)))
            }
        }),
{
    lemma_seg_end(path, pos);
}

/// Whether a range of a path is one whole segment that is not empty: it
/// follows a `/`, holds none, and ends before a `/` or with the path.
pub open spec fn is_segment(path: Seq<u8>, span: (int, int)) -> bool {
    &&& 1 <= span.0 < span.1 <= path.len()
    &&& path[span.0 - 1] == 0x2f
    &&& forall|k: int| span.0 <= k < span.1 ==> path[k] != 0x2f
    &&& span.1 == path.len() || path[span.1] == 0x2f
}

/// Whether a range of a path is all that follows one of its `/`.
pub open spec fn is_rest(path: Seq<u8>, span: (int, int)) -> bool {
    &&& 1 <= span.0 <= span.1 == path.len()
    &&& path[span.0 - 1] == 0x2f
}

/// What a descent binds: every capture is one whole segment of the path
/// that is not empty, the captures bound before stay first, and a wildcard
/// is all that follows a `/`.
pub proof fn lemma_walk_captures(
    keys: Seq<Seq<Edge>>,
    cur: Seq<Edge>,
    path: Seq<u8>,
    pos: int,
    params: Seq<(int, int)>,
)
    requires
        1 <= pos <= path.len(),
        path[pos - 1] == 0x2f,
        forall|i: int| 0 <= i < params.len() ==> is_segment(path, #[trigger] params[i]),
        walk(keys, cur, path, pos, params) is Found,
    ensures
        ({
            let captures = walk(keys, cur, path, pos, params)->Found_captures;
            &&& params.is_prefix_of(captures.params)
            &&& forall|i: int|
                0 <= i < captures.params.len() ==> is_segment(path, #[trigger] captures.params[i])
            &&& captures.wildcard matches Some(w) ==> is_rest(path, w)
        }),
    decreases path.len() - pos,
{
    lemma_seg_end(path, pos);
    let e = seg_end(path, pos);
    let seg = path.subrange(pos, e);
    if has_node(keys, cur.push(Edge::Lit(seg))) {
        if e < path.len() {
            lemma_walk_captures(keys, cur.push(Edge::Lit(seg)), path, e + 1, params);
        }
    } else if e > pos && has_node(keys, cur.push(Edge::Cap)) {
        let more = params.push((pos, e));
        assert forall|i: int| 0 <= i < more.len() implies is_segment(path, #[trigger] more[i]) by {
            if i < params.len() {
                assert(more[i] == params[i]);
            }
        }
        if e < path.len() {
            lemma_walk_captures(keys, cur.push(Edge::Cap), path, e + 1, more);
        }
    }
}

/// What a match binds: every capture is one whole segment of the path that
/// is not empty, and a wildcard is all that follows a `/`.
pub proof fn lemma_recognize_captures(keys: Seq<Seq<Edge>>, path: Seq<u8>)
    requires
        recognize_path(keys, path) is Found,
    ensures
        ({
            let captures = recognize_path(keys, path)->Found_captures;
            &&& forall|i: int|
                0 <= i < captures.params.len() ==> is_segment(path, #[trigger] captures.params[i])
            &&& captures.wildcard matches Some(w) ==> is_rest(path, w)
        }),
{
    if path == seq![0x2au8] {
    } else {
        lemma_walk_captures(keys, Seq::empty(), path, 1, Seq::empty());
    }
}

/// A key that is registered has identifiers filed at it.
pub proof fn lemma_registered_has_ids(keys: Seq<Seq<Edge>>, j: int)
    requires
        0 <= j < keys.len(),
    ensures
        ids_at(keys, keys[j]).len() > 0,
    decreases keys.len(),
{
    if j < keys.len() - 1 {
        assert(keys.drop_last()[j] == keys[j]);
        lemma_registered_has_ids(keys.drop_last(), j);
    }
}

/// The descent along a registered static pattern, from its component `i`
/// on, ends on the node of the pattern and binds nothing.
pub proof fn lemma_walk_static(keys: Seq<Seq<Edge>>, u: UriView, j: int, i: int)
    requires
        u.wf(),
        is_static(u),
        0 <= j < keys.len(),
        keys[j] == key_of(u),
        0 <= i < u.components.len(),
    ensures
        walk(
            keys,
            key_of(u).take(i),
            render_components(u.components),
            (render_components(u.components.take(i)).len() + 1) as int,
            Seq::empty(),
        ) == (PathMatch::Found {
            ids: ids_at(keys, key_of(u)),
            captures: CapturesView { params: Seq::empty(), wildcard: None },
        }),
    decreases u.components.len() - i,
{
    let cs = u.components;
    let key = key_of(u);
    let path = render_components(cs);
    let pos = (render_components(cs.take(i)).len() + 1) as int;
    let lit = literal_of(cs[i]);
    assert(body_of(cs[i]) == lit);
    lemma_render_segment(u, i);
    let e = (pos + lit.len()) as int;
    lemma_seg_end_unique(path, pos, e);
    assert(key[i] == Edge::Lit(lit));
    assert(key.take(i).push(Edge::Lit(lit)) =~= key.take(i + 1));
    assert(key.take(i + 1).is_prefix_of(keys[j]));
    if i == cs.len() - 1 {
        assert(key.take(i + 1) =~= key);
        lemma_registered_has_ids(keys, j);
    } else {
        lemma_walk_static(keys, u, j, i + 1);
    }
}

/// A request for the text of a registered pattern of
/// literal segments matches that pattern and binds nothing, whatever
/// captures and wildcards are registered beside it.
pub proof fn lemma_static_route_wins(keys: Seq<Seq<Edge>>, u: UriView, j: int)
    requires
        u.wf(),
        is_static(u),
        0 <= j < keys.len(),
        keys[j] == key_of(u),
    ensures
        recognize_path(keys, u.render()) == (PathMatch::Found {
            ids: ids_at(keys, key_of(u)),
            captures: CapturesView { params: Seq::empty(), wildcard: None },
        }),
{
    let path = u.render();
    let key = key_of(u);
    assert(path.len() > 0 && path[0] == 0x2f && path != seq![0x2au8]) by {
        if u.components.len() > 0 {
            assert(u.components.take(0) =~= Seq::empty());
            lemma_render_segment(u, 0);
        }
        assert(seq![0x2au8][0] == 0x2a);
    }
    if u.components.len() == 0 {
        let lit = Seq::<u8>::empty();
        assert(path.subrange(1, 1) =~= lit);
        lemma_seg_end_unique(path, 1, 1);
        assert(Seq::<Edge>::empty().push(Edge::Lit(lit)) =~= key);
        assert(key.is_prefix_of(keys[j]));
        lemma_registered_has_ids(keys, j);
    } else {
        assert(u.components.take(0) =~= Seq::empty());
        assert(key.take(0) =~= Seq::empty());
        lemma_walk_static(keys, u, j, 0);
    }
}

/// The byte ranges of a path that a match has bound.
#[derive(Debug)]
pub struct Captures {
    /// One `(start, end)` range per capture, in the order of the pattern.
    pub params: Vec<(usize, usize)>,
    /// The range that the wildcard absorbed.
    pub wildcard: Option<(usize, usize)>,
}

/// The ranges of `v` as pairs of mathematical integers.
pub open spec fn spans(v: Seq<(usize, usize)>) -> Seq<(int, int)> {
    Seq::new(v.len(), |i: int| (v[i].0 as int, v[i].1 as int))
}

impl View for Captures {
    type V = CapturesView;

    open spec fn view(&self) -> CapturesView {
        CapturesView {
            params: spans(self.params@),
            wildcard: match self.wildcard {
                Some(w) => Some((w.0 as int, w.1 as int)),
                None => None,
            },
        }
    }
}

/// The outcome of matching a path.
#[derive(Debug)]
pub enum Recognized<'a> {
    /// The descent ended on a node with patterns.
    Found { ids: &'a Vec<usize>, captures: Captures },
    /// The descent left the root but ended where no pattern is filed.
    PartiallyMatched { candidates: &'a Vec<usize> },
    /// The descent failed at the root or on an empty segment.
    NotMatched,
}

impl<'a> View for Recognized<'a> {
    type V = PathMatch;

    open spec fn view(&self) -> PathMatch {
        match self {
            Recognized::Found { ids, captures } => PathMatch::Found {
                ids: ids@,
                captures: captures@,
            },
            Recognized::PartiallyMatched { candidates } => PathMatch::PartiallyMatched {
                candidates: candidates@,
            },
            Recognized::NotMatched => PathMatch::NotMatched,
        }
    }
}

/// One node of the tree.
struct Node {
    /// The edges that lead here from the root.
    key: Ghost<Seq<Edge>>,
    /// The index of the parent node.
    parent: Ghost<int>,
    /// The literal children, each with its literal.
    statics: Vec<(Vec<u8>, usize)>,
    /// The capture child.
    capture: Option<usize>,
    /// The wildcard child.
    wildcard: Option<usize>,
    /// The patterns filed exactly here.
    endpoints: Vec<usize>,
    /// The patterns filed here or below.
    reachable: Vec<usize>,
}

/// A route recognizer.
pub struct Recognizer {
    nodes: Vec<Node>,
    keys: Ghost<Seq<Seq<Edge>>>,
}

/// Whether node `p` has the child `c` under edge `e`.
spec fn linked(nodes: Seq<Node>, p: int, e: Edge, c: int) -> bool {
    match e {
        Edge::Lit(s) => exists|j: int|
            0 <= j < nodes[p].statics@.len() && (#[trigger] nodes[p].statics@[j]).0@ == s
                && nodes[p].statics@[j].1 == c,
        Edge::Cap => nodes[p].capture == Some(c as usize),
        Edge::Wild => nodes[p].wildcard == Some(c as usize),
    }
}

/// The links of node `i` agree with the keys of the nodes they join.
spec fn shape_at(nodes: Seq<Node>, i: int) -> bool {
    let n = nodes[i];
    &&& i > 0 ==> 0 <= n.parent@ < nodes.len() && n.key@.len() > 0 && nodes[n.parent@].key@
        == n.key@.drop_last() && linked(nodes, n.parent@, n.key@.last(), i)
    &&& forall|j: int|
        0 <= j < n.statics@.len() ==> (#[trigger] n.statics@[j]).1 < nodes.len() && nodes[n.statics@[j].1 as int].key@
            == n.key@.push(Edge::Lit(n.statics@[j].0@))
    &&& n.capture matches Some(c) ==> c < nodes.len() && nodes[c as int].key@ == n.key@.push(
        Edge::Cap,
    )
    &&& n.wildcard matches Some(c) ==> c < nodes.len() && nodes[c as int].key@ == n.key@.push(
        Edge::Wild,
    )
}

/// The nodes form a tree under the root at index 0, and no two nodes have
/// the same key.
spec fn shape(nodes: Seq<Node>) -> bool {
    &&& nodes.len() > 0
    &&& nodes[0].key@.len() == 0
    &&& forall|i: int| 0 <= i < nodes.len() ==> #[trigger] shape_at(nodes, i)
    &&& forall|i: int, j: int|
        #![trigger nodes[i], nodes[j]]
        0 <= i < nodes.len() && 0 <= j < nodes.len() && nodes[i].key@ == nodes[j].key@ ==> i == j
}

/// Whether some node has the key `k`.
spec fn indexed(nodes: Seq<Node>, k: Seq<Edge>) -> bool {
    exists|i: int| 0 <= i < nodes.len() && (#[trigger] nodes[i]).key@ == k
}

/// Whether node `i` lies on the first `d` edges of the key `pend` that is
/// being registered.
spec fn on_path(nodes: Seq<Node>, pend: Seq<Edge>, d: int, i: int) -> bool {
    nodes[i].key@.is_prefix_of(pend) && nodes[i].key@.len() <= d
}

/// The lists of node `i` hold what `keys` files at and under its key, and
/// the identifier `id` of the pending key where the node lies on its path.
spec fn content_at(
    nodes: Seq<Node>,
    keys: Seq<Seq<Edge>>,
    pend: Seq<Edge>,
    d: int,
    id: usize,
    i: int,
) -> bool {
    let n = nodes[i];
    &&& n.endpoints@ == ids_at(keys, n.key@)
    &&& n.reachable@ == if on_path(nodes, pend, d, i) {
        ids_under(keys, n.key@).push(id)
    } else {
        ids_under(keys, n.key@)
    }
    &&& i > 0 ==> has_node(keys, n.key@) || on_path(nodes, pend, d, i)
}

/// The nodes are those that `keys` calls for, and the first `d` edges of
/// the pending key; each holds what is filed at and under it.
spec fn content(nodes: Seq<Node>, keys: Seq<Seq<Edge>>, pend: Seq<Edge>, d: int, id: usize) -> bool {
    &&& forall|i: int| 0 <= i < nodes.len() ==> #[trigger] content_at(nodes, keys, pend, d, id, i)
    &&& forall|k: Seq<Edge>| #[trigger] has_node(keys, k) ==> indexed(nodes, k)
    &&& forall|l: int| 0 <= l <= d ==> indexed(nodes, #[trigger] pend.take(l))
}

/// A node that has a key one edge longer than that of `cur` is a child of
/// `cur` under that edge.
proof fn lemma_indexed_child(nodes: Seq<Node>, cur: int, e: Edge)
    requires
        shape(nodes),
        0 <= cur < nodes.len(),
        indexed(nodes, nodes[cur].key@.push(e)),
    ensures
        exists|c: int|
            0 <= c < nodes.len() && linked(nodes, cur, e, c) && (#[trigger] nodes[c]).key@
                == nodes[cur].key@.push(e),
{
    let k = nodes[cur].key@.push(e);
    let c = choose|c: int| 0 <= c < nodes.len() && (#[trigger] nodes[c]).key@ == k;
    assert(shape_at(nodes, c));
    assert(c > 0);
    assert(k.drop_last() =~= nodes[cur].key@);
    assert(k.last() == e);
    let p = nodes[c].parent@;
    assert(nodes[p].key@ == nodes[cur].key@);
    assert(p == cur);
}

impl View for Recognizer {
    type V = Seq<Seq<Edge>>;

    closed spec fn view(&self) -> Seq<Seq<Edge>> {
        self.keys@
    }
}

impl Recognizer {
    /// The invariant: the nodes form the tree of the registered keys.
    pub closed spec fn wf(&self) -> bool {
        &&& shape(self.nodes@)
        &&& content(self.nodes@, self.keys@, Seq::empty(), -1, 0)
    }

    /// A recognizer without patterns.
    pub fn new() -> (r: Recognizer)
        ensures
            r.wf(),
            r@ == Seq::<Seq<Edge>>::empty(),
    {
        let root = Node {
            key: Ghost(Seq::empty()),
            parent: Ghost(0),
            statics: Vec::new(),
            capture: None,
            wildcard: None,
            endpoints: Vec::new(),
            reachable: Vec::new(),
        };
        let mut nodes: Vec<Node> = Vec::new();
        nodes.push(root);
        let r = Recognizer { nodes, keys: Ghost(Seq::empty()) };
        proof {
            assert(shape_at(r.nodes@, 0));
            assert(content_at(r.nodes@, r.keys@, Seq::empty(), -1, 0, 0));
        }
        r
    }

    /// The number of registered patterns.
    pub fn len(&self) -> (n: usize)
        requires
            self.wf(),
        ensures
            n == self@.len(),
    {
        proof {
            assert(content_at(self.nodes@, self.keys@, Seq::empty(), -1, 0, 0));
            lemma_ids_under_root(self.keys@);
        }
        self.nodes[0].reachable.len()
    }

    /// In a well-formed tree a key of at least one edge has a node exactly
    /// when a registered key passes through it.
    proof fn lemma_indexed_iff_node(&self, k: Seq<Edge>)
        requires
            self.wf(),
            k.len() > 0,
        ensures
            indexed(self.nodes@, k) == has_node(self.keys@, k),
    {
        if indexed(self.nodes@, k) {
            let i = choose|i: int| 0 <= i < self.nodes@.len() && (#[trigger] self.nodes@[i]).key@ == k;
            assert(content_at(self.nodes@, self.keys@, Seq::empty(), -1, 0, i));
        }
    }

    /// The literal child of `cur` whose literal is `path[from..to]`.
    fn find_static(&self, cur: usize, path: &[u8], from: usize, to: usize) -> (r: Option<usize>)
        requires
            shape(self.nodes@),
            cur < self.nodes@.len(),
            from <= to <= path@.len(),
        ensures
            match r {
                Some(c) => c < self.nodes@.len() && self.nodes@[c as int].key@
                    == self.nodes@[cur as int].key@.push(
                    Edge::Lit(path@.subrange(from as int, to as int)),
                ),
                None => !indexed(
                    self.nodes@,
                    self.nodes@[cur as int].key@.push(
                        Edge::Lit(path@.subrange(from as int, to as int)),
                    ),
                ),
            },
    {
        let ghost seg = path@.subrange(from as int, to as int);
        let node = &self.nodes[cur];
        assert(shape_at(self.nodes@, cur as int));
        let mut j: usize = 0;
        while j < node.statics.len()
            invariant
                j <= node.statics@.len(),
                from <= to <= path@.len(),
                seg == path@.subrange(from as int, to as int),
                cur < self.nodes@.len(),
                *node == self.nodes@[cur as int],
                shape_at(self.nodes@, cur as int),
                forall|t: int| 0 <= t < j ==> (#[trigger] node.statics@[t]).0@ != seg,
            decreases node.statics@.len() - j,
        {
            if range_eq(path, from, to, node.statics[j].0.as_slice()) {
                let c = node.statics[j].1;
                assert(node.statics@[j as int].1 < self.nodes@.len());
                return Some(c);
            }
            j = j + 1;
        }
        proof {
            if indexed(self.nodes@, node.key@.push(Edge::Lit(seg))) {
                lemma_indexed_child(self.nodes@, cur as int, Edge::Lit(seg));
            }
        }
        None
    }

    /// The outcome of a descent that stops at `node` without a match.
    fn unmatched_at<'a>(&'a self, node: usize) -> (r: Recognized<'a>)
        requires
            self.wf(),
            node < self.nodes@.len(),
        ensures
            r@ == unmatched(self@, self.nodes@[node as int].key@),
    {
        proof {
            assert(shape_at(self.nodes@, node as int));
            assert(content_at(self.nodes@, self.keys@, Seq::empty(), -1, 0, node as int));
        }
        if node == 0 || self.nodes[node].reachable.len() == 0 {
            Recognized::NotMatched
        } else {
            Recognized::PartiallyMatched { candidates: &self.nodes[node].reachable }
        }
    }

    /// The outcome of a descent that has consumed the path at `node`.
    fn settle_at<'a>(&'a self, node: usize, captures: Captures) -> (r: Recognized<'a>)
        requires
            self.wf(),
            node < self.nodes@.len(),
        ensures
            r@ == settle(self@, self.nodes@[node as int].key@, captures@),
    {
        proof {
            assert(content_at(self.nodes@, self.keys@, Seq::empty(), -1, 0, node as int));
        }
        if self.nodes[node].endpoints.len() > 0 {
            Recognized::Found { ids: &self.nodes[node].endpoints, captures }
        } else {
            self.unmatched_at(node)
        }
    }

    /// The child of `cur` under the edge `e`.
    fn find_child(&self, cur: usize, e: &Step) -> (r: Option<usize>)
        requires
            shape(self.nodes@),
            cur < self.nodes@.len(),
        ensures
            match r {
                Some(c) => c < self.nodes@.len() && self.nodes@[c as int].key@
                    == self.nodes@[cur as int].key@.push(e@),
                None => !indexed(self.nodes@, self.nodes@[cur as int].key@.push(e@)),
            },
    {
        proof {
            assert(shape_at(self.nodes@, cur as int));
            if indexed(self.nodes@, self.nodes@[cur as int].key@.push(e@)) {
                lemma_indexed_child(self.nodes@, cur as int, e@);
            }
        }
        match e {
            Step::Lit(s) => {
                assert(s@.subrange(0, s@.len() as int) =~= s@);
                self.find_static(cur, s, 0, s.len())
            },
            Step::Cap => self.nodes[cur].capture,
            Step::Wild => self.nodes[cur].wildcard,
        }
    }

    /// Moves one edge down the path of the pending key, making the node if
    /// it is not there, and enters the pending identifier in its list.
    fn descend(
        &mut self,
        cur: usize,
        e: Step,
        id: usize,
        Ghost(pend): Ghost<Seq<Edge>>,
        Ghost(d): Ghost<int>,
    ) -> (next: usize)
        requires
            shape(old(self).nodes@),
            content(old(self).nodes@, old(self).keys@, pend, d, id),
            cur < old(self).nodes@.len(),
            0 <= d < pend.len(),
            old(self).nodes@[cur as int].key@ == pend.take(d),
            pend[d] == e@,
        ensures
            shape(final(self).nodes@),
            content(final(self).nodes@, final(self).keys@, pend, d + 1, id),
            final(self).keys@ == old(self).keys@,
            next < final(self).nodes@.len(),
            final(self).nodes@[next as int].key@ == pend.take(d + 1),
    {
        let ghost old_nodes = self.nodes@;
        assert(pend.take(d + 1) =~= pend.take(d).push(pend[d]));
        match self.find_child(cur, &e) {
            Some(c) => {
                self.nodes[c].reachable.push(id);
                proof {
                    lemma_push_reachable(old_nodes, self.nodes@, self.keys@, pend, d, id, c as int);
                }
                c
            },
            None => {
                let c = self.nodes.len();
                let mut reachable: Vec<usize> = Vec::new();
                reachable.push(id);
                let node = Node {
                    key: Ghost(pend.take(d + 1)),
                    parent: Ghost(cur as int),
                    statics: Vec::new(),
                    capture: None,
                    wildcard: None,
                    endpoints: Vec::new(),
                    reachable,
                };
                self.nodes.push(node);
                match e {
                    Step::Lit(s) => {
                        let lit = copy_bytes(s);
                        self.nodes[cur].statics.push((lit, c));
                    },
                    Step::Cap => {
                        self.nodes[cur].capture = Some(c);
                    },
                    Step::Wild => {
                        self.nodes[cur].wildcard = Some(c);
                    },
                }
                proof {
                    assert(self.nodes@[c as int].reachable@ =~= seq![id]);
                    lemma_add_child(old_nodes, self.nodes@, self.keys@, pend, d, id, cur as int);
                }
                c
            },
        }
    }

    /// Registers a pattern and returns its identifier: the number of
    /// patterns registered before it.
    pub fn insert(&mut self, uri: &Uri) -> (id: usize)
        requires
            old(self).wf(),
        ensures
            final(self).wf(),
            final(self)@ == old(self)@.push(key_of(uri@)),
            id == old(self)@.len(),
    {
        let ghost pend = key_of(uri@);
        let ghost old_nodes = self.nodes@;
        proof {
            assert(content_at(self.nodes@, self.keys@, Seq::empty(), -1, 0, 0));
            lemma_ids_under_root(self.keys@);
        }
        let id = self.nodes[0].reachable.len();
        self.nodes[0].reachable.push(id);
        proof {
            assert(pend.take(0) =~= Seq::empty());
            assert(old_nodes[0].key@ =~= pend.take(0));
            lemma_enter(old_nodes, self.keys@, pend, id);
            lemma_push_reachable(old_nodes, self.nodes@, self.keys@, pend, -1, id, 0);
        }
        let mut cur: usize = 0;
        if uri.is_asterisk() {
            let mut lit: Vec<u8> = Vec::new();
            lit.push(0x2f);
            assert(lit@ =~= seq![0x2fu8]);
            cur = self.descend(0, Step::Lit(lit.as_slice()), id, Ghost(pend), Ghost(0));
        } else if uri.len() == 0 {
            let lit: Vec<u8> = Vec::new();
            assert(lit@ =~= Seq::empty());
            cur = self.descend(0, Step::Lit(lit.as_slice()), id, Ghost(pend), Ghost(0));
        } else {
            let mut i: usize = 0;
            while i < uri.len()
                invariant
                    i <= uri@.components.len(),
                    !uri@.asterisk,
                    uri@.components.len() > 0,
                    pend == key_of(uri@),
                    shape(self.nodes@),
                    content(self.nodes@, self.keys@, pend, i as int, id),
                    self.keys@ == old(self).keys@,
                    cur < self.nodes@.len(),
                    self.nodes@[cur as int].key@ == pend.take(i as int),
                decreases uri@.components.len() - i,
            {
                let empty: Vec<u8> = Vec::new();
                assert(empty@ =~= Seq::empty());
                let step = match uri.component(i) {
                    UriComponent::Static(s) => Step::Lit(s.as_slice()),
                    UriComponent::Slash => Step::Lit(empty.as_slice()),
                    UriComponent::Capture(_) => Step::Cap,
                    UriComponent::Wildcard(_) => Step::Wild,
                };
                cur = self.descend(cur, step, id, Ghost(pend), Ghost(i as int));
                i = i + 1;
            }
        }
        assert(pend.take(pend.len() as int) =~= pend);
        let ghost mid_nodes = self.nodes@;
        self.nodes[cur].endpoints.push(id);
        proof {
            lemma_finish(mid_nodes, self.nodes@, self.keys@, pend, id, cur as int);
        }
        self.keys = Ghost(self.keys@.push(pend));
        id
    }

    /// The node that the first `n` components of `uri` lead to.
    fn locate(&self, uri: &Uri, n: usize) -> (r: Option<usize>)
        requires
            self.wf(),
            !uri@.asterisk,
            0 < uri@.components.len(),
            n <= uri@.components.len(),
        ensures
            match r {
                Some(c) => c < self.nodes@.len() && self.nodes@[c as int].key@ == key_of(uri@).take(
                    n as int,
                ),
                None => !has_node(self@, key_of(uri@).take(n as int)),
            },
    {
        let ghost pend = key_of(uri@);
        let mut cur: usize = 0;
        let mut i: usize = 0;
        assert(self.nodes@[0].key@ =~= pend.take(0));
        while i < n
            invariant
                i <= n <= uri@.components.len(),
                !uri@.asterisk,
                uri@.components.len() > 0,
                pend == key_of(uri@),
                self.wf(),
                cur < self.nodes@.len(),
                self.nodes@[cur as int].key@ == pend.take(i as int),
            decreases n - i,
        {
            let empty: Vec<u8> = Vec::new();
            assert(empty@ =~= Seq::empty());
            let step = match uri.component(i) {
                UriComponent::Static(s) => Step::Lit(s.as_slice()),
                UriComponent::Slash => Step::Lit(empty.as_slice()),
                UriComponent::Capture(_) => Step::Cap,
                UriComponent::Wildcard(_) => Step::Wild,
            };
            assert(pend.take(i + 1) =~= pend.take(i as int).push(pend[i as int]));
            match self.find_child(cur, &step) {
                Some(c) => {
                    cur = c;
                },
                None => {
                    proof {
                        let k = pend.take(i + 1);
                        let full = pend.take(n as int);
                        self.lemma_indexed_iff_node(k);
                        if has_node(self@, full) {
                            let j = choose|j: int|
                                0 <= j < self@.len() && full.is_prefix_of(#[trigger] self@[j]);
                            assert(k.is_prefix_of(self@[j]));
                        }
                    }
                    return None;
                },
            }
            i = i + 1;
        }
        Some(cur)
    }

    /// Whether a wildcard at the end of `uri` could never be reached.
    pub fn shadows_wildcard(&self, uri: &Uri) -> (b: bool)
        requires
            self.wf(),
        ensures
            b == wildcard_shadowed(self@, key_of(uri@)),
    {
        let n = uri.len();
        if uri.is_asterisk() || n == 0 {
            return false;
        }
        let ghost pend = key_of(uri@);
        let ghost stem = pend.drop_last();
        assert(stem =~= pend.take(n - 1));
        let wild = match uri.component(n - 1) {
            UriComponent::Wildcard(_) => true,
            _ => false,
        };
        if !wild {
            return false;
        }
        match self.locate(uri, n - 1) {
            None => {
                proof {
                    if has_node(self@, stem.push(Edge::Cap)) {
                        let j = choose|j: int|
                            0 <= j < self@.len() && stem.push(Edge::Cap).is_prefix_of(
                                #[trigger] self@[j],
                            );
                        assert(stem.is_prefix_of(self@[j]));
                    }
                }
                false
            },
            Some(p) => {
                let empty: Vec<u8> = Vec::new();
                assert(empty@ =~= Seq::empty());
                proof {
                    self.lemma_indexed_iff_node(stem.push(Edge::Cap));
                    self.lemma_indexed_iff_node(stem.push(Edge::Lit(Seq::empty())));
                }
                let cap = self.find_child(p, &Step::Cap);
                let slash = self.find_child(p, &Step::Lit(empty.as_slice()));
                cap.is_some() && slash.is_some()
            },
        }
    }

    /// The identifiers of the patterns that are filed under the key of
    /// `uri`, if there are any.
    pub fn registered<'a>(&'a self, uri: &Uri) -> (r: Option<&'a Vec<usize>>)
        requires
            self.wf(),
        ensures
            match r {
                Some(ids) => ids@ == ids_at(self@, key_of(uri@)) && ids@.len() > 0,
                None => ids_at(self@, key_of(uri@)).len() == 0,
            },
    {
        let ghost pend = key_of(uri@);
        let mut cur: usize = 0;
        assert(self.nodes@[0].key@ =~= pend.take(0));
        if uri.is_asterisk() || uri.len() == 0 {
            let mut lit: Vec<u8> = Vec::new();
            if uri.is_asterisk() {
                lit.push(0x2f);
                assert(lit@ =~= seq![0x2fu8]);
            } else {
                assert(lit@ =~= Seq::empty());
            }
            assert(pend =~= pend.take(0).push(Edge::Lit(lit@)));
            match self.find_child(0, &Step::Lit(lit.as_slice())) {
                Some(c) => {
                    cur = c;
                },
                None => {
                    proof {
                        self.lemma_indexed_iff_node(pend);
                        lemma_ids_under_has_node(self@, pend);
                    }
                    return None;
                },
            }
        } else {
            match self.locate(uri, uri.len()) {
                Some(c) => {
                    cur = c;
                },
                None => {
                    proof {
                        assert(pend.take(pend.len() as int) =~= pend);
                        lemma_ids_under_has_node(self@, pend);
                    }
                    return None;
                },
            }
        }
        assert(pend.take(pend.len() as int) =~= pend);
        proof {
            assert(content_at(self.nodes@, self.keys@, Seq::empty(), -1, 0, cur as int));
        }
        if self.nodes[cur].endpoints.len() > 0 {
            Some(&self.nodes[cur].endpoints)
        } else {
            None
        }
    }

    /// Matches a request path against the registered patterns.
    pub fn recognize<'a>(&'a self, path: &[u8]) -> (r: Recognized<'a>)
        requires
            self.wf(),
        ensures
            r@ == recognize_path(self@, path@),
    {
        if path.len() == 1 && path[0] == 0x2a {
            assert(path@ =~= seq![0x2au8]);
            let mut lit: Vec<u8> = Vec::new();
            lit.push(0x2f);
            let ghost k = seq![Edge::Lit(seq![0x2fu8])];
            assert(lit@.subrange(0, 1) =~= seq![0x2fu8]);
            assert(self.nodes@[0].key@.push(Edge::Lit(seq![0x2fu8])) =~= k);
            proof {
                self.lemma_indexed_iff_node(k);
                lemma_ids_under_has_node(self@, k);
            }
            match self.find_static(0, lit.as_slice(), 0, 1) {
                Some(c) => {
                    let captures = Captures { params: Vec::new(), wildcard: None };
                    assert(captures@.params =~= Seq::empty());
                    return self.settle_at(c, captures);
                },
                None => {
                    return Recognized::NotMatched;
                },
            }
        }
        assert(path@ != seq![0x2au8]) by {
            if path@ == seq![0x2au8] {
                assert(seq![0x2au8].len() == 1);
                assert(seq![0x2au8][0] == 0x2au8);
            }
        }
        if path.len() == 0 || path[0] != 0x2f {
            return Recognized::NotMatched;
        }
        let mut cur: usize = 0;
        let mut pos: usize = 1;
        let mut params: Vec<(usize, usize)> = Vec::new();
        assert(self.nodes@[0].key@ =~= Seq::empty());
        assert(spans(params@) =~= Seq::empty());
        loop
            invariant
                self.wf(),
                cur < self.nodes@.len(),
                1 <= pos <= path@.len(),
                recognize_path(self@, path@) == walk(
                    self@,
                    self.nodes@[cur as int].key@,
                    path@,
                    pos as int,
                    spans(params@),
                ),
            decreases path@.len() - pos,
        {
            let e = find_seg_end(path, pos);
            let ghost seg = path@.subrange(pos as int, e as int);
            let ghost key = self.nodes@[cur as int].key@;
            proof {
                self.lemma_indexed_iff_node(key.push(Edge::Lit(seg)));
                self.lemma_indexed_iff_node(key.push(Edge::Cap));
                self.lemma_indexed_iff_node(key.push(Edge::Wild));
                assert(shape_at(self.nodes@, cur as int));
                if indexed(self.nodes@, key.push(Edge::Cap)) {
                    lemma_indexed_child(self.nodes@, cur as int, Edge::Cap);
                }
                if indexed(self.nodes@, key.push(Edge::Wild)) {
                    lemma_indexed_child(self.nodes@, cur as int, Edge::Wild);
                }
            }
            let next: usize;
            match self.find_static(cur, path, pos, e) {
                Some(c) => {
                    next = c;
                },
                None => {
                    let node = &self.nodes[cur];
                    if e > pos && node.capture.is_some() {
                        let c = node.capture.unwrap();
                        assert(self.nodes@[c as int].key@ == key.push(Edge::Cap));
                        let ghost before = spans(params@);
                        params.push((pos, e));
                        assert(spans(params@) =~= before.push((pos as int, e as int)));
                        next = c;
                    } else if node.wildcard.is_some() {
                        let c = node.wildcard.unwrap();
                        assert(self.nodes@[c as int].key@ == key.push(Edge::Wild));
                        assert(!(e > pos) || !indexed(self.nodes@, key.push(Edge::Cap)));
                        return self.settle_at(
                            c,
                            Captures { params, wildcard: Some((pos, path.len())) },
                        );
                    } else {
                        assert(!(e > pos) || !indexed(self.nodes@, key.push(Edge::Cap)));
                        assert(!indexed(self.nodes@, key.push(Edge::Wild)));
                        if e == pos {
                            return Recognized::NotMatched;
                        }
                        return self.unmatched_at(cur);
                    }
                },
            }
            if e == path.len() {
                return self.settle_at(next, Captures { params, wildcard: None });
            }
            cur = next;
            pos = e + 1;
        }
    }
}

/// One edge of a key that is being registered.
enum Step<'a> {
    Lit(&'a [u8]),
    Cap,
    Wild,
}

impl<'a> View for Step<'a> {
    type V = Edge;

    closed spec fn view(&self) -> Edge {
        match self {
            Step::Lit(s) => Edge::Lit(s@),
            Step::Cap => Edge::Cap,
            Step::Wild => Edge::Wild,
        }
    }
}

/// Whether two nodes have the same key and the same links.
spec fn same_links(a: Node, b: Node) -> bool {
    &&& a.key@ == b.key@
    &&& a.parent@ == b.parent@
    &&& a.statics == b.statics
    &&& a.capture == b.capture
    &&& a.wildcard == b.wildcard
}

/// A change that touches no key and no link keeps the shape.
proof fn lemma_shape_same_links(old: Seq<Node>, new: Seq<Node>)
    requires
        shape(old),
        new.len() == old.len(),
        forall|i: int| 0 <= i < old.len() ==> same_links(old[i], #[trigger] new[i]),
    ensures
        shape(new),
{
    assert forall|i: int| 0 <= i < new.len() implies #[trigger] shape_at(new, i) by {
        assert(shape_at(old, i));
        assert(same_links(old[i], new[i]));
        if i > 0 {
            let p = old[i].parent@;
            assert(same_links(old[p], new[p]));
            assert(linked(new, p, new[i].key@.last(), i));
        }
        assert forall|j: int| 0 <= j < new[i].statics@.len() implies (
        #[trigger] new[i].statics@[j]).1 < new.len() && new[new[i].statics@[j].1 as int].key@
            == new[i].key@.push(Edge::Lit(new[i].statics@[j].0@)) by {
            let c = old[i].statics@[j].1 as int;
            assert(same_links(old[c], new[c]));
        }
        if let Some(c) = new[i].capture {
            assert(same_links(old[c as int], new[c as int]));
        }
        if let Some(c) = new[i].wildcard {
            assert(same_links(old[c as int], new[c as int]));
        }
    }
    assert forall|i: int, j: int|
        #![trigger new[i], new[j]]
        0 <= i < new.len() && 0 <= j < new.len() && new[i].key@ == new[j].key@ implies i == j by {
        assert(same_links(old[i], new[i]));
        assert(same_links(old[j], new[j]));
    }
    assert(same_links(old[0], new[0]));
}

/// A key that has a node keeps it when no key changes.
proof fn lemma_indexed_same_keys(old: Seq<Node>, new: Seq<Node>, k: Seq<Edge>)
    requires
        new.len() >= old.len(),
        forall|i: int| 0 <= i < old.len() ==> old[i].key@ == (#[trigger] new[i]).key@,
        indexed(old, k),
    ensures
        indexed(new, k),
{
    let i = choose|i: int| 0 <= i < old.len() && (#[trigger] old[i]).key@ == k;
    assert(new[i].key@ == k);
}

/// The identifier of the pending key is added to the list of the node one
/// edge further down its path.
proof fn lemma_push_reachable(
    old: Seq<Node>,
    new: Seq<Node>,
    keys: Seq<Seq<Edge>>,
    pend: Seq<Edge>,
    d: int,
    id: usize,
    c: int,
)
    requires
        shape(old),
        content(old, keys, pend, d, id),
        -1 <= d < pend.len(),
        0 <= c < old.len(),
        old[c].key@ == pend.take(d + 1),
        new.len() == old.len(),
        forall|i: int| 0 <= i < old.len() && i != c ==> old[i] == #[trigger] new[i],
        same_links(old[c], new[c]),
        new[c].endpoints == old[c].endpoints,
        new[c].reachable@ == old[c].reachable@.push(id),
    ensures
        shape(new),
        content(new, keys, pend, d + 1, id),
{
    assert forall|i: int| 0 <= i < old.len() implies same_links(old[i], #[trigger] new[i]) by {}
    lemma_shape_same_links(old, new);
    assert forall|i: int| 0 <= i < new.len() implies #[trigger] content_at(
        new,
        keys,
        pend,
        d + 1,
        id,
        i,
    ) by {
        assert(content_at(old, keys, pend, d, id, i));
        assert(same_links(old[i], new[i]));
        if i == c {
            assert(on_path(new, pend, d + 1, i));
            assert(!on_path(old, pend, d, i));
        } else {
            // No other node lies one edge further down the path: its key
            // would be that of `c`.
            assert(on_path(new, pend, d + 1, i) == on_path(old, pend, d, i)) by {
                if on_path(new, pend, d + 1, i) && !on_path(old, pend, d, i) {
                    assert(old[i].key@ =~= pend.take(d + 1));
                    assert(i == c);
                }
            }
        }
    }
    assert forall|k: Seq<Edge>| #[trigger] has_node(keys, k) implies indexed(new, k) by {
        lemma_indexed_same_keys(old, new, k);
    }
    assert forall|l: int| 0 <= l <= d + 1 implies indexed(new, #[trigger] pend.take(l)) by {
        if l <= d {
            lemma_indexed_same_keys(old, new, pend.take(l));
        } else {
            assert(new[c].key@ == pend.take(l));
        }
    }
}

/// A new node is hung under `cur` for the next edge of the pending key.
proof fn lemma_add_child(
    old: Seq<Node>,
    new: Seq<Node>,
    keys: Seq<Seq<Edge>>,
    pend: Seq<Edge>,
    d: int,
    id: usize,
    cur: int,
)
    requires
        shape(old),
        content(old, keys, pend, d, id),
        0 <= d < pend.len(),
        0 <= cur < old.len(),
        old[cur].key@ == pend.take(d),
        !indexed(old, pend.take(d + 1)),
        new.len() == old.len() + 1,
        forall|i: int| 0 <= i < old.len() && i != cur ==> old[i] == #[trigger] new[i],
        new[cur].key@ == old[cur].key@,
        new[cur].parent@ == old[cur].parent@,
        new[cur].endpoints == old[cur].endpoints,
        new[cur].reachable == old[cur].reachable,
        match pend[d] {
            Edge::Lit(s) => new[cur].capture == old[cur].capture && new[cur].wildcard
                == old[cur].wildcard && new[cur].statics@.len() == old[cur].statics@.len() + 1 && (
            forall|j: int|
                0 <= j < old[cur].statics@.len() ==> #[trigger] new[cur].statics@[j]
                    == old[cur].statics@[j]) && new[cur].statics@.last().0@ == s
                && new[cur].statics@.last().1 == old.len(),
            Edge::Cap => new[cur].statics == old[cur].statics && new[cur].wildcard
                == old[cur].wildcard && new[cur].capture == Some(old.len() as usize),
            Edge::Wild => new[cur].statics == old[cur].statics && new[cur].capture
                == old[cur].capture && new[cur].wildcard == Some(old.len() as usize),
        },
        old.len() <= usize::MAX,
        new[old.len() as int].key@ == pend.take(d + 1),
        new[old.len() as int].parent@ == cur,
        new[old.len() as int].statics@.len() == 0,
        new[old.len() as int].capture.is_none(),
        new[old.len() as int].wildcard.is_none(),
        new[old.len() as int].endpoints@.len() == 0,
        new[old.len() as int].reachable@ == seq![id],
    ensures
        shape(new),
        content(new, keys, pend, d + 1, id),
{
    let c = old.len() as int;
    let e = pend[d];
    let kc = pend.take(d + 1);
    assert(kc =~= old[cur].key@.push(e));
    assert(kc.drop_last() =~= old[cur].key@);
    assert(kc.last() == e);
    assert(shape_at(old, cur));
    // The edge was free in `cur`.
    assert(e is Cap ==> old[cur].capture.is_none()) by {
        if e is Cap && old[cur].capture.is_some() {
            let x = old[cur].capture->Some_0 as int;
            assert(old[x].key@ == kc);
        }
    }
    assert(e is Wild ==> old[cur].wildcard.is_none()) by {
        if e is Wild && old[cur].wildcard.is_some() {
            let x = old[cur].wildcard->Some_0 as int;
            assert(old[x].key@ == kc);
        }
    }
    assert forall|i: int| 0 <= i < old.len() implies old[i].key@ == (#[trigger] new[i]).key@ by {}
    assert forall|i: int| 0 <= i < new.len() implies #[trigger] shape_at(new, i) by {
        if i == c {
            match e {
                Edge::Lit(s) => {
                    let j = new[cur].statics@.len() - 1;
                    assert(new[cur].statics@[j].0@ == s);
                },
                _ => {},
            }
            assert(linked(new, cur, e, c));
        } else {
            assert(shape_at(old, i));
            if i > 0 {
                let p = old[i].parent@;
                let le = old[i].key@.last();
                assert(linked(old, p, le, i));
                if p == cur {
                    match le {
                        Edge::Lit(s) => {
                            let j = choose|j: int|
                                0 <= j < old[p].statics@.len() && (
                                #[trigger] old[p].statics@[j]).0@ == s && old[p].statics@[j].1 == i;
                            if e is Lit {
                                assert(new[cur].statics@[j] == old[cur].statics@[j]);
                            } else {
                                assert(new[cur].statics@[j] == old[cur].statics@[j]);
                            }
                        },
                        _ => {},
                    }
                }
                assert(linked(new, p, le, i));
            }
            assert forall|j: int| 0 <= j < new[i].statics@.len() implies (
            #[trigger] new[i].statics@[j]).1 < new.len() && new[new[i].statics@[j].1 as int].key@
                == new[i].key@.push(Edge::Lit(new[i].statics@[j].0@)) by {
                if i == cur && e is Lit && j == new[i].statics@.len() - 1 {
                } else {
                    if i == cur && e is Lit {
                        assert(new[cur].statics@[j] == old[cur].statics@[j]);
                    }
                    let x = old[i].statics@[j].1 as int;
                    assert(old[x].key@ == new[x].key@);
                }
            }
            if let Some(x) = new[i].capture {
                if !(i == cur && e is Cap) {
                    assert(old[x as int].key@ == new[x as int].key@);
                }
            }
            if let Some(x) = new[i].wildcard {
                if !(i == cur && e is Wild) {
                    assert(old[x as int].key@ == new[x as int].key@);
                }
            }
        }
    }
    assert forall|i: int, j: int|
        #![trigger new[i], new[j]]
        0 <= i < new.len() && 0 <= j < new.len() && new[i].key@ == new[j].key@ implies i == j by {
        if i < c && j < c {
            assert(old[i].key@ == new[i].key@);
            assert(old[j].key@ == new[j].key@);
        } else if i < c {
            assert(old[i].key@ == kc);
        } else if j < c {
            assert(old[j].key@ == kc);
        }
    }
    assert(new[0].key@ == old[0].key@);
    // Nothing is filed at or under the new key yet.
    assert(!has_node(keys, kc));
    lemma_ids_under_has_node(keys, kc);
    assert forall|i: int| 0 <= i < new.len() implies #[trigger] content_at(
        new,
        keys,
        pend,
        d + 1,
        id,
        i,
    ) by {
        if i == c {
            assert(on_path(new, pend, d + 1, i));
            assert(ids_at(keys, kc) =~= Seq::empty());
            assert(new[c].endpoints@ =~= Seq::empty());
            assert(ids_under(keys, kc).push(id) =~= seq![id]);
        } else {
            assert(content_at(old, keys, pend, d, id, i));
            // No old node lies one edge further down the path: the key was
            // free.
            assert(on_path(new, pend, d + 1, i) == on_path(old, pend, d, i)) by {
                if on_path(new, pend, d + 1, i) && !on_path(old, pend, d, i) {
                    assert(old[i].key@ =~= pend.take(d + 1));
                    assert(indexed(old, pend.take(d + 1)));
                }
            }
        }
    }
    assert forall|k: Seq<Edge>| #[trigger] has_node(keys, k) implies indexed(new, k) by {
        lemma_indexed_same_keys(old, new, k);
    }
    assert forall|l: int| 0 <= l <= d + 1 implies indexed(new, #[trigger] pend.take(l)) by {
        if l <= d {
            lemma_indexed_same_keys(old, new, pend.take(l));
        } else {
            assert(new[c].key@ == pend.take(l));
        }
    }
}

/// The pending key is filed at the node that its path ends on.
proof fn lemma_finish(
    old: Seq<Node>,
    new: Seq<Node>,
    keys: Seq<Seq<Edge>>,
    pend: Seq<Edge>,
    id: usize,
    cur: int,
)
    requires
        shape(old),
        content(old, keys, pend, pend.len() as int, id),
        0 <= cur < old.len(),
        old[cur].key@ == pend,
        id == keys.len(),
        new.len() == old.len(),
        forall|i: int| 0 <= i < old.len() && i != cur ==> old[i] == #[trigger] new[i],
        same_links(old[cur], new[cur]),
        new[cur].reachable == old[cur].reachable,
        new[cur].endpoints@ == old[cur].endpoints@.push(id),
    ensures
        shape(new),
        content(new, keys.push(pend), Seq::empty(), -1, 0),
{
    let keys2 = keys.push(pend);
    assert(keys2.drop_last() =~= keys);
    assert(keys2.last() == pend);
    assert forall|i: int| 0 <= i < old.len() implies same_links(old[i], #[trigger] new[i]) by {}
    lemma_shape_same_links(old, new);
    assert forall|i: int| 0 <= i < new.len() implies #[trigger] content_at(
        new,
        keys2,
        Seq::empty(),
        -1,
        0,
        i,
    ) by {
        assert(content_at(old, keys, pend, pend.len() as int, id, i));
        assert(same_links(old[i], new[i]));
        let k = new[i].key@;
        if k == pend {
            assert(i == cur);
        }
        if i > 0 {
            if has_node(keys, k) {
                let j = choose|j: int| 0 <= j < keys.len() && k.is_prefix_of(#[trigger] keys[j]);
                assert(keys2[j] == keys[j]);
            } else {
                assert(k.is_prefix_of(keys2[keys2.len() - 1]));
            }
        }
    }
    assert forall|k: Seq<Edge>| #[trigger] has_node(keys2, k) implies indexed(new, k) by {
        let j = choose|j: int| 0 <= j < keys2.len() && k.is_prefix_of(#[trigger] keys2[j]);
        if j < keys.len() {
            assert(keys[j] == keys2[j]);
            assert(has_node(keys, k));
            lemma_indexed_same_keys(old, new, k);
        } else {
            assert(k =~= pend.take(k.len() as int));
            lemma_indexed_same_keys(old, new, pend.take(k.len() as int));
        }
    }
}

/// With no edge of the pending key entered yet, the tree of the registered
/// keys is as it stands.
proof fn lemma_enter(nodes: Seq<Node>, keys: Seq<Seq<Edge>>, pend: Seq<Edge>, id: usize)
    requires
        shape(nodes),
        content(nodes, keys, Seq::empty(), -1, 0),
    ensures
        content(nodes, keys, pend, -1, id),
{
    assert forall|i: int| 0 <= i < nodes.len() implies #[trigger] content_at(
        nodes,
        keys,
        pend,
        -1,
        id,
        i,
    ) by {
        assert(content_at(nodes, keys, Seq::empty(), -1, 0, i));
    }
}

/// Every registered key is filed under the root.
proof fn lemma_ids_under_root(keys: Seq<Seq<Edge>>)
    ensures
        ids_under(keys, Seq::empty()).len() == keys.len(),
    decreases keys.len(),
{
    if keys.len() > 0 {
        lemma_ids_under_root(keys.drop_last());
        assert(Seq::<Edge>::empty().is_prefix_of(keys.last()));
    }
}

} // verus!
