//! The InkML document tree and its breadth-first walk.
//!
//! A document is an `Ink` holding a forest of `Traces`; a `Traces` is
//! either a single `Trace` (a polyline of vertices) or a `TraceGroup`
//! holding a further forest.  The vertex type `P` is left to the user of the
//! library (the drawing program stores pairs of screen coordinates).
use std::collections::VecDeque;
use vstd::prelude::*;
use vstd::seq_lib::*;

verus! {

/// A whole InkML document.
#[derive(Debug)]
pub struct Ink<P> {
    pub traces: Vec<Traces<P>>,
}

/// One pen stroke: the vertices it passes through, in order.
#[derive(Debug)]
pub struct Trace<P> {
    pub vertices: Vec<P>,
}

/// A group of traces (which may hold further groups).
#[derive(Debug)]
pub struct TraceGroup<P> {
    pub traces: Vec<Traces<P>>,
}

/// An element of a trace forest.
#[derive(Debug)]
pub enum Traces<P> {
    Trace(Trace<P>),
    TraceGroup(TraceGroup<P>),
}

impl<P> Default for Ink<P> {
    fn default() -> (r: Self)
        ensures
            r.traces@ == Seq::<Traces<P>>::empty(),
    {
        Ink { traces: Vec::new() }
    }
}

impl<P> Default for Trace<P> {
    fn default() -> (r: Self)
        ensures
            r.vertices@ == Seq::<P>::empty(),
    {
        Trace { vertices: Vec::new() }
    }
}

impl<P> Default for TraceGroup<P> {
    fn default() -> (r: Self)
        ensures
            r.traces@ == Seq::<Traces<P>>::empty(),
    {
        TraceGroup { traces: Vec::new() }
    }
}

/// A node met while walking a document: the document itself or one of the
/// trace elements inside it.
#[derive(Debug)]
pub enum Node<'a, P> {
    Ink(&'a Ink<P>),
    Traces(&'a Traces<P>),
}

/// The value a `Node` points at.
pub enum NodeView<P> {
    Ink(Ink<P>),
    Traces(Traces<P>),
}

impl<'a, P> View for Node<'a, P> {
    type V = NodeView<P>;

    open spec fn view(&self) -> NodeView<P> {
        match *self {
            Node::Ink(ink) => NodeView::Ink(*ink),
            Node::Traces(t) => NodeView::Traces(*t),
        }
    }
}

/// A trace element as a value: a trace's vertices, or a group's elements.
pub enum TraceTree<P> {
    Trace(Seq<P>),
    Group(Seq<TraceTree<P>>),
}

pub open spec fn traces_tree<P>(t: Traces<P>) -> TraceTree<P>
    decreases t, 0nat,
{
    match t {
        Traces::Trace(tr) => TraceTree::Trace(tr.vertices@),
        Traces::TraceGroup(g) => TraceTree::Group(forest_tree(g.traces@)),
    }
}

/// A forest of trace elements as values.
pub open spec fn forest_tree<P>(s: Seq<Traces<P>>) -> Seq<TraceTree<P>>
    decreases s, 1nat,
{
    if s.len() == 0 {
        Seq::empty()
    } else {
        seq![traces_tree(s[0])] + forest_tree(s.drop_first())
    }
}

pub proof fn lemma_forest_tree_push<P>(s: Seq<Traces<P>>, t: Traces<P>)
    ensures
        forest_tree(s.push(t)) == forest_tree(s).push(traces_tree(t)),
    decreases s.len(),
{
    if s.len() == 0 {
        let one = s.push(t);
        assert(one[0] == t);
        assert(one.drop_first() =~= Seq::<Traces<P>>::empty());
        assert(forest_tree(one.drop_first()) =~= Seq::<TraceTree<P>>::empty());
        assert(forest_tree(s) =~= Seq::<TraceTree<P>>::empty());
        assert(forest_tree(one) =~= forest_tree(s).push(traces_tree(t)));
    } else {
        assert(s.push(t).drop_first() =~= s.drop_first().push(t));
        assert(s.push(t)[0] == s[0]);
        lemma_forest_tree_push(s.drop_first(), t);
        assert(forest_tree(s.push(t)) =~= forest_tree(s).push(traces_tree(t)));
    }
}

/// The nodes that the walk visits right after `n`: the elements of the
/// forest directly inside it, in document order.
pub open spec fn forest_nodes<P>(s: Seq<Traces<P>>) -> Seq<NodeView<P>> {
    s.map_values(|t: Traces<P>| NodeView::Traces(t))
}

pub open spec fn children<P>(n: NodeView<P>) -> Seq<NodeView<P>> {
    match n {
        NodeView::Ink(ink) => forest_nodes(ink.traces@),
        NodeView::Traces(Traces::TraceGroup(g)) => forest_nodes(g.traces@),
        NodeView::Traces(Traces::Trace(_)) => Seq::empty(),
    }
}

/// Number of trace elements in a subtree, the element itself included.
pub open spec fn traces_size<P>(t: Traces<P>) -> nat
    decreases t, 0nat,
{
    match t {
        Traces::Trace(_) => 1,
        Traces::TraceGroup(g) => 1 + forest_size(g.traces@),
    }
}

/// Number of trace elements in a forest, nested ones included.
pub open spec fn forest_size<P>(s: Seq<Traces<P>>) -> nat
    decreases s, 1nat,
{
    if s.len() == 0 {
        0
    } else {
        traces_size(s[0]) + forest_size(s.drop_first())
    }
}

/// Number of nodes in the subtree below `n`, `n` included.
pub open spec fn node_size<P>(n: NodeView<P>) -> nat {
    match n {
        NodeView::Ink(ink) => 1 + forest_size(ink.traces@),
        NodeView::Traces(t) => traces_size(t),
    }
}

/// Number of nodes in all the subtrees below the nodes of `q`.
pub open spec fn queue_size<P>(q: Seq<NodeView<P>>) -> nat
    decreases q.len(),
{
    if q.len() == 0 {
        0
    } else {
        node_size(q[0]) + queue_size(q.drop_first())
    }
}

pub proof fn lemma_queue_size_concat<P>(a: Seq<NodeView<P>>, b: Seq<NodeView<P>>)
    ensures
        queue_size(a + b) == queue_size(a) + queue_size(b),
    decreases a.len(),
{
    if a.len() > 0 {
        assert((a + b).drop_first() =~= a.drop_first() + b);
        lemma_queue_size_concat(a.drop_first(), b);
    } else {
        assert(a + b =~= b);
    }
}

pub proof fn lemma_forest_nodes_size<P>(s: Seq<Traces<P>>)
    ensures
        queue_size(forest_nodes(s)) == forest_size(s),
    decreases s.len(),
{
    if s.len() > 0 {
        assert(forest_nodes(s).drop_first() =~= forest_nodes(s.drop_first()));
        lemma_forest_nodes_size(s.drop_first());
    }
}

/// A node's subtree is the node itself and the subtrees of its children.
pub proof fn lemma_children_size<P>(n: NodeView<P>)
    ensures
        node_size(n) == 1 + queue_size(children(n)),
{
    match n {
        NodeView::Ink(ink) => lemma_forest_nodes_size(ink.traces@),
        NodeView::Traces(Traces::TraceGroup(g)) => lemma_forest_nodes_size(g.traces@),
        NodeView::Traces(Traces::Trace(_)) => {},
    }
}

/// One step of the walk leaves one node less to visit.
pub proof fn lemma_step_size<P>(q: Seq<NodeView<P>>)
    requires
        q.len() > 0,
    ensures
        queue_size(q.drop_first() + children(q[0])) + 1 == queue_size(q),
{
    lemma_queue_size_concat(q.drop_first(), children(q[0]));
    lemma_children_size(q[0]);
}

/// The order in which a walk that starts from the queue `q` visits nodes:
/// take the front node, append its children at the back, repeat.
pub open spec fn bfs<P>(q: Seq<NodeView<P>>) -> Seq<NodeView<P>>
    decreases queue_size(q),
{
    if q.len() == 0 {
        Seq::empty()
    } else {
        proof {
            lemma_step_size(q);
        }
        seq![q[0]] + bfs(q.drop_first() + children(q[0]))
    }
}

/// The breadth-first walk of a whole document.
pub open spec fn walk<P>(ink: Ink<P>) -> Seq<NodeView<P>> {
    bfs(seq![NodeView::Ink(ink)])
}

/// The subtree below `n` in document order: `n`, then the subtrees of its
/// children one after the other.
pub open spec fn subtree<P>(n: NodeView<P>) -> Seq<NodeView<P>>
    decreases node_size(n), 1nat,
{
    proof {
        lemma_children_size(n);
    }
    seq![n] + forest_subtrees(children(n))
}

/// The subtrees below the nodes of `q`, one after the other.
pub open spec fn forest_subtrees<P>(q: Seq<NodeView<P>>) -> Seq<NodeView<P>>
    decreases queue_size(q), 2nat,
{
    if q.len() == 0 {
        Seq::empty()
    } else {
        subtree(q[0]) + forest_subtrees(q.drop_first())
    }
}

proof fn lemma_forest_subtrees_concat<P>(a: Seq<NodeView<P>>, b: Seq<NodeView<P>>)
    ensures
        forest_subtrees(a + b) == forest_subtrees(a) + forest_subtrees(b),
    decreases a.len(),
{
    if a.len() == 0 {
        assert(a + b =~= b);
        assert(forest_subtrees(a) + forest_subtrees(b) =~= forest_subtrees(b));
    } else {
        assert((a + b).drop_first() =~= a.drop_first() + b);
        assert((a + b)[0] == a[0]);
        lemma_forest_subtrees_concat(a.drop_first(), b);
        assert(forest_subtrees(a + b) =~= forest_subtrees(a) + forest_subtrees(b));
    }
}

/// The walk from a queue visits every node below the queued ones exactly
/// once: what it visits, counted with multiplicity, is the union of their
/// subtrees.
pub proof fn lemma_bfs_visits_each_node_once<P>(q: Seq<NodeView<P>>)
    ensures
        bfs(q).to_multiset() == forest_subtrees(q).to_multiset(),
        bfs(q).len() == queue_size(q),
    decreases queue_size(q),
{
    broadcast use lemma_multiset_commutative;

    if q.len() > 0 {
        let rest = q.drop_first();
        let kids = children(q[0]);
        lemma_step_size(q);
        lemma_bfs_visits_each_node_once(rest + kids);
        lemma_forest_subtrees_concat(rest, kids);
        let lhs = seq![q[0]] + bfs(rest + kids);
        assert(bfs(q) == lhs);
        assert(subtree(q[0]) == seq![q[0]] + forest_subtrees(kids));
        assert(forest_subtrees(q) =~= seq![q[0]] + forest_subtrees(kids) + forest_subtrees(rest));
        assert(lhs.to_multiset() =~= seq![q[0]].to_multiset().add(
            forest_subtrees(rest).to_multiset().add(forest_subtrees(kids).to_multiset()),
        ));
        assert(forest_subtrees(q).to_multiset() =~= seq![q[0]].to_multiset().add(
            forest_subtrees(kids).to_multiset(),
        ).add(forest_subtrees(rest).to_multiset()));
    }
}

/// Walking a document starts at the document node, visits every node of the
/// document exactly once, and visits nothing else.
pub proof fn lemma_walk_visits_each_node_once<P>(ink: Ink<P>)
    ensures
        walk(ink).len() == node_size(NodeView::Ink(ink)),
        walk(ink)[0] == NodeView::Ink(ink),
        walk(ink).to_multiset() == subtree(NodeView::Ink(ink)).to_multiset(),
{
    let q = seq![NodeView::Ink(ink)];
    lemma_bfs_visits_each_node_once(q);
    lemma_step_size(q);
    assert(q.drop_first() =~= Seq::<NodeView<P>>::empty());
    assert(forest_subtrees(q.drop_first()) =~= Seq::<NodeView<P>>::empty());
    assert(forest_subtrees(q) =~= subtree(NodeView::Ink(ink)));
    assert(queue_size(q.drop_first()) == 0);
}

/// `after` is `before` with one more trace, through `vertices`, at the end.
pub open spec fn with_new_trace<P>(before: Ink<P>, after: Ink<P>, vertices: Seq<P>) -> bool {
    &&& after.traces@.len() == before.traces@.len() + 1
    &&& after.traces@.take(before.traces@.len() as int) == before.traces@
    &&& after.traces@.last() matches Traces::Trace(t) && t.vertices@ == vertices
}

/// The traces among the nodes of `q`, in the order of `q`.
pub open spec fn strokes_of<P>(q: Seq<NodeView<P>>) -> Seq<Trace<P>>
    decreases q.len(),
{
    if q.len() == 0 {
        Seq::empty()
    } else {
        match q.last() {
            NodeView::Traces(Traces::Trace(t)) => strokes_of(q.drop_last()).push(t),
            _ => strokes_of(q.drop_last()),
        }
    }
}

/// The node is a trace (not a group, not the document).
pub open spec fn is_trace_node<P>(n: NodeView<P>) -> bool {
    n matches NodeView::Traces(Traces::Trace(_))
}

/// The strokes of a node sequence are exactly its trace nodes, in order,
/// and nothing else: a trace node adds its trace at the end, any other node
/// adds nothing, and as nodes the strokes are the trace nodes filtered out
/// of the sequence.
pub proof fn lemma_strokes_are_the_trace_nodes<P>(q: Seq<NodeView<P>>, n: NodeView<P>)
    ensures
        n matches NodeView::Traces(Traces::Trace(t)) ==> strokes_of(q.push(n)) == strokes_of(
            q,
        ).push(t),
        !is_trace_node(n) ==> strokes_of(q.push(n)) == strokes_of(q),
        strokes_of(q).map_values(|t: Trace<P>| NodeView::Traces(Traces::Trace(t))) == q.filter(
            |m: NodeView<P>| is_trace_node(m),
        ),
    decreases q.len(),
{
    assert(q.push(n).drop_last() =~= q);
    reveal(Seq::filter);
    if q.len() > 0 {
        lemma_strokes_are_the_trace_nodes(q.drop_last(), q.last());
        assert(q.drop_last().push(q.last()) =~= q);
        let f = |t: Trace<P>| NodeView::Traces(Traces::Trace(t));
        let before = strokes_of(q.drop_last());
        match q.last() {
            NodeView::Traces(Traces::Trace(t)) => {
                assert(before.push(t).map_values(f) =~= before.map_values(f).push(f(t)));
            },
            _ => {},
        }
    } else {
        assert(strokes_of(q).map_values(|t: Trace<P>| NodeView::Traces(Traces::Trace(t)))
            =~= q.filter(|m: NodeView<P>| is_trace_node(m)));
    }
}

/// A document with one more trace at the end: whatever the document ended
/// with (a group included), its elements stay as they were and in place,
/// and one top-level trace through exactly `vertices` follows them.
pub proof fn lemma_new_trace_is_appended<P>(before: Ink<P>, after: Ink<P>, vertices: Seq<P>)
    requires
        with_new_trace(before, after, vertices),
    ensures
        after.traces@.len() == before.traces@.len() + 1,
        forall|i: int| 0 <= i < before.traces@.len() ==> after.traces@[i] == before.traces@[i],
        after.traces@[before.traces@.len() as int] matches Traces::Trace(t) && t.vertices@
            == vertices,
{
    assert forall|i: int| 0 <= i < before.traces@.len() implies after.traces@[i]
        == before.traces@[i] by {
        assert(after.traces@.take(before.traces@.len() as int)[i] == after.traces@[i]);
    }
}

/// A queue of nodes still to visit; `next` hands them out breadth first.
pub struct NodeIter<'a, P> {
    queue: VecDeque<Node<'a, P>>,
}

impl<'a, P> View for NodeIter<'a, P> {
    type V = Seq<NodeView<P>>;

    closed spec fn view(&self) -> Seq<NodeView<P>> {
        self.queue@.map_values(|n: Node<'a, P>| n@)
    }
}

/// Appends a node for each element of `traces` at the back of `queue`.
fn enqueue_forest<'a, P>(queue: &mut VecDeque<Node<'a, P>>, traces: &'a Vec<Traces<P>>)
    ensures
        final(queue)@.map_values(|n: Node<'a, P>| n@) == old(queue)@.map_values(
            |n: Node<'a, P>| n@,
        ) + forest_nodes(traces@),
{
    let ghost start = old(queue)@.map_values(|n: Node<'a, P>| n@);
    let mut i: usize = 0;
    while i < traces.len()
        invariant
            i <= traces@.len(),
            queue@.map_values(|n: Node<'a, P>| n@) == start + forest_nodes(
                traces@.take(i as int),
            ),
        decreases traces@.len() - i,
    {
        let ghost prev = queue@;
        let node = Node::Traces(&traces[i]);
        assert(node@ == NodeView::Traces(traces@[i as int]));
        queue.push_back(node);
        assert(queue@.map_values(|n: Node<'a, P>| n@) =~= prev.map_values(|n: Node<'a, P>| n@).push(
            NodeView::Traces(traces@[i as int]),
        ));
        assert(forest_nodes(traces@.take(i + 1)) =~= forest_nodes(traces@.take(i as int)).push(
            NodeView::Traces(traces@[i as int]),
        ));
        assert(queue@.map_values(|n: Node<'a, P>| n@) =~= start + forest_nodes(
            traces@.take(i + 1),
        ));
        i += 1;
    }
    assert(traces@.take(i as int) =~= traces@);
}

impl<'a, P> NodeIter<'a, P> {
    /// Hands out the front node, after queueing the elements directly
    /// inside it behind everything already queued.
    pub fn next(&mut self) -> (r: Option<Node<'a, P>>)
        ensures
            old(self)@.len() == 0 ==> r is None && final(self)@ == old(self)@,
            old(self)@.len() > 0 ==> (r matches Some(n) && n@ == old(self)@[0] && final(self)@
                == old(self)@.drop_first() + children(old(self)@[0])),
    {
        let ghost before = self@;
        let next = self.queue.pop_front();
        proof {
            if before.len() > 0 {
                assert(self@ =~= before.drop_first());
            }
        }
        match &next {
            Some(Node::Ink(ink)) => {
                let ink: &'a Ink<P> = *ink;
                enqueue_forest(&mut self.queue, &ink.traces);
            },
            Some(Node::Traces(Traces::TraceGroup(group))) => {
                enqueue_forest(&mut self.queue, &group.traces);
            },
            _ => {
                proof {
                    if before.len() > 0 {
                        assert(children(before[0]) =~= Seq::<NodeView<P>>::empty());
                        assert(self@ =~= before.drop_first() + children(before[0]));
                    }
                }
            },
        }
        next
    }
}

impl<P> Ink<P> {
    /// A walk over this document that starts at the document node.
    pub fn iter<'a>(&'a self) -> (r: NodeIter<'a, P>)
        ensures
            r@ == seq![NodeView::Ink(*self)],
    {
        let mut queue = VecDeque::new();
        queue.push_back(Node::Ink(self));
        let r = NodeIter { queue };
        assert(r@ =~= seq![NodeView::Ink(*self)]);
        r
    }

    /// Every node of the document, in the order the walk visits them.
    pub fn nodes<'a>(&'a self) -> (r: Vec<Node<'a, P>>)
        ensures
            r@.map_values(|n: Node<'a, P>| n@) == walk(*self),
    {
        let mut it = self.iter();
        let mut out: Vec<Node<'a, P>> = Vec::new();
        loop
            invariant
                out@.map_values(|n: Node<'a, P>| n@) + bfs(it@) == walk(*self),
            decreases queue_size(it@),
        {
            let ghost before = it@;
            match it.next() {
                None => {
                    assert(bfs(before) =~= Seq::<NodeView<P>>::empty());
                    assert(out@.map_values(|n: Node<'a, P>| n@) + bfs(before) =~= out@.map_values(
                        |n: Node<'a, P>| n@,
                    ));
                    return out;
                },
                Some(n) => {
                    proof {
                        lemma_step_size(before);
                    }
                    let ghost old_out = out@.map_values(|n: Node<'a, P>| n@);
                    out.push(n);
                    assert(out@.map_values(|n: Node<'a, P>| n@) =~= old_out.push(before[0]));
                    assert(old_out + bfs(before) =~= old_out.push(before[0]) + bfs(it@));
                },
            }
        }
    }

    /// The traces of the document (not the groups), in the order the walk
    /// visits them: what the drawing program draws, one polyline each.
    pub fn strokes<'a>(&'a self) -> (r: Vec<&'a Trace<P>>)
        ensures
            r@.map_values(|t: &'a Trace<P>| *t) == strokes_of(walk(*self)),
            r@.map_values(|t: &'a Trace<P>| NodeView::Traces(Traces::Trace(*t))) == walk(
                *self,
            ).filter(|m: NodeView<P>| is_trace_node(m)),
    {
        let nodes = self.nodes();
        let ghost seen = nodes@.map_values(|n: Node<'a, P>| n@);
        let mut out: Vec<&'a Trace<P>> = Vec::new();
        let mut i: usize = 0;
        while i < nodes.len()
            invariant
                i <= nodes@.len(),
                seen == nodes@.map_values(|n: Node<'a, P>| n@),
                out@.map_values(|t: &'a Trace<P>| *t) == strokes_of(seen.take(i as int)),
            decreases nodes@.len() - i,
        {
            let ghost before = out@.map_values(|t: &'a Trace<P>| *t);
            assert(seen.take(i + 1).drop_last() =~= seen.take(i as int));
            assert(seen.take(i + 1).last() == seen[i as int]);
            match nodes[i] {
                Node::Traces(Traces::Trace(t)) => {
                    out.push(t);
                    assert(out@.map_values(|t: &'a Trace<P>| *t) =~= before.push(*t));
                },
                _ => {},
            }
            i += 1;
        }
        assert(seen.take(i as int) =~= seen);
        proof {
            lemma_strokes_are_the_trace_nodes(walk(*self), NodeView::Ink(*self));
            let f = |t: &'a Trace<P>| NodeView::Traces(Traces::Trace(*t));
            let g = |t: Trace<P>| NodeView::Traces(Traces::Trace(t));
            assert(out@.map_values(f) =~= out@.map_values(|t: &'a Trace<P>| *t).map_values(g));
        }
        out
    }

    /// Adds a new trace through `trace`'s points at the end of the document.
    pub fn draw(&mut self, trace: &[P])
        where P: Copy,
        ensures
            with_new_trace(*old(self), *final(self), trace@),
            final(self).traces@.len() == old(self).traces@.len() + 1,
            forall|i: int|
                0 <= i < old(self).traces@.len() ==> final(self).traces@[i] == old(self).traces@[i],
            final(self).traces@[old(self).traces@.len() as int] matches Traces::Trace(t)
                && t.vertices@ == trace@,
    {
        let mut vertices: Vec<P> = Vec::new();
        let mut i: usize = 0;
        while i < trace.len()
            invariant
                i <= trace@.len(),
                vertices@ == trace@.take(i as int),
            decreases trace@.len() - i,
        {
            vertices.push(trace[i]);
            assert(vertices@ =~= trace@.take(i + 1));
            i += 1;
        }
        assert(trace@.take(i as int) =~= trace@);
        let ghost before = self.traces@;
        self.traces.push(Traces::Trace(Trace { vertices }));
        assert(self.traces@.take(before.len() as int) =~= before);
        proof {
            lemma_new_trace_is_appended(*old(self), *self, trace@);
        }
    }
}

} // verus!
