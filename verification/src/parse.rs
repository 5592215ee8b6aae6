//! Rebuilding a document from the events of the XML reader.
//!
//! The builder keeps the names of the open elements and a stack of the
//! InkML nodes (`ink`, `trace`, `traceGroup`) that are open and not yet part
//! of the tree.  Closing one of those elements pops its node and hands it to
//! the node below, if that node takes children; an `ink` that closes with
//! nothing below it becomes the document.  Character data inside a `trace`
//! is handed back to the caller, which turns it into vertices and gives them
//! to `append_vertices`.
use crate::error::InkmlError;
use crate::inkml::{
    forest_tree, lemma_forest_tree_push, traces_tree, Ink, Trace, TraceGroup, TraceTree, Traces,
};
use crate::xml_io::{XmlIn, XmlInView};
use vstd::prelude::*;

verus! {

/// A node that is open while a document is read.
#[derive(Debug)]
pub enum Node<P> {
    Ink(Ink<P>),
    Trace(Trace<P>),
    TraceGroup(TraceGroup<P>),
}

/// What the builder asks of its caller after an event.
#[derive(Debug)]
pub enum ParseStep {
    /// Nothing: go on with the next event.
    Continue,
    /// This text stands inside the trace being read: turn it into vertices
    /// and hand them to `append_vertices`.
    ParseVertices(String),
}

/// The state of the document builder.
#[derive(Debug)]
pub struct InkParser<P> {
    name_stack: Vec<String>,
    parse_stack: Vec<Node<P>>,
    root: Ink<P>,
}

/// The builder's state as values: the names of the open elements, the open
/// InkML nodes (innermost last), and the document as built so far.
pub struct ParserView<P> {
    pub names: Seq<Seq<char>>,
    pub stack: Seq<Node<P>>,
    pub root: Ink<P>,
}

impl<P> View for InkParser<P> {
    type V = ParserView<P>;

    closed spec fn view(&self) -> ParserView<P> {
        ParserView {
            names: self.name_stack@.map_values(|s: String| s@),
            stack: self.parse_stack@,
            root: self.root,
        }
    }
}

/// The element names that open an InkML node.
pub open spec fn is_node_name(name: Seq<char>) -> bool {
    name == "ink"@ || name == "trace"@ || name == "traceGroup"@
}

/// `n` is the empty node that an opening tag called `name` pushes.
pub open spec fn opened<P>(name: Seq<char>, n: Node<P>) -> bool {
    if name == "ink"@ {
        n matches Node::Ink(i) && i.traces@.len() == 0
    } else if name == "trace"@ {
        n matches Node::Trace(t) && t.vertices@.len() == 0
    } else {
        n matches Node::TraceGroup(g) && g.traces@.len() == 0
    }
}

/// The nodes that take the elements closed inside them.
pub open spec fn takes_children<P>(n: Node<P>) -> bool {
    n is Ink || n is TraceGroup
}

/// `after` is `before` with `child` added after its elements.
pub open spec fn with_child<P>(before: Node<P>, child: Traces<P>, after: Node<P>) -> bool {
    match before {
        Node::Ink(i) => after matches Node::Ink(j) && j.traces@ == i.traces@.push(child),
        Node::TraceGroup(g) => after matches Node::TraceGroup(h) && h.traces@ == g.traces@.push(
            child,
        ),
        Node::Trace(_) => false,
    }
}

/// `after` is the stack `rest` once `child` is handed to its top node: the
/// child joins that node if it takes children, and is dropped otherwise.
pub open spec fn handed_to_top<P>(rest: Seq<Node<P>>, child: Traces<P>, after: Seq<Node<P>>) -> bool {
    if rest.len() > 0 && takes_children(rest.last()) {
        &&& after.len() == rest.len()
        &&& after.drop_last() == rest.drop_last()
        &&& with_child(rest.last(), child, after.last())
    } else {
        after == rest
    }
}

/// `after` is `before` once its innermost open node is closed.
pub open spec fn closed_top<P>(before: ParserView<P>, after: ParserView<P>) -> bool {
    let rest = before.stack.drop_last();
    &&& after.names == (if before.names.len() > 0 {
        before.names.drop_last()
    } else {
        before.names
    })
    &&& match before.stack.last() {
        Node::Ink(ink) => after.stack == rest && after.root == (if rest.len() == 0 {
            ink
        } else {
            before.root
        }),
        Node::Trace(t) => after.root == before.root && handed_to_top(
            rest,
            Traces::Trace(t),
            after.stack,
        ),
        Node::TraceGroup(g) => after.root == before.root && handed_to_top(
            rest,
            Traces::TraceGroup(g),
            after.stack,
        ),
    }
}

/// Character data now belongs to a trace: the innermost open element is a
/// `trace` and the innermost open node is a trace.
pub open spec fn reads_vertices<P>(s: ParserView<P>) -> bool {
    &&& s.names.len() > 0
    &&& s.names.last() == "trace"@
    &&& s.stack.len() > 0
    &&& s.stack.last() is Trace
}

/// One event of the reader, as the builder handles it: the state after it
/// and what the builder answers.
pub open spec fn feed_result<P>(
    before: ParserView<P>,
    event: XmlInView,
    after: ParserView<P>,
    r: Result<ParseStep, InkmlError>,
) -> bool {
    match event {
        XmlInView::StartElement(name) => {
            &&& r matches Ok(ParseStep::Continue)
            &&& after.names == before.names.push(name)
            &&& after.root == before.root
            &&& if is_node_name(name) {
                &&& after.stack.len() == before.stack.len() + 1
                &&& after.stack.drop_last() == before.stack
                &&& opened(name, after.stack.last())
            } else {
                after.stack == before.stack
            }
        },
        XmlInView::EndElement(name) => {
            if !is_node_name(name) {
                r matches Ok(ParseStep::Continue) && after == before
            } else if before.stack.len() == 0 {
                r matches Err(InkmlError::InvalidInkml) && after == before
            } else {
                r matches Ok(ParseStep::Continue) && closed_top(before, after)
            }
        },
        XmlInView::Characters(text) => {
            &&& after == before
            &&& if reads_vertices(before) {
                r matches Ok(ParseStep::ParseVertices(t)) && t@ == text
            } else {
                r matches Ok(ParseStep::Continue)
            }
        },
        XmlInView::Other => r matches Ok(ParseStep::Continue) && after == before,
    }
}

/// An open InkML node as a value.
pub enum OpenNode<P> {
    Ink(Seq<TraceTree<P>>),
    Trace(Seq<P>),
    Group(Seq<TraceTree<P>>),
}

/// The builder's state as a value: the names of the open elements, the
/// open InkML nodes (innermost last), and the elements of the document.
#[verifier::ext_equal]
pub struct Build<P> {
    pub names: Seq<Seq<char>>,
    pub stack: Seq<OpenNode<P>>,
    pub root: Seq<TraceTree<P>>,
}

pub open spec fn open_node<P>(n: Node<P>) -> OpenNode<P> {
    match n {
        Node::Ink(i) => OpenNode::Ink(forest_tree(i.traces@)),
        Node::Trace(t) => OpenNode::Trace(t.vertices@),
        Node::TraceGroup(g) => OpenNode::Group(forest_tree(g.traces@)),
    }
}

pub open spec fn build_view<P>(s: ParserView<P>) -> Build<P> {
    Build {
        names: s.names,
        stack: s.stack.map_values(|n: Node<P>| open_node(n)),
        root: forest_tree(s.root.traces@),
    }
}

/// The builder before any event.
pub open spec fn empty_build<P>() -> Build<P> {
    Build { names: Seq::empty(), stack: Seq::empty(), root: Seq::empty() }
}

/// `stack` once `child` is handed to its top node: it joins that node if
/// the node takes children, and is dropped otherwise.
pub open spec fn hand_child<P>(stack: Seq<OpenNode<P>>, child: TraceTree<P>) -> Seq<OpenNode<P>> {
    if stack.len() == 0 {
        stack
    } else {
        match stack.last() {
            OpenNode::Ink(c) => stack.update(stack.len() - 1, OpenNode::Ink(c.push(child))),
            OpenNode::Group(c) => stack.update(stack.len() - 1, OpenNode::Group(c.push(child))),
            OpenNode::Trace(_) => stack,
        }
    }
}

/// Text now belongs to a trace: the innermost open element is a `trace`
/// and the innermost open node is a trace.
pub open spec fn wants_vertices<P>(b: Build<P>) -> bool {
    &&& b.names.len() > 0
    &&& b.names.last() == "trace"@
    &&& b.stack.len() > 0
    &&& b.stack.last() is Trace
}

/// `b` with `vertices` added after the vertices of its innermost node, a
/// trace.
pub open spec fn with_vertices<P>(b: Build<P>, vertices: Seq<P>) -> Build<P> {
    Build {
        stack: b.stack.update(
            b.stack.len() - 1,
            OpenNode::Trace(b.stack.last()->Trace_0 + vertices),
        ),
        ..b
    }
}

/// One reader event as the builder takes it, `vertices` being what the
/// event's text stands for if the text belongs to a trace; `None` where the
/// event is refused.
pub open spec fn build_step<P>(b: Build<P>, event: XmlInView, vertices: Seq<P>) -> Option<Build<P>> {
    match event {
        XmlInView::StartElement(name) => Some(
            Build {
                names: b.names.push(name),
                stack: if name == "ink"@ {
                    b.stack.push(OpenNode::Ink(Seq::empty()))
                } else if name == "trace"@ {
                    b.stack.push(OpenNode::Trace(Seq::empty()))
                } else if name == "traceGroup"@ {
                    b.stack.push(OpenNode::Group(Seq::empty()))
                } else {
                    b.stack
                },
                root: b.root,
            },
        ),
        XmlInView::EndElement(name) => {
            if !is_node_name(name) {
                Some(b)
            } else if b.stack.len() == 0 {
                None
            } else {
                let rest = b.stack.drop_last();
                let names = if b.names.len() > 0 {
                    b.names.drop_last()
                } else {
                    b.names
                };
                match b.stack.last() {
                    OpenNode::Ink(c) => Some(
                        Build {
                            names,
                            stack: rest,
                            root: if rest.len() == 0 {
                                c
                            } else {
                                b.root
                            },
                        },
                    ),
                    OpenNode::Trace(v) => Some(
                        Build { names, stack: hand_child(rest, TraceTree::Trace(v)), root: b.root },
                    ),
                    OpenNode::Group(c) => Some(
                        Build { names, stack: hand_child(rest, TraceTree::Group(c)), root: b.root },
                    ),
                }
            }
        },
        XmlInView::Characters(_) => if wants_vertices(b) {
            Some(with_vertices(b, vertices))
        } else {
            Some(b)
        },
        XmlInView::Other => Some(b),
    }
}

/// What the builder makes of `events` from `b`, the text of the `i`-th
/// event standing for `answers[i]`; `None` where an event is refused.
pub open spec fn build<P>(b: Build<P>, events: Seq<XmlInView>, answers: Seq<Seq<P>>) -> Option<
    Build<P>,
>
    decreases events.len(),
{
    if events.len() == 0 {
        Some(b)
    } else {
        match build_step(b, events[0], answers[0]) {
            None => None,
            Some(next) => build(next, events.drop_first(), answers.drop_first()),
        }
    }
}

proof fn lemma_open_nodes_push<P>(s: Seq<Node<P>>, n: Node<P>)
    ensures
        s.push(n).map_values(|m: Node<P>| open_node(m)) == s.map_values(|m: Node<P>| open_node(m)).push(
            open_node(n),
        ),
{
    assert(s.push(n).map_values(|m: Node<P>| open_node(m)) =~= s.map_values(
        |m: Node<P>| open_node(m),
    ).push(open_node(n)));
}

proof fn lemma_handed_mirrors<P>(rest: Seq<Node<P>>, child: Traces<P>, after: Seq<Node<P>>)
    requires
        handed_to_top(rest, child, after),
    ensures
        after.map_values(|m: Node<P>| open_node(m)) == hand_child(
            rest.map_values(|m: Node<P>| open_node(m)),
            traces_tree(child),
        ),
{
    let rv = rest.map_values(|m: Node<P>| open_node(m));
    let av = after.map_values(|m: Node<P>| open_node(m));
    if rest.len() > 0 && takes_children(rest.last()) {
        assert(after =~= after.drop_last().push(after.last()));
        lemma_open_nodes_push(after.drop_last(), after.last());
        assert(rest =~= rest.drop_last().push(rest.last()));
        lemma_open_nodes_push(rest.drop_last(), rest.last());
        match rest.last() {
            Node::Ink(i) => {
                let j = after.last()->Ink_0;
                lemma_forest_tree_push(i.traces@, child);
                assert(av =~= hand_child(rv, traces_tree(child)));
            },
            Node::TraceGroup(g) => {
                let h = after.last()->TraceGroup_0;
                lemma_forest_tree_push(g.traces@, child);
                assert(av =~= hand_child(rv, traces_tree(child)));
            },
            Node::Trace(_) => {},
        }
    } else {
        if rest.len() > 0 {
            assert(rv.last() == open_node(rest.last()));
        }
    }
}

/// What `feed` does, as the builder's step on values.
proof fn lemma_feed_mirrors<P>(
    before: ParserView<P>,
    event: XmlInView,
    after: ParserView<P>,
    r: Result<ParseStep, InkmlError>,
)
    requires
        feed_result(before, event, after, r),
    ensures
        r is Err <==> build_step(build_view(before), event, Seq::empty()) is None,
        r matches Ok(ParseStep::Continue) ==> build_step(build_view(before), event, Seq::empty())
            == Some(build_view(after)),
        r matches Ok(ParseStep::ParseVertices(_)) ==> event is Characters && wants_vertices(
            build_view(before),
        ) && after == before,
{
    let b = build_view(before);
    match event {
        XmlInView::StartElement(name) => {
            if is_node_name(name) {
                assert(after.stack =~= before.stack.push(after.stack.last()));
                lemma_open_nodes_push(before.stack, after.stack.last());
                assert(forest_tree(Seq::<Traces<P>>::empty()) =~= Seq::<TraceTree<P>>::empty());
                match after.stack.last() {
                    Node::Ink(i) => {
                        assert(i.traces@ =~= Seq::<Traces<P>>::empty());
                    },
                    Node::TraceGroup(g) => {
                        assert(g.traces@ =~= Seq::<Traces<P>>::empty());
                    },
                    Node::Trace(t) => {
                        assert(t.vertices@ =~= Seq::<P>::empty());
                    },
                }
                assert(build_step(b, event, Seq::empty()).unwrap() =~= build_view(after));
            } else {
                assert(build_step(b, event, Seq::empty()).unwrap() =~= build_view(after));
            }
        },
        XmlInView::EndElement(name) => {
            if is_node_name(name) && before.stack.len() > 0 {
                let rest = before.stack.drop_last();
                assert(before.stack =~= rest.push(before.stack.last()));
                lemma_open_nodes_push(rest, before.stack.last());
                match before.stack.last() {
                    Node::Ink(ink) => {
                        assert(build_step(b, event, Seq::empty()).unwrap() =~= build_view(after));
                    },
                    Node::Trace(t) => {
                        lemma_handed_mirrors(rest, Traces::Trace(t), after.stack);
                        assert(build_step(b, event, Seq::empty()).unwrap() =~= build_view(after));
                    },
                    Node::TraceGroup(g) => {
                        lemma_handed_mirrors(rest, Traces::TraceGroup(g), after.stack);
                        assert(build_step(b, event, Seq::empty()).unwrap() =~= build_view(after));
                    },
                }
            }
        },
        XmlInView::Characters(_) => {
            if before.stack.len() > 0 {
                assert(b.stack.last() == open_node(before.stack.last()));
            }
        },
        XmlInView::Other => {},
    }
}

fn is_named(s: &String, name: &str) -> (b: bool)
    ensures
        b == (s@ == name@),
{
    let expected = name.to_owned();
    *s == expected
}

/// The empty node that an opening tag called `name` pushes, if any.
fn node_for<P>(name: &String) -> (r: Option<Node<P>>)
    ensures
        is_node_name(name@) <==> r is Some,
        r matches Some(n) ==> opened(name@, n),
{
    if is_named(name, "ink") {
        Some(Node::Ink(Ink::default()))
    } else if is_named(name, "trace") {
        Some(Node::Trace(Trace::default()))
    } else if is_named(name, "traceGroup") {
        Some(Node::TraceGroup(TraceGroup::default()))
    } else {
        None
    }
}

fn is_node_element(name: &String) -> (b: bool)
    ensures
        b == is_node_name(name@),
{
    is_named(name, "ink") || is_named(name, "trace") || is_named(name, "traceGroup")
}

/// Hands `child` to the top node of `stack`, if that node takes children.
fn hand_to_top<P>(stack: &mut Vec<Node<P>>, child: Traces<P>)
    ensures
        handed_to_top(old(stack)@, child, final(stack)@),
{
    let ghost before = stack@;
    match stack.pop() {
        None => {},
        Some(Node::Ink(mut ink)) => {
            let ghost i0 = ink;
            ink.traces.push(child);
            stack.push(Node::Ink(ink));
            assert(stack@.drop_last() =~= before.drop_last());
            assert(with_child(Node::Ink(i0), child, stack@.last()));
        },
        Some(Node::TraceGroup(mut group)) => {
            let ghost g0 = group;
            group.traces.push(child);
            stack.push(Node::TraceGroup(group));
            assert(stack@.drop_last() =~= before.drop_last());
            assert(with_child(Node::TraceGroup(g0), child, stack@.last()));
        },
        Some(Node::Trace(trace)) => {
            stack.push(Node::Trace(trace));
            assert(stack@ =~= before);
        },
    }
}

impl<P> InkParser<P> {
    /// A builder that has read nothing: no open element, no open node, and
    /// an empty document.
    pub fn new() -> (r: Self)
        ensures
            r@.names == Seq::<Seq<char>>::empty(),
            r@.stack == Seq::<Node<P>>::empty(),
            r@.root.traces@ == Seq::<Traces<P>>::empty(),
            build_view(r@) == empty_build::<P>(),
    {
        let r = InkParser { name_stack: Vec::new(), parse_stack: Vec::new(), root: Ink::default() };
        assert(r@.names =~= Seq::<Seq<char>>::empty());
        assert(forest_tree(r@.root.traces@) =~= Seq::<TraceTree<P>>::empty());
        assert(build_view(r@) =~= empty_build::<P>());
        r
    }

    /// Handles one event of the reader.  Fails with `InvalidInkml` exactly
    /// when an `ink`, `trace` or `traceGroup` element closes while no InkML
    /// node is open, and then leaves the state as it was.  On values, this
    /// is `build_step`; text that belongs to a trace is handed back, and the
    /// step completes when its vertices are given to `append_vertices`.
    pub fn feed(&mut self, event: XmlIn) -> (r: Result<ParseStep, InkmlError>)
        ensures
            feed_result(old(self)@, event@, final(self)@, r),
            r is Err <==> build_step(build_view(old(self)@), event@, Seq::empty()) is None,
            r matches Ok(ParseStep::Continue) ==> build_step(
                build_view(old(self)@),
                event@,
                Seq::empty(),
            ) == Some(build_view(final(self)@)),
            r matches Ok(ParseStep::ParseVertices(_)) ==> event@ is Characters && wants_vertices(
                build_view(old(self)@),
            ) && final(self)@ == old(self)@,
    {
        let ghost before = self@;
        let ghost e = event@;
        let r = self.feed_event(event);
        proof {
            lemma_feed_mirrors(before, e, self@, r);
        }
        r
    }

    fn feed_event(&mut self, event: XmlIn) -> (r: Result<ParseStep, InkmlError>)
        ensures
            feed_result(old(self)@, event@, final(self)@, r),
    {
        let ghost before = self@;
        match event {
            XmlIn::StartElement(name) => {
                let node = node_for(&name);
                let ghost n = name@;
                self.name_stack.push(name);
                match node {
                    Some(node) => self.parse_stack.push(node),
                    None => {},
                }
                assert(self@.names =~= before.names.push(n));
                assert(is_node_name(n) ==> self@.stack.drop_last() =~= before.stack);
                Ok(ParseStep::Continue)
            },
            XmlIn::EndElement(name) => {
                if !is_node_element(&name) {
                    return Ok(ParseStep::Continue);
                }
                match self.parse_stack.pop() {
                    None => Err(InkmlError::InvalidInkml),
                    Some(node) => {
                        assert(self.parse_stack@ =~= before.stack.drop_last());
                        self.name_stack.pop();
                        assert(self@.names =~= (if before.names.len() > 0 {
                            before.names.drop_last()
                        } else {
                            before.names
                        }));
                        match node {
                            Node::Ink(ink) => {
                                if self.parse_stack.len() == 0 {
                                    self.root = ink;
                                }
                            },
                            Node::Trace(trace) => {
                                hand_to_top(&mut self.parse_stack, Traces::Trace(trace));
                            },
                            Node::TraceGroup(group) => {
                                hand_to_top(&mut self.parse_stack, Traces::TraceGroup(group));
                            },
                        }
                        Ok(ParseStep::Continue)
                    },
                }
            },
            XmlIn::Characters(text) => {
                let names = self.name_stack.len();
                let nodes = self.parse_stack.len();
                if names > 0 && nodes > 0 && is_named(&self.name_stack[names - 1], "trace") {
                    match &self.parse_stack[nodes - 1] {
                        Node::Trace(_) => {
                            return Ok(ParseStep::ParseVertices(text));
                        },
                        _ => {},
                    }
                }
                Ok(ParseStep::Continue)
            },
            XmlIn::Other => Ok(ParseStep::Continue),
        }
    }

    /// Adds `vertices` after the vertices of the trace being read.
    pub fn append_vertices(&mut self, vertices: Vec<P>)
        requires
            old(self)@.stack.len() > 0,
            old(self)@.stack.last() is Trace,
        ensures
            final(self)@.names == old(self)@.names,
            final(self)@.root == old(self)@.root,
            final(self)@.stack.len() == old(self)@.stack.len(),
            final(self)@.stack.drop_last() == old(self)@.stack.drop_last(),
            final(self)@.stack.last() matches Node::Trace(t) && old(self)@.stack.last() matches Node::Trace(
                t0,
            ) && t.vertices@ == t0.vertices@ + vertices@,
            build_view(final(self)@) == with_vertices(build_view(old(self)@), vertices@),
    {
        let ghost before = self@;
        let mut vertices = vertices;
        match self.parse_stack.pop() {
            Some(Node::Trace(mut trace)) => {
                let ghost v0 = trace.vertices@;
                let ghost added = vertices@;
                trace.vertices.append(&mut vertices);
                self.parse_stack.push(Node::Trace(trace));
                assert(self@.stack.drop_last() =~= before.stack.drop_last());
                proof {
                    let rest = before.stack.drop_last();
                    assert(before.stack =~= rest.push(before.stack.last()));
                    assert(self@.stack =~= rest.push(self@.stack.last()));
                    lemma_open_nodes_push(rest, before.stack.last());
                    lemma_open_nodes_push(rest, self@.stack.last());
                    assert(build_view(self@) =~= with_vertices(build_view(before), added));
                }
            },
            _ => {},
        }
    }

    /// Whether the innermost open node is a trace, so that vertices can be
    /// added to it.
    pub fn reading_trace(&self) -> (b: bool)
        ensures
            b == (self@.stack.len() > 0 && self@.stack.last() is Trace),
    {
        let nodes = self.parse_stack.len();
        if nodes == 0 {
            return false;
        }
        match &self.parse_stack[nodes - 1] {
            Node::Trace(_) => true,
            _ => false,
        }
    }

    /// The document as built so far: the last `ink` element that closed with
    /// no InkML node open around it, or an empty document if none did.
    pub fn finish(self) -> (r: Ink<P>)
        ensures
            r == self@.root,
    {
        self.root
    }
}

} // verus!
