//! Reading back what was written: the reader events that stand for the
//! written events, and the proof that the document builder, fed those
//! events, rebuilds the document.
use crate::inkml::{forest_tree, traces_tree, Ink, TraceTree, Traces};
use crate::parse::{
    build, build_step, empty_build, hand_child, is_node_name, wants_vertices, with_vertices, Build,
    OpenNode,
};
use crate::write::{
    definitions_events, document_events, document_start, element, enclosed, forest_events, ink_start,
    stroke_attributes, traces_events,
};
use crate::xml_io::{EventView, XmlInView};
use vstd::prelude::*;

verus! {

/// The reader event that stands for the written event `e`, `open` being
/// the names of the elements open before it: an opening tag by its name, a
/// closing tag by the name of the element it closes, a vertex as its text,
/// the declaration as `Other`.
pub open spec fn reread_one<P>(e: EventView<P>, open: Seq<Seq<char>>, text: spec_fn(P) -> Seq<char>) -> XmlInView {
    match e {
        EventView::StartElement { name, .. } => XmlInView::StartElement(name),
        EventView::EndElement => XmlInView::EndElement(open.last()),
        EventView::Vertex(v) => XmlInView::Characters(text(v)),
        EventView::StartDocument { .. } => XmlInView::Other,
    }
}

/// The names of the open elements after the written event `e`.
pub open spec fn open_next<P>(e: EventView<P>, open: Seq<Seq<char>>) -> Seq<Seq<char>> {
    match e {
        EventView::StartElement { name, .. } => open.push(name),
        EventView::EndElement => open.drop_last(),
        _ => open,
    }
}

/// The reader events that stand for the written `events`.
pub open spec fn reread<P>(events: Seq<EventView<P>>, open: Seq<Seq<char>>, text: spec_fn(P) -> Seq<char>) -> Seq<XmlInView>
    decreases events.len(),
{
    if events.len() == 0 {
        Seq::empty()
    } else {
        seq![reread_one(events[0], open, text)] + reread(
            events.drop_first(),
            open_next(events[0], open),
            text,
        )
    }
}

/// The names of the open elements after the written `events`.
pub open spec fn open_after<P>(events: Seq<EventView<P>>, open: Seq<Seq<char>>) -> Seq<Seq<char>>
    decreases events.len(),
{
    if events.len() == 0 {
        open
    } else {
        open_after(events.drop_first(), open_next(events[0], open))
    }
}

/// What the text of each written event stands for: a vertex stands for
/// itself, every other event for nothing.
pub open spec fn vertex_answers<P>(events: Seq<EventView<P>>) -> Seq<Seq<P>> {
    events.map_values(
        |e: EventView<P>|
            match e {
                EventView::Vertex(v) => seq![v],
                _ => Seq::empty(),
            },
    )
}

/// `stack` with `kids` added after the elements of its top node, if that
/// node takes elements.
pub open spec fn add_children<P>(stack: Seq<OpenNode<P>>, kids: Seq<TraceTree<P>>) -> Seq<OpenNode<P>> {
    if stack.len() == 0 {
        stack
    } else {
        match stack.last() {
            OpenNode::Ink(c) => stack.update(stack.len() - 1, OpenNode::Ink(c + kids)),
            OpenNode::Group(c) => stack.update(stack.len() - 1, OpenNode::Group(c + kids)),
            OpenNode::Trace(_) => stack,
        }
    }
}

/// No event of `events` is about an InkML node or is text.
pub open spec fn plain(events: Seq<XmlInView>) -> bool {
    forall|i: int|
        0 <= i < events.len() ==> match #[trigger] events[i] {
            XmlInView::StartElement(n) => !is_node_name(n),
            XmlInView::EndElement(n) => !is_node_name(n),
            XmlInView::Characters(_) => false,
            XmlInView::Other => true,
        }
}

proof fn lemma_reread_concat<P>(
    a: Seq<EventView<P>>,
    b: Seq<EventView<P>>,
    open: Seq<Seq<char>>,
    text: spec_fn(P) -> Seq<char>,
)
    ensures
        reread(a + b, open, text) == reread(a, open, text) + reread(b, open_after(a, open), text),
        open_after(a + b, open) == open_after(b, open_after(a, open)),
        reread(a, open, text).len() == a.len(),
    decreases a.len(),
{
    if a.len() == 0 {
        assert(a + b =~= b);
        assert(reread(a, open, text) + reread(b, open, text) =~= reread(b, open, text));
    } else {
        assert((a + b)[0] == a[0]);
        assert((a + b).drop_first() =~= a.drop_first() + b);
        lemma_reread_concat(a.drop_first(), b, open_next(a[0], open), text);
        assert(reread(a + b, open, text) =~= reread(a, open, text) + reread(
            b,
            open_after(a, open),
            text,
        ));
    }
}

proof fn lemma_answers_concat<P>(a: Seq<EventView<P>>, b: Seq<EventView<P>>)
    ensures
        vertex_answers(a + b) == vertex_answers(a) + vertex_answers(b),
        vertex_answers(a).len() == a.len(),
{
    assert(vertex_answers(a + b) =~= vertex_answers(a) + vertex_answers(b));
}

proof fn lemma_build_concat<P>(
    b: Build<P>,
    ea: Seq<XmlInView>,
    eb: Seq<XmlInView>,
    aa: Seq<Seq<P>>,
    ab: Seq<Seq<P>>,
)
    requires
        aa.len() == ea.len(),
    ensures
        build(b, ea + eb, aa + ab) == match build(b, ea, aa) {
            None => None,
            Some(m) => build(m, eb, ab),
        },
    decreases ea.len(),
{
    if ea.len() == 0 {
        assert(ea + eb =~= eb);
        assert(aa + ab =~= ab);
    } else {
        assert((ea + eb)[0] == ea[0]);
        assert((aa + ab)[0] == aa[0]);
        assert((ea + eb).drop_first() =~= ea.drop_first() + eb);
        assert((aa + ab).drop_first() =~= aa.drop_first() + ab);
        match build_step(b, ea[0], aa[0]) {
            None => {},
            Some(next) => {
                lemma_build_concat(next, ea.drop_first(), eb, aa.drop_first(), ab);
            },
        }
    }
}

proof fn lemma_single<P>(e: EventView<P>, open: Seq<Seq<char>>, text: spec_fn(P) -> Seq<char>)
    ensures
        reread(seq![e], open, text) == seq![reread_one(e, open, text)],
        open_after(seq![e], open) == open_next(e, open),
{
    assert(seq![e].drop_first() =~= Seq::<EventView<P>>::empty());
    assert(seq![e][0] == e);
    assert(reread(Seq::<EventView<P>>::empty(), open_next(e, open), text) =~= Seq::<XmlInView>::empty());
    assert(open_after(Seq::<EventView<P>>::empty(), open_next(e, open)) == open_next(e, open));
    assert(reread(seq![e], open, text) =~= seq![reread_one(e, open, text)]);
}

proof fn lemma_build_one<P>(b: Build<P>, e: XmlInView, answer: Seq<P>)
    ensures
        build(b, seq![e], seq![answer]) == build_step(b, e, answer),
{
    assert(seq![e].drop_first() =~= Seq::<XmlInView>::empty());
    assert(seq![answer].drop_first() =~= Seq::<Seq<P>>::empty());
    assert(seq![e][0] == e);
    assert(seq![answer][0] == answer);
    match build_step(b, e, answer) {
        Some(n) => {
            assert(build(n, Seq::<XmlInView>::empty(), Seq::<Seq<P>>::empty()) == Some(n));
        },
        None => {},
    }
}

proof fn lemma_vertices_read<P>(vs: Seq<P>, open: Seq<Seq<char>>, text: spec_fn(P) -> Seq<char>)
    ensures
        reread(vs.map_values(|v: P| EventView::Vertex(v)), open, text) == vs.map_values(
            |v: P| XmlInView::Characters(text(v)),
        ),
        open_after(vs.map_values(|v: P| EventView::Vertex(v)), open) == open,
    decreases vs.len(),
{
    let ev = vs.map_values(|v: P| EventView::Vertex(v));
    if vs.len() > 0 {
        assert(ev.drop_first() =~= vs.drop_first().map_values(|v: P| EventView::<P>::Vertex(v)));
        lemma_vertices_read(vs.drop_first(), open, text);
        assert(reread(ev, open, text) =~= vs.map_values(|v: P| XmlInView::Characters(text(v))));
    } else {
        assert(reread(ev, open, text) =~= vs.map_values(|v: P| XmlInView::Characters(text(v))));
    }
}

proof fn lemma_vertices_build<P>(b: Build<P>, vs: Seq<P>, text: spec_fn(P) -> Seq<char>)
    requires
        wants_vertices(b),
    ensures
        build(
            b,
            vs.map_values(|v: P| XmlInView::Characters(text(v))),
            vertex_answers(vs.map_values(|v: P| EventView::Vertex(v))),
        ) == Some(with_vertices(b, vs)),
    decreases vs.len(),
{
    let evs = vs.map_values(|v: P| XmlInView::Characters(text(v)));
    let ans = vertex_answers(vs.map_values(|v: P| EventView::Vertex(v)));
    if vs.len() == 0 {
        assert(b.stack.last()->Trace_0 + vs =~= b.stack.last()->Trace_0);
        assert(with_vertices(b, vs) =~= b);
    } else {
        let b1 = with_vertices(b, seq![vs[0]]);
        assert(ans[0] == seq![vs[0]]);
        assert(build_step(b, evs[0], ans[0]) == Some(b1));
        assert(evs.drop_first() =~= vs.drop_first().map_values(|v: P| XmlInView::Characters(text(v))));
        assert(ans.drop_first() =~= vertex_answers(
            vs.drop_first().map_values(|v: P| EventView::Vertex(v)),
        ));
        lemma_vertices_build(b1, vs.drop_first(), text);
        assert(b.stack.last()->Trace_0 + seq![vs[0]] + vs.drop_first() =~= b.stack.last()->Trace_0
            + vs);
        assert(with_vertices(b1, vs.drop_first()) =~= with_vertices(b, vs));
    }
}

proof fn lemma_add_children<P>(s: Seq<OpenNode<P>>, a: Seq<TraceTree<P>>, b: Seq<TraceTree<P>>)
    ensures
        add_children(add_children(s, a), b) == add_children(s, a + b),
{
    if s.len() > 0 {
        match s.last() {
            OpenNode::Ink(c) => {
                assert(c + a + b =~= c + (a + b));
                assert(add_children(add_children(s, a), b) =~= add_children(s, a + b));
            },
            OpenNode::Group(c) => {
                assert(c + a + b =~= c + (a + b));
                assert(add_children(add_children(s, a), b) =~= add_children(s, a + b));
            },
            OpenNode::Trace(_) => {},
        }
    }
}

proof fn lemma_hand_is_add<P>(s: Seq<OpenNode<P>>, x: TraceTree<P>)
    ensures
        hand_child(s, x) == add_children(s, seq![x]),
        add_children(s, Seq::empty()) == s,
{
    if s.len() > 0 {
        match s.last() {
            OpenNode::Ink(c) => {
                assert(c.push(x) =~= c + seq![x]);
                assert(c + Seq::<TraceTree<P>>::empty() =~= c);
                assert(add_children(s, Seq::empty()) =~= s);
            },
            OpenNode::Group(c) => {
                assert(c.push(x) =~= c + seq![x]);
                assert(c + Seq::<TraceTree<P>>::empty() =~= c);
                assert(add_children(s, Seq::empty()) =~= s);
            },
            OpenNode::Trace(_) => {},
        }
    }
}

proof fn lemma_element_names()
    ensures
        is_node_name("ink"@),
        is_node_name("trace"@),
        is_node_name("traceGroup"@),
        "trace"@ != "ink"@,
        "traceGroup"@ != "ink"@,
        "traceGroup"@ != "trace"@,
        !is_node_name("definitions"@),
        !is_node_name("context"@),
        !is_node_name("inkSource"@),
        !is_node_name("traceFormat"@),
        !is_node_name("channel"@),
        !is_node_name("brush"@),
        !is_node_name("brushProperty"@),
{
    reveal_strlit("ink");
    reveal_strlit("trace");
    reveal_strlit("traceGroup");
    reveal_strlit("definitions");
    reveal_strlit("context");
    reveal_strlit("inkSource");
    reveal_strlit("traceFormat");
    reveal_strlit("channel");
    reveal_strlit("brush");
    reveal_strlit("brushProperty");
    assert("ink"@.len() == 3);
    assert("trace"@.len() == 5);
    assert("traceGroup"@.len() == 10);
    assert("definitions"@.len() == 11);
    assert("context"@.len() == 7);
    assert("inkSource"@.len() == 9);
    assert("traceFormat"@.len() == 11);
    assert("channel"@.len() == 7);
    assert("brush"@.len() == 5);
    assert("brushProperty"@.len() == 13);
    assert("brush"@[0] != "trace"@[0]);
}

/// A written element: its opening tag, `inner`, its closing tag.
proof fn lemma_enclosed_read<P>(
    start: EventView<P>,
    inner: Seq<EventView<P>>,
    open: Seq<Seq<char>>,
    text: spec_fn(P) -> Seq<char>,
)
    requires
        start is StartElement,
        open_after(inner, open.push(start->name)) == open.push(start->name),
    ensures
        reread(enclosed(start, inner), open, text) == seq![XmlInView::StartElement(start->name)]
            + reread(inner, open.push(start->name), text) + seq![
            XmlInView::EndElement(start->name),
        ],
        open_after(enclosed(start, inner), open) == open,
{
    let name = start->name;
    let end = seq![EventView::<P>::EndElement];
    lemma_single(start, open, text);
    lemma_reread_concat(seq![start], inner, open, text);
    lemma_reread_concat(seq![start] + inner, end, open, text);
    lemma_single(EventView::<P>::EndElement, open.push(name), text);
    assert(open.push(name).drop_last() =~= open);
}

proof fn lemma_plain_concat(a: Seq<XmlInView>, b: Seq<XmlInView>)
    requires
        plain(a),
        plain(b),
    ensures
        plain(a + b),
{
    assert forall|i: int| 0 <= i < (a + b).len() implies match #[trigger] (a + b)[i] {
        XmlInView::StartElement(n) => !is_node_name(n),
        XmlInView::EndElement(n) => !is_node_name(n),
        XmlInView::Characters(_) => false,
        XmlInView::Other => true,
    } by {
        if i < a.len() {
            assert((a + b)[i] == a[i]);
        } else {
            assert((a + b)[i] == b[i - a.len()]);
        }
    }
}

/// Feeding events that are about no InkML node and hold no text leaves the
/// open nodes and the document as they were.
proof fn lemma_plain_build<P>(b: Build<P>, events: Seq<XmlInView>, answers: Seq<Seq<P>>)
    requires
        plain(events),
        answers.len() == events.len(),
    ensures
        build(b, events, answers) matches Some(b2) && b2.stack == b.stack && b2.root == b.root,
    decreases events.len(),
{
    if events.len() > 0 {
        let e = events[0];
        assert(plain(events.drop_first())) by {
            assert forall|i: int| 0 <= i < events.drop_first().len() implies match #[trigger] events.drop_first()[i] {
                XmlInView::StartElement(n) => !is_node_name(n),
                XmlInView::EndElement(n) => !is_node_name(n),
                XmlInView::Characters(_) => false,
                XmlInView::Other => true,
            } by {
                assert(events.drop_first()[i] == events[i + 1]);
            }
        }
        let next = build_step(b, e, answers[0]).unwrap();
        assert(next.stack == b.stack && next.root == b.root);
        lemma_plain_build(next, events.drop_first(), answers.drop_first());
    }
}

/// A written element whose name is no InkML node name, holding only such
/// elements.
proof fn lemma_plain_piece<P>(
    name: Seq<char>,
    attributes: Seq<(Seq<char>, Seq<char>)>,
    inner: Seq<EventView<P>>,
    open: Seq<Seq<char>>,
    text: spec_fn(P) -> Seq<char>,
)
    requires
        !is_node_name(name),
        plain(reread(inner, open.push(name), text)),
        open_after(inner, open.push(name)) == open.push(name),
    ensures
        plain(reread(enclosed(element::<P>(name, attributes), inner), open, text)),
        open_after(enclosed(element::<P>(name, attributes), inner), open) == open,
{
    let start = element::<P>(name, attributes);
    lemma_enclosed_read(start, inner, open, text);
    let s1 = seq![XmlInView::StartElement(name)];
    let s2 = seq![XmlInView::EndElement(name)];
    assert(plain(s1));
    assert(plain(s2));
    lemma_plain_concat(s1, reread(inner, open.push(name), text));
    lemma_plain_concat(s1 + reread(inner, open.push(name), text), s2);
}

/// Two written pieces, one after the other.
proof fn lemma_plain_pair<P>(
    a: Seq<EventView<P>>,
    b: Seq<EventView<P>>,
    open: Seq<Seq<char>>,
    text: spec_fn(P) -> Seq<char>,
)
    requires
        plain(reread(a, open, text)),
        open_after(a, open) == open,
        plain(reread(b, open, text)),
        open_after(b, open) == open,
    ensures
        plain(reread(a + b, open, text)),
        open_after(a + b, open) == open,
{
    lemma_reread_concat(a, b, open, text);
    lemma_plain_concat(reread(a, open, text), reread(b, open, text));
}

proof fn lemma_leaf_read<P>(
    name: Seq<char>,
    attributes: Seq<(Seq<char>, Seq<char>)>,
    open: Seq<Seq<char>>,
    text: spec_fn(P) -> Seq<char>,
)
    requires
        !is_node_name(name),
    ensures
        plain(reread(enclosed(element::<P>(name, attributes), Seq::empty()), open, text)),
        open_after(enclosed(element::<P>(name, attributes), Seq::empty()), open) == open,
{
    let e = Seq::<EventView<P>>::empty();
    assert(reread(e, open.push(name), text) =~= Seq::<XmlInView>::empty());
    assert(plain(Seq::<XmlInView>::empty()));
    lemma_plain_piece(name, attributes, e, open, text);
}

/// The definitions block is about no InkML node and closes all it opens.
proof fn lemma_definitions_read<P>(open: Seq<Seq<char>>, text: spec_fn(P) -> Seq<char>)
    ensures
        plain(reread(definitions_events::<P>(), open, text)),
        open_after(definitions_events::<P>(), open) == open,
{
    lemma_element_names();
    let e = Seq::<EventView<P>>::empty();
    let ax = seq![("name"@, "X"@), ("type"@, "integer"@)];
    let ay = seq![("name"@, "Y"@), ("type"@, "integer"@)];
    let aw = seq![("name"@, "width"@), ("value"@, "3"@), ("units"@, "mm"@)];
    let ah = seq![("name"@, "height"@), ("value"@, "3"@), ("units"@, "mm"@)];
    let ac = seq![("name"@, "color"@), ("value"@, "\\#FFFFFF"@)];
    let o1 = open.push("definitions"@);
    let o2 = o1.push("context"@);
    let o3 = o2.push("inkSource"@);
    let o4 = o3.push("traceFormat"@);
    let ch_x = enclosed(element::<P>("channel"@, ax), e);
    let ch_y = enclosed(element::<P>("channel"@, ay), e);
    lemma_leaf_read::<P>("channel"@, ax, o4, text);
    lemma_leaf_read::<P>("channel"@, ay, o4, text);
    lemma_plain_pair(ch_x, ch_y, o4, text);
    let trace_format = enclosed(element::<P>("traceFormat"@, seq![]), ch_x + ch_y);
    lemma_plain_piece("traceFormat"@, seq![], ch_x + ch_y, o3, text);
    let ink_source = enclosed(element::<P>("inkSource"@, seq![("xml:id"@, "inkSrc0"@)]), trace_format);
    lemma_plain_piece("inkSource"@, seq![("xml:id"@, "inkSrc0"@)], trace_format, o2, text);
    let context = enclosed(element::<P>("context"@, seq![("xml:id"@, "ctx0"@)]), ink_source);
    lemma_plain_piece("context"@, seq![("xml:id"@, "ctx0"@)], ink_source, o1, text);
    let ob = o1.push("brush"@);
    let bp_w = enclosed(element::<P>("brushProperty"@, aw), e);
    let bp_h = enclosed(element::<P>("brushProperty"@, ah), e);
    let bp_c = enclosed(element::<P>("brushProperty"@, ac), e);
    lemma_leaf_read::<P>("brushProperty"@, aw, ob, text);
    lemma_leaf_read::<P>("brushProperty"@, ah, ob, text);
    lemma_leaf_read::<P>("brushProperty"@, ac, ob, text);
    lemma_plain_pair(bp_w, bp_h, ob, text);
    lemma_plain_pair(bp_w + bp_h, bp_c, ob, text);
    let brush = enclosed(element::<P>("brush"@, seq![("xml:id"@, "br0"@)]), bp_w + bp_h + bp_c);
    lemma_plain_piece("brush"@, seq![("xml:id"@, "br0"@)], bp_w + bp_h + bp_c, o1, text);
    lemma_plain_pair(context, brush, o1, text);
    lemma_plain_piece("definitions"@, seq![], context + brush, open, text);
    assert(definitions_events::<P>() =~= enclosed(element::<P>("definitions"@, seq![]), context + brush));
}

/// Feeding the reader events of one written trace element, each vertex
/// standing for itself, hands the element to the innermost open node and
/// leaves the open names as they were.
proof fn lemma_traces_read<P>(b: Build<P>, t: Traces<P>, open: Seq<Seq<char>>, text: spec_fn(P) -> Seq<char>)
    ensures
        open_after(traces_events(t), open) == open,
        build(b, reread(traces_events(t), open, text), vertex_answers(traces_events(t))) == Some(
            Build { names: b.names, stack: hand_child(b.stack, traces_tree(t)), root: b.root },
        ),
    decreases t, 0nat,
{
    lemma_element_names();
    match t {
        Traces::Trace(tr) => {
            let vs = tr.vertices@;
            let start = element::<P>("trace"@, stroke_attributes());
            let inner = vs.map_values(|v: P| EventView::Vertex(v));
            let o = open.push("trace"@);
            lemma_vertices_read(vs, o, text);
            lemma_enclosed_read(start, inner, open, text);
            assert(traces_events(t) == enclosed(start, inner));
            let chars = vs.map_values(|v: P| XmlInView::Characters(text(v)));
            let s1 = seq![XmlInView::StartElement("trace"@)];
            let s2 = seq![XmlInView::EndElement("trace"@)];
            let a1 = vertex_answers(seq![start]);
            let a3 = vertex_answers(seq![EventView::<P>::EndElement]);
            lemma_answers_concat(seq![start], inner);
            lemma_answers_concat(seq![start] + inner, seq![EventView::<P>::EndElement]);
            assert(a1 =~= seq![Seq::<P>::empty()]);
            assert(a3 =~= seq![Seq::<P>::empty()]);
            let ai = vertex_answers(inner);
            lemma_build_concat(b, s1, chars + s2, a1, ai + a3);
            assert(s1 + chars + s2 =~= s1 + (chars + s2));
            assert(a1 + ai + a3 =~= a1 + (ai + a3));
            lemma_build_one(b, XmlInView::StartElement("trace"@), Seq::<P>::empty());
            let b1 = Build {
                names: b.names.push("trace"@),
                stack: b.stack.push(OpenNode::Trace(Seq::empty())),
                root: b.root,
            };
            assert(build_step(b, XmlInView::StartElement("trace"@), Seq::<P>::empty()) == Some(b1));
            assert(wants_vertices(b1));
            lemma_build_concat(b1, chars, s2, ai, a3);
            lemma_vertices_build(b1, vs, text);
            let b2 = with_vertices(b1, vs);
            assert(Seq::<P>::empty() + vs =~= vs);
            assert(b2.stack =~= b.stack.push(OpenNode::Trace(vs)));
            lemma_build_one(b2, XmlInView::EndElement("trace"@), Seq::<P>::empty());
            assert(b2.stack.drop_last() =~= b.stack);
            assert(b2.names.drop_last() =~= b.names);
        },
        Traces::TraceGroup(g) => {
            let start = element::<P>("traceGroup"@, stroke_attributes());
            let inner = forest_events(g.traces@);
            let o = open.push("traceGroup"@);
            let b1 = Build {
                names: b.names.push("traceGroup"@),
                stack: b.stack.push(OpenNode::Group(Seq::empty())),
                root: b.root,
            };
            lemma_forest_read(b1, g.traces@, o, text);
            lemma_enclosed_read(start, inner, open, text);
            let rin = reread(inner, o, text);
            let s1 = seq![XmlInView::StartElement("traceGroup"@)];
            let s2 = seq![XmlInView::EndElement("traceGroup"@)];
            let a1 = vertex_answers(seq![start]);
            let a3 = vertex_answers(seq![EventView::<P>::EndElement]);
            lemma_answers_concat(seq![start], inner);
            lemma_answers_concat(seq![start] + inner, seq![EventView::<P>::EndElement]);
            assert(a1 =~= seq![Seq::<P>::empty()]);
            assert(a3 =~= seq![Seq::<P>::empty()]);
            let ai = vertex_answers(inner);
            lemma_reread_concat(inner, Seq::<EventView<P>>::empty(), o, text);
            lemma_build_concat(b, s1, rin + s2, a1, ai + a3);
            assert(s1 + rin + s2 =~= s1 + (rin + s2));
            assert(a1 + ai + a3 =~= a1 + (ai + a3));
            lemma_build_one(b, XmlInView::StartElement("traceGroup"@), Seq::<P>::empty());
            assert(build_step(b, XmlInView::StartElement("traceGroup"@), Seq::<P>::empty()) == Some(b1));
            lemma_build_concat(b1, rin, s2, ai, a3);
            let b2 = Build { names: b1.names, stack: add_children(b1.stack, forest_tree(g.traces@)), root: b.root };
            assert(Seq::<TraceTree<P>>::empty() + forest_tree(g.traces@) =~= forest_tree(g.traces@));
            assert(b2.stack =~= b.stack.push(OpenNode::Group(forest_tree(g.traces@))));
            lemma_build_one(b2, XmlInView::EndElement("traceGroup"@), Seq::<P>::empty());
            assert(b2.stack.drop_last() =~= b.stack);
            assert(b2.names.drop_last() =~= b.names);
        },
    }
}

/// Feeding the reader events of a written forest adds its elements, in
/// order, to the innermost open node, and leaves the open names as they
/// were.
proof fn lemma_forest_read<P>(b: Build<P>, f: Seq<Traces<P>>, open: Seq<Seq<char>>, text: spec_fn(P) -> Seq<char>)
    ensures
        open_after(forest_events(f), open) == open,
        build(b, reread(forest_events(f), open, text), vertex_answers(forest_events(f))) == Some(
            Build { names: b.names, stack: add_children(b.stack, forest_tree(f)), root: b.root },
        ),
    decreases f, 1nat,
{
    lemma_hand_is_add(b.stack, TraceTree::Trace(Seq::empty()));
    if f.len() == 0 {
        assert(reread(forest_events(f), open, text) =~= Seq::<XmlInView>::empty());
        assert(forest_tree(f) =~= Seq::<TraceTree<P>>::empty());
    } else {
        let head = traces_events(f[0]);
        let tail = forest_events(f.drop_first());
        lemma_traces_read(b, f[0], open, text);
        let b1 = Build { names: b.names, stack: hand_child(b.stack, traces_tree(f[0])), root: b.root };
        lemma_forest_read(b1, f.drop_first(), open, text);
        lemma_reread_concat(head, tail, open, text);
        lemma_answers_concat(head, tail);
        lemma_build_concat(
            b,
            reread(head, open, text),
            reread(tail, open, text),
            vertex_answers(head),
            vertex_answers(tail),
        );
        lemma_hand_is_add(b.stack, traces_tree(f[0]));
        lemma_add_children(b.stack, seq![traces_tree(f[0])], forest_tree(f.drop_first()));
    }
}

/// Whatever the document, feeding the builder the reader events that stand
/// for the events written for it (each vertex as text that stands for that
/// vertex) rebuilds the document: no event is refused, no node is left open,
/// and the document built has the written document's elements, nested as
/// they were.
pub proof fn lemma_written_document_reads_back<P>(ink: Ink<P>, text: spec_fn(P) -> Seq<char>)
    ensures
        build(
            empty_build::<P>(),
            reread(document_events(ink), Seq::empty(), text),
            vertex_answers(document_events(ink)),
        ) matches Some(b) && b.stack.len() == 0 && b.root == forest_tree(ink.traces@),
{
    lemma_element_names();
    let open = Seq::<Seq<char>>::empty();
    let o = open.push("ink"@);
    let defs = definitions_events::<P>();
    let forest = forest_events(ink.traces@);
    let doc = document_events(ink);
    let start_doc = seq![document_start::<P>()];
    let body = enclosed(ink_start::<P>(), defs + forest);
    assert(doc =~= start_doc + body);
    lemma_definitions_read::<P>(o, text);
    let root_b = Build {
        names: seq!["ink"@],
        stack: seq![OpenNode::<P>::Ink(Seq::empty())],
        root: Seq::<TraceTree<P>>::empty(),
    };
    lemma_reread_concat(defs, forest, o, text);
    lemma_forest_read(root_b, ink.traces@, o, text);
    lemma_enclosed_read(ink_start::<P>(), defs + forest, open, text);
    lemma_single(document_start::<P>(), open, text);
    lemma_reread_concat(start_doc, body, open, text);
    lemma_answers_concat(start_doc, body);
    let rdefs = reread(defs, o, text);
    let rforest = reread(forest, o, text);
    let s_ink = seq![XmlInView::StartElement("ink"@)];
    let e_ink = seq![XmlInView::EndElement("ink"@)];
    let events = seq![XmlInView::Other] + (s_ink + (rdefs + (rforest + e_ink)));
    assert(reread(doc, open, text) =~= events);
    lemma_answers_concat(seq![ink_start::<P>()], defs + forest);
    lemma_answers_concat(seq![ink_start::<P>()] + (defs + forest), seq![EventView::<P>::EndElement]);
    lemma_answers_concat(defs, forest);
    let a0 = seq![Seq::<P>::empty()];
    let ad = vertex_answers(defs);
    let af = vertex_answers(forest);
    let answers = a0 + (a0 + (ad + (af + a0)));
    assert(vertex_answers(start_doc) =~= a0);
    assert(vertex_answers(seq![ink_start::<P>()]) =~= a0);
    assert(vertex_answers(seq![EventView::<P>::EndElement]) =~= a0);
    assert(body =~= seq![ink_start::<P>()] + (defs + forest) + seq![EventView::<P>::EndElement]);
    assert(vertex_answers(doc) =~= answers);
    let b0 = empty_build::<P>();
    lemma_build_concat(b0, seq![XmlInView::Other], s_ink + (rdefs + (rforest + e_ink)), a0, a0 + (ad + (af + a0)));
    lemma_build_one(b0, XmlInView::Other, Seq::<P>::empty());
    lemma_build_concat(b0, s_ink, rdefs + (rforest + e_ink), a0, ad + (af + a0));
    lemma_build_one(b0, XmlInView::StartElement("ink"@), Seq::<P>::empty());
    assert(build_step(b0, XmlInView::StartElement("ink"@), Seq::<P>::empty()) == Some(root_b)) by {
        assert(Seq::<Seq<char>>::empty().push("ink"@) =~= seq!["ink"@]);
        assert(Seq::<OpenNode<P>>::empty().push(OpenNode::Ink(Seq::empty())) =~= root_b.stack);
    }
    lemma_build_concat(root_b, rdefs, rforest + e_ink, ad, af + a0);
    lemma_plain_build(root_b, rdefs, ad);
    let b1 = build(root_b, rdefs, ad).unwrap();
    lemma_forest_read(b1, ink.traces@, o, text);
    lemma_reread_concat(forest, Seq::<EventView<P>>::empty(), o, text);
    lemma_answers_concat(forest, Seq::<EventView<P>>::empty());
    lemma_build_concat(b1, rforest, e_ink, af, a0);
    let b2 = Build { names: b1.names, stack: add_children(b1.stack, forest_tree(ink.traces@)), root: b1.root };
    assert(Seq::<TraceTree<P>>::empty() + forest_tree(ink.traces@) =~= forest_tree(ink.traces@));
    assert(b2.stack =~= seq![OpenNode::Ink(forest_tree(ink.traces@))]);
    lemma_build_one(b2, XmlInView::EndElement("ink"@), Seq::<P>::empty());
    assert(b2.stack.drop_last() =~= Seq::<OpenNode<P>>::empty());
}

} // verus!
