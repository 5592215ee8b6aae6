//! The XML events that serialise a document.
//!
//! The `ink` element opens with the fixed `definitions` block, then each
//! element of the document's forest is written out whole, in order: a trace
//! as its vertices, a group as its own elements, so that the nesting of the
//! written elements mirrors the nesting of the document and every trace is
//! written exactly once.
use crate::inkml::{Ink, Trace, TraceGroup, Traces};
use crate::xml_io::{event_views, pair_views, EventView, StartTag, WriteEvent, XmlVersion};
use vstd::prelude::*;

verus! {

pub open spec fn element<P>(name: Seq<char>, attributes: Seq<(Seq<char>, Seq<char>)>) -> EventView<P> {
    EventView::StartElement { name, namespaces: Seq::empty(), attributes }
}

/// The attributes of every `trace` and `traceGroup` element.
pub open spec fn stroke_attributes() -> Seq<(Seq<char>, Seq<char>)> {
    seq![("contextRef"@, "#ctx0"@), ("brushRef"@, "#br0"@)]
}

pub open spec fn trace_events<P>(t: Trace<P>) -> Seq<EventView<P>> {
    seq![element("trace"@, stroke_attributes())] + t.vertices@.map_values(
        |p: P| EventView::Vertex(p),
    ) + seq![EventView::EndElement]
}

/// The events of one trace element with everything nested inside it.
pub open spec fn traces_events<P>(t: Traces<P>) -> Seq<EventView<P>>
    decreases t, 0nat,
{
    match t {
        Traces::Trace(tr) => trace_events(tr),
        Traces::TraceGroup(g) => seq![element("traceGroup"@, stroke_attributes())] + forest_events(
            g.traces@,
        ) + seq![EventView::EndElement],
    }
}

/// The events of the trace elements of a forest, one after the other.
pub open spec fn forest_events<P>(s: Seq<Traces<P>>) -> Seq<EventView<P>>
    decreases s, 1nat,
{
    if s.len() == 0 {
        Seq::empty()
    } else {
        traces_events(s[0]) + forest_events(s.drop_first())
    }
}

/// The fixed `definitions` block: one context with an X and a Y integer
/// channel, and one brush 3 mm wide and high.
pub open spec fn definitions_events<P>() -> Seq<EventView<P>> {
    seq![
        element("definitions"@, seq![]),
        element("context"@, seq![("xml:id"@, "ctx0"@)]),
        element("inkSource"@, seq![("xml:id"@, "inkSrc0"@)]),
        element("traceFormat"@, seq![]),
        element("channel"@, seq![("name"@, "X"@), ("type"@, "integer"@)]),
        EventView::EndElement,
        element("channel"@, seq![("name"@, "Y"@), ("type"@, "integer"@)]),
        EventView::EndElement,
        EventView::EndElement,
        EventView::EndElement,
        EventView::EndElement,
        element("brush"@, seq![("xml:id"@, "br0"@)]),
        element("brushProperty"@, seq![("name"@, "width"@), ("value"@, "3"@), ("units"@, "mm"@)]),
        EventView::EndElement,
        element("brushProperty"@, seq![("name"@, "height"@), ("value"@, "3"@), ("units"@, "mm"@)]),
        EventView::EndElement,
        element("brushProperty"@, seq![("name"@, "color"@), ("value"@, "\\#FFFFFF"@)]),
        EventView::EndElement,
        EventView::EndElement,
        EventView::EndElement,
    ]
}

/// The opening `ink` tag, which declares the `inkml` namespace prefix.
pub open spec fn ink_start<P>() -> EventView<P> {
    EventView::StartElement {
        name: "ink"@,
        namespaces: seq![("inkml"@, "https://www.w3.org/TR/InkML"@)],
        attributes: Seq::empty(),
    }
}

pub open spec fn document_start<P>() -> EventView<P> {
    EventView::StartDocument { version: XmlVersion::Version10, encoding: Some("UTF-8"@), standalone: Some(true) }
}

/// All the events that serialise `ink`: the declaration, the opening `ink`
/// tag, the definitions, the events of each element of its forest in order,
/// and the closing `ink` tag.
pub open spec fn document_events<P>(ink: Ink<P>) -> Seq<EventView<P>> {
    seq![document_start(), ink_start()] + definitions_events() + forest_events(ink.traces@) + seq![
        EventView::EndElement,
    ]
}

proof fn lemma_forest_events_push<P>(s: Seq<Traces<P>>, t: Traces<P>)
    ensures
        forest_events(s.push(t)) == forest_events(s) + traces_events(t),
    decreases s.len(),
{
    if s.len() == 0 {
        let one = s.push(t);
        assert(one.drop_first() =~= Seq::<Traces<P>>::empty());
        assert(one[0] == t);
        assert(forest_events(one.drop_first()) =~= Seq::<EventView<P>>::empty());
        assert(forest_events(one) =~= traces_events(t));
        assert(forest_events(s) =~= Seq::<EventView<P>>::empty());
    } else {
        assert(s.push(t).drop_first() =~= s.drop_first().push(t));
        lemma_forest_events_push(s.drop_first(), t);
        assert(forest_events(s.push(t)) =~= forest_events(s) + traces_events(t));
    }
}

fn push_event<P>(out: &mut Vec<WriteEvent<P>>, e: WriteEvent<P>)
    ensures
        event_views(final(out)@) == event_views(old(out)@).push(e@),
{
    let ghost v = e@;
    out.push(e);
    assert(event_views(out@) =~= event_views(old(out)@).push(v));
}

fn text(s: &str) -> (r: String)
    ensures
        r@ == s@,
{
    s.to_owned()
}

fn attribute(key: &str, value: &str) -> (r: (String, String))
    ensures
        r.0@ == key@,
        r.1@ == value@,
{
    (text(key), text(value))
}

fn push_element<P>(out: &mut Vec<WriteEvent<P>>, name: &str, attributes: Vec<(String, String)>)
    ensures
        event_views(final(out)@) == event_views(old(out)@).push(
            element(name@, pair_views(attributes@)),
        ),
{
    let tag = StartTag { name: text(name), namespaces: Vec::new(), attributes };
    proof {
        assert(pair_views(tag.namespaces@) =~= Seq::<(Seq<char>, Seq<char>)>::empty());
    }
    push_event(out, WriteEvent::StartElement(tag));
}

fn push_end<P>(out: &mut Vec<WriteEvent<P>>)
    ensures
        event_views(final(out)@) == event_views(old(out)@).push(EventView::EndElement),
{
    push_event(out, WriteEvent::EndElement);
}

fn attributes1(k0: &str, v0: &str) -> (r: Vec<(String, String)>)
    ensures
        pair_views(r@) == seq![(k0@, v0@)],
{
    let r = vec![attribute(k0, v0)];
    assert(pair_views(r@) =~= seq![(k0@, v0@)]);
    r
}

fn attributes2(k0: &str, v0: &str, k1: &str, v1: &str) -> (r: Vec<(String, String)>)
    ensures
        pair_views(r@) == seq![(k0@, v0@), (k1@, v1@)],
{
    let r = vec![attribute(k0, v0), attribute(k1, v1)];
    assert(pair_views(r@) =~= seq![(k0@, v0@), (k1@, v1@)]);
    r
}

fn attributes3(k0: &str, v0: &str, k1: &str, v1: &str, k2: &str, v2: &str) -> (r: Vec<
    (String, String),
>)
    ensures
        pair_views(r@) == seq![(k0@, v0@), (k1@, v1@), (k2@, v2@)],
{
    let r = vec![attribute(k0, v0), attribute(k1, v1), attribute(k2, v2)];
    assert(pair_views(r@) =~= seq![(k0@, v0@), (k1@, v1@), (k2@, v2@)]);
    r
}

fn stroke_attribute_list() -> (r: Vec<(String, String)>)
    ensures
        pair_views(r@) == stroke_attributes(),
{
    attributes2("contextRef", "#ctx0", "brushRef", "#br0")
}

fn no_attributes() -> (r: Vec<(String, String)>)
    ensures
        pair_views(r@) == Seq::<(Seq<char>, Seq<char>)>::empty(),
{
    let r = Vec::new();
    assert(pair_views(r@) =~= Seq::<(Seq<char>, Seq<char>)>::empty());
    r
}

/// Writes one trace: its opening tag, its vertices, its closing tag.
pub fn write_trace<P: Copy>(out: &mut Vec<WriteEvent<P>>, trace: &Trace<P>)
    ensures
        event_views(final(out)@) == event_views(old(out)@) + trace_events(*trace),
{
    let ghost base = event_views(old(out)@);
    push_element(out, "trace", stroke_attribute_list());
    let mut i: usize = 0;
    while i < trace.vertices.len()
        invariant
            i <= trace.vertices@.len(),
            event_views(out@) == base + seq![element::<P>("trace"@, stroke_attributes())]
                + trace.vertices@.take(i as int).map_values(|p: P| EventView::Vertex(p)),
        decreases trace.vertices@.len() - i,
    {
        push_event(out, WriteEvent::Vertex(trace.vertices[i]));
        assert(trace.vertices@.take(i + 1).map_values(|p: P| EventView::Vertex(p))
            =~= trace.vertices@.take(i as int).map_values(|p: P| EventView::Vertex(p)).push(
            EventView::Vertex(trace.vertices@[i as int]),
        ));
        i += 1;
    }
    assert(trace.vertices@.take(i as int) =~= trace.vertices@);
    push_end(out);
    assert(event_views(out@) =~= base + trace_events(*trace));
}

/// Writes one trace element with everything nested inside it.
pub fn write_traces<P: Copy>(out: &mut Vec<WriteEvent<P>>, traces: &Traces<P>)
    ensures
        event_views(final(out)@) == event_views(old(out)@) + traces_events(*traces),
    decreases *traces, 1nat,
{
    match traces {
        Traces::Trace(trace) => write_trace(out, trace),
        Traces::TraceGroup(group) => write_tracegroup(out, group),
    }
}

/// Writes a group: its opening tag, the elements inside it, its closing tag.
pub fn write_tracegroup<P: Copy>(out: &mut Vec<WriteEvent<P>>, group: &TraceGroup<P>)
    ensures
        event_views(final(out)@) == event_views(old(out)@) + seq![
            element("traceGroup"@, stroke_attributes()),
        ] + forest_events(group.traces@) + seq![EventView::EndElement],
    decreases *group, 0nat,
{
    let ghost base = event_views(old(out)@) + seq![element::<P>("traceGroup"@, stroke_attributes())];
    push_element(out, "traceGroup", stroke_attribute_list());
    let mut i: usize = 0;
    assert(group.traces@.take(0) =~= Seq::<Traces<P>>::empty());
    while i < group.traces.len()
        invariant
            i <= group.traces@.len(),
            event_views(out@) == base + forest_events(group.traces@.take(i as int)),
        decreases group.traces@.len() - i,
    {
        proof {
            assert(decreases_to!(*group => group.traces));
            assert(decreases_to!(group.traces => group.traces@));
            assert(decreases_to!(group.traces@ => group.traces@[i as int]));
        }
        write_traces(out, &group.traces[i]);
        proof {
            assert(group.traces@.take(i + 1) =~= group.traces@.take(i as int).push(
                group.traces@[i as int],
            ));
            lemma_forest_events_push(group.traces@.take(i as int), group.traces@[i as int]);
        }
        i += 1;
    }
    assert(group.traces@.take(i as int) =~= group.traces@);
    push_end(out);
}

/// Writes the fixed `definitions` block.
pub fn write_definitions<P>(out: &mut Vec<WriteEvent<P>>)
    ensures
        event_views(final(out)@) == event_views(old(out)@) + definitions_events::<P>(),
{
    let ghost base = event_views(old(out)@);
    push_element(out, "definitions", no_attributes());
    push_element(out, "context", attributes1("xml:id", "ctx0"));
    push_element(out, "inkSource", attributes1("xml:id", "inkSrc0"));
    push_element(out, "traceFormat", no_attributes());
    push_element(out, "channel", attributes2("name", "X", "type", "integer"));
    push_end(out);
    push_element(out, "channel", attributes2("name", "Y", "type", "integer"));
    push_end(out);
    push_end(out);
    push_end(out);
    push_end(out);
    push_element(out, "brush", attributes1("xml:id", "br0"));
    push_element(
        out,
        "brushProperty",
        attributes3("name", "width", "value", "3", "units", "mm"),
    );
    push_end(out);
    push_element(
        out,
        "brushProperty",
        attributes3("name", "height", "value", "3", "units", "mm"),
    );
    push_end(out);
    push_element(
        out,
        "brushProperty",
        attributes2("name", "color", "value", "\\#FFFFFF"),
    );
    push_end(out);
    push_end(out);
    push_end(out);
    assert(event_views(out@) =~= base + definitions_events::<P>());
}

/// How an event changes the number of open elements.
pub open spec fn nesting<P>(e: EventView<P>) -> int {
    match e {
        EventView::StartElement { .. } => 1,
        EventView::EndElement => -1,
        _ => 0,
    }
}

/// The number of elements left open after the events of `s`.
pub open spec fn depth<P>(s: Seq<EventView<P>>) -> int
    decreases s.len(),
{
    if s.len() == 0 {
        0
    } else {
        depth(s.drop_last()) + nesting(s.last())
    }
}

/// No prefix of `s` leaves fewer than `floor` elements open.
pub open spec fn stays_at_least<P>(s: Seq<EventView<P>>, floor: int) -> bool {
    forall|i: int| 0 <= i <= s.len() ==> #[trigger] depth(s.take(i)) >= floor
}

/// Every element that `s` closes was opened before in `s`, and every
/// element it opens it closes.
pub open spec fn well_nested<P>(s: Seq<EventView<P>>) -> bool {
    depth(s) == 0 && stays_at_least(s, 0)
}

pub open spec fn enclosed<P>(start: EventView<P>, inner: Seq<EventView<P>>) -> Seq<EventView<P>> {
    seq![start] + inner + seq![EventView::EndElement]
}

proof fn lemma_depth_concat<P>(a: Seq<EventView<P>>, b: Seq<EventView<P>>)
    ensures
        depth(a + b) == depth(a) + depth(b),
    decreases b.len(),
{
    if b.len() == 0 {
        assert(a + b =~= a);
    } else {
        assert((a + b).drop_last() =~= a + b.drop_last());
        assert((a + b).last() == b.last());
        lemma_depth_concat(a, b.drop_last());
    }
}

proof fn lemma_well_nested_concat<P>(a: Seq<EventView<P>>, b: Seq<EventView<P>>)
    requires
        well_nested(a),
        well_nested(b),
    ensures
        well_nested(a + b),
{
    lemma_depth_concat(a, b);
    assert forall|i: int| 0 <= i <= (a + b).len() implies #[trigger] depth((a + b).take(i)) >= 0 by {
        if i <= a.len() {
            assert((a + b).take(i) =~= a.take(i));
        } else {
            assert((a + b).take(i) =~= a + b.take(i - a.len()));
            lemma_depth_concat(a, b.take(i - a.len()));
            assert(depth(b.take(i - a.len())) >= 0);
        }
    }
}

proof fn lemma_enclosed<P>(start: EventView<P>, inner: Seq<EventView<P>>)
    requires
        start is StartElement,
        well_nested(inner),
    ensures
        well_nested(enclosed(start, inner)),
        forall|i: int|
            1 <= i < enclosed(start, inner).len() ==> #[trigger] depth(enclosed(start, inner).take(i))
                >= 1,
{
    let w = enclosed(start, inner);
    assert(seq![start].drop_last() =~= Seq::<EventView<P>>::empty());
    assert(seq![start].last() == start);
    assert(depth(Seq::<EventView<P>>::empty()) == 0);
    assert(depth(seq![start]) == 1);
    assert(w.drop_last() =~= seq![start] + inner);
    lemma_depth_concat(seq![start], inner);
    assert forall|i: int| 1 <= i < w.len() implies #[trigger] depth(w.take(i)) >= 1 by {
        assert(w.take(i) =~= seq![start] + inner.take(i - 1));
        lemma_depth_concat(seq![start], inner.take(i - 1));
        assert(depth(inner.take(i - 1)) >= 0);
    }
    assert forall|i: int| 0 <= i <= w.len() implies #[trigger] depth(w.take(i)) >= 0 by {
        if i == 0 {
            assert(w.take(0) =~= Seq::<EventView<P>>::empty());
        } else if i == w.len() {
            assert(w.take(i) =~= w);
        }
    }
}

proof fn lemma_vertices_flat<P>(p: Seq<P>)
    ensures
        depth(p.map_values(|v: P| EventView::Vertex(v))) == 0,
    decreases p.len(),
{
    if p.len() > 0 {
        assert(p.map_values(|v: P| EventView::Vertex(v)).drop_last() =~= p.drop_last().map_values(
            |v: P| EventView::Vertex(v),
        ));
        lemma_vertices_flat(p.drop_last());
    }
}

proof fn lemma_vertices_nested<P>(p: Seq<P>)
    ensures
        well_nested(p.map_values(|v: P| EventView::Vertex(v))),
{
    let s = p.map_values(|v: P| EventView::Vertex(v));
    lemma_vertices_flat(p);
    assert forall|i: int| 0 <= i <= s.len() implies #[trigger] depth(s.take(i)) >= 0 by {
        assert(s.take(i) =~= p.take(i).map_values(|v: P| EventView::Vertex(v)));
        lemma_vertices_flat(p.take(i));
    }
}

proof fn lemma_empty_nested<P>()
    ensures
        well_nested(Seq::<EventView<P>>::empty()),
{
    assert(Seq::<EventView<P>>::empty().take(0) =~= Seq::<EventView<P>>::empty());
}

proof fn lemma_traces_nested<P>(t: Traces<P>)
    ensures
        well_nested(traces_events(t)),
    decreases t, 0nat,
{
    match t {
        Traces::Trace(tr) => {
            lemma_vertices_nested(tr.vertices@);
            lemma_enclosed(
                element::<P>("trace"@, stroke_attributes()),
                tr.vertices@.map_values(|v: P| EventView::Vertex(v)),
            );
            assert(trace_events(tr) =~= enclosed(
                element::<P>("trace"@, stroke_attributes()),
                tr.vertices@.map_values(|v: P| EventView::Vertex(v)),
            ));
        },
        Traces::TraceGroup(g) => {
            lemma_forest_nested(g.traces@);
            lemma_enclosed(element::<P>("traceGroup"@, stroke_attributes()), forest_events(g.traces@));
        },
    }
}

proof fn lemma_forest_nested<P>(s: Seq<Traces<P>>)
    ensures
        well_nested(forest_events(s)),
    decreases s, 1nat,
{
    if s.len() == 0 {
        lemma_empty_nested::<P>();
    } else {
        lemma_traces_nested(s[0]);
        lemma_forest_nested(s.drop_first());
        lemma_well_nested_concat(traces_events(s[0]), forest_events(s.drop_first()));
    }
}

proof fn lemma_leaf<P>(start: EventView<P>)
    requires
        start is StartElement,
    ensures
        well_nested(enclosed(start, Seq::<EventView<P>>::empty())),
{
    lemma_empty_nested::<P>();
    lemma_enclosed(start, Seq::<EventView<P>>::empty());
}

proof fn lemma_definitions_nested<P>()
    ensures
        well_nested(definitions_events::<P>()),
{
    let e = Seq::<EventView<P>>::empty();
    let ch_x = enclosed(element::<P>("channel"@, seq![("name"@, "X"@), ("type"@, "integer"@)]), e);
    let ch_y = enclosed(element::<P>("channel"@, seq![("name"@, "Y"@), ("type"@, "integer"@)]), e);
    let bp_w = enclosed(
        element::<P>("brushProperty"@, seq![("name"@, "width"@), ("value"@, "3"@), ("units"@, "mm"@)]),
        e,
    );
    let bp_h = enclosed(
        element::<P>(
            "brushProperty"@,
            seq![("name"@, "height"@), ("value"@, "3"@), ("units"@, "mm"@)],
        ),
        e,
    );
    let bp_c = enclosed(
        element::<P>("brushProperty"@, seq![("name"@, "color"@), ("value"@, "\\#FFFFFF"@)]),
        e,
    );
    lemma_leaf(element::<P>("channel"@, seq![("name"@, "X"@), ("type"@, "integer"@)]));
    lemma_leaf(element::<P>("channel"@, seq![("name"@, "Y"@), ("type"@, "integer"@)]));
    lemma_leaf(
        element::<P>("brushProperty"@, seq![("name"@, "width"@), ("value"@, "3"@), ("units"@, "mm"@)]),
    );
    lemma_leaf(
        element::<P>(
            "brushProperty"@,
            seq![("name"@, "height"@), ("value"@, "3"@), ("units"@, "mm"@)],
        ),
    );
    lemma_leaf(element::<P>("brushProperty"@, seq![("name"@, "color"@), ("value"@, "\\#FFFFFF"@)]));
    lemma_well_nested_concat(ch_x, ch_y);
    let trace_format = enclosed(element::<P>("traceFormat"@, seq![]), ch_x + ch_y);
    lemma_enclosed(element::<P>("traceFormat"@, seq![]), ch_x + ch_y);
    let ink_source = enclosed(element::<P>("inkSource"@, seq![("xml:id"@, "inkSrc0"@)]), trace_format);
    lemma_enclosed(element::<P>("inkSource"@, seq![("xml:id"@, "inkSrc0"@)]), trace_format);
    let context = enclosed(element::<P>("context"@, seq![("xml:id"@, "ctx0"@)]), ink_source);
    lemma_enclosed(element::<P>("context"@, seq![("xml:id"@, "ctx0"@)]), ink_source);
    lemma_well_nested_concat(bp_w, bp_h);
    lemma_well_nested_concat(bp_w + bp_h, bp_c);
    let brush = enclosed(element::<P>("brush"@, seq![("xml:id"@, "br0"@)]), bp_w + bp_h + bp_c);
    lemma_enclosed(element::<P>("brush"@, seq![("xml:id"@, "br0"@)]), bp_w + bp_h + bp_c);
    lemma_well_nested_concat(context, brush);
    lemma_enclosed(element::<P>("definitions"@, seq![]), context + brush);
    assert(definitions_events::<P>() =~= enclosed(element::<P>("definitions"@, seq![]), context + brush));
}

/// Whatever the document, the events written for it are properly nested:
/// no element is closed that was not opened, every element opened is
/// closed, and the `ink` element stays open from its opening tag (the
/// second event) until the last event closes it.
pub proof fn lemma_written_events_well_nested<P>(ink: Ink<P>)
    ensures
        well_nested(document_events(ink)),
        forall|i: int|
            2 <= i < document_events(ink).len() ==> #[trigger] depth(document_events(ink).take(i))
                >= 1,
{
    let forest = forest_events(ink.traces@);
    lemma_forest_nested(ink.traces@);
    lemma_definitions_nested::<P>();
    lemma_well_nested_concat(definitions_events::<P>(), forest);
    let body = enclosed(ink_start::<P>(), definitions_events::<P>() + forest);
    lemma_enclosed(ink_start::<P>(), definitions_events::<P>() + forest);
    let doc = document_events(ink);
    assert(doc =~= seq![document_start::<P>()] + body);
    assert(seq![document_start::<P>()].drop_last() =~= Seq::<EventView<P>>::empty());
    assert(seq![document_start::<P>()].last() == document_start::<P>());
    assert(depth(Seq::<EventView<P>>::empty()) == 0);
    assert(depth(seq![document_start::<P>()]) == 0);
    assert forall|i: int| 1 <= i <= doc.len() implies #[trigger] depth(doc.take(i)) == depth(
        body.take(i - 1),
    ) by {
        assert(doc.take(i) =~= seq![document_start::<P>()] + body.take(i - 1));
        lemma_depth_concat(seq![document_start::<P>()], body.take(i - 1));
    }
    assert forall|i: int| 0 <= i <= doc.len() implies #[trigger] depth(doc.take(i)) >= 0 by {
        if i == 0 {
            assert(doc.take(0) =~= Seq::<EventView<P>>::empty());
        } else {
            assert(depth(body.take(i - 1)) >= 0);
        }
    }
    assert(doc.take(doc.len() as int) =~= doc);
    assert(body.take(body.len() as int) =~= body);
    assert forall|i: int| 2 <= i < doc.len() implies #[trigger] depth(doc.take(i)) >= 1 by {
        assert(depth(body.take(i - 1)) >= 1);
    }
}

/// Every opening tag among `s` is that of a trace or a group, carrying
/// the stroke attributes.
pub open spec fn starts_are_strokes<P>(s: Seq<EventView<P>>) -> bool {
    forall|i: int|
        0 <= i < s.len() && (#[trigger] s[i]) is StartElement ==> s[i] == element::<P>(
            "trace"@,
            stroke_attributes(),
        ) || s[i] == element::<P>("traceGroup"@, stroke_attributes())
}

proof fn lemma_starts_concat<P>(a: Seq<EventView<P>>, b: Seq<EventView<P>>)
    requires
        starts_are_strokes(a),
        starts_are_strokes(b),
    ensures
        starts_are_strokes(a + b),
{
    assert forall|i: int| 0 <= i < (a + b).len() && (#[trigger] (a + b)[i]) is StartElement implies (a
        + b)[i] == element::<P>("trace"@, stroke_attributes()) || (a + b)[i] == element::<P>(
        "traceGroup"@,
        stroke_attributes(),
    ) by {
        if i < a.len() {
            assert((a + b)[i] == a[i]);
        } else {
            assert((a + b)[i] == b[i - a.len()]);
        }
    }
}

proof fn lemma_traces_starts<P>(t: Traces<P>)
    ensures
        starts_are_strokes(traces_events(t)),
    decreases t, 0nat,
{
    match t {
        Traces::Trace(tr) => {
            let start = seq![element::<P>("trace"@, stroke_attributes())];
            let vs = tr.vertices@.map_values(|p: P| EventView::Vertex(p));
            let end = seq![EventView::<P>::EndElement];
            assert(starts_are_strokes(start));
            assert(starts_are_strokes(end));
            assert(starts_are_strokes(vs));
            lemma_starts_concat(start, vs);
            lemma_starts_concat(start + vs, end);
        },
        Traces::TraceGroup(g) => {
            let start = seq![element::<P>("traceGroup"@, stroke_attributes())];
            let end = seq![EventView::<P>::EndElement];
            lemma_forest_starts(g.traces@);
            assert(starts_are_strokes(start));
            assert(starts_are_strokes(end));
            lemma_starts_concat(start, forest_events(g.traces@));
            lemma_starts_concat(start + forest_events(g.traces@), end);
        },
    }
}

proof fn lemma_forest_starts<P>(s: Seq<Traces<P>>)
    ensures
        starts_are_strokes(forest_events(s)),
    decreases s, 1nat,
{
    if s.len() > 0 {
        lemma_traces_starts(s[0]);
        lemma_forest_starts(s.drop_first());
        lemma_starts_concat(traces_events(s[0]), forest_events(s.drop_first()));
    }
}

/// Whatever the document, the definitions written for it declare a
/// context and a brush by `xml:id`, and every trace and group written
/// after them refers to exactly those two: its `contextRef` is `#` and the
/// context's id, its `brushRef` is `#` and the brush's id.  Every opening
/// tag after the definitions is a trace or a group.
pub proof fn lemma_strokes_refer_to_declared_ids<P>(ink: Ink<P>)
    ensures
        ({
            let d = document_events(ink);
            let context = d[3];
            let brush = d[13];
            &&& context matches EventView::StartElement { name, attributes, .. } && name
                == "context"@ && attributes.len() == 1 && attributes[0].0 == "xml:id"@
            &&& brush matches EventView::StartElement { name, attributes, .. } && name == "brush"@
                && attributes.len() == 1 && attributes[0].0 == "xml:id"@
            &&& forall|i: int|
                22 <= i < d.len() && (#[trigger] d[i]) is StartElement ==> (d[i]->name == "trace"@
                    || d[i]->name == "traceGroup"@) && d[i]->attributes == seq![
                    ("contextRef"@, seq!['#'] + context->attributes[0].1),
                    ("brushRef"@, seq!['#'] + brush->attributes[0].1),
                ]
        }),
{
    reveal_strlit("#ctx0");
    reveal_strlit("ctx0");
    reveal_strlit("#br0");
    reveal_strlit("br0");
    assert(seq!['#'] + "ctx0"@ =~= "#ctx0"@);
    assert(seq!['#'] + "br0"@ =~= "#br0"@);
    let d = document_events(ink);
    let head = seq![document_start::<P>(), ink_start::<P>()];
    let defs = definitions_events::<P>();
    let forest = forest_events(ink.traces@);
    assert(d == head + defs + forest + seq![EventView::<P>::EndElement]);
    assert(d[3] == defs[1]);
    assert(d[13] == defs[11]);
    lemma_forest_starts(ink.traces@);
    assert forall|i: int| 22 <= i < d.len() && (#[trigger] d[i]) is StartElement implies (d[i]->name
        == "trace"@ || d[i]->name == "traceGroup"@) && d[i]->attributes == seq![
        ("contextRef"@, seq!['#'] + d[3]->attributes[0].1),
        ("brushRef"@, seq!['#'] + d[13]->attributes[0].1),
    ] by {
        assert(i < 22 + forest.len());
        assert(d[i] == forest[i - 22]);
        assert(d[3]->attributes[0].1 == "ctx0"@);
        assert(d[13]->attributes[0].1 == "br0"@);
        assert(stroke_attributes() =~= seq![
            ("contextRef"@, seq!['#'] + d[3]->attributes[0].1),
            ("brushRef"@, seq!['#'] + d[13]->attributes[0].1),
        ]);
    }
}

/// Whatever the document, its trace format declares two integer channels,
/// `X` and then `Y`: the order in which each vertex's two coordinates are
/// written.
pub proof fn lemma_channels_declared_x_then_y<P>(ink: Ink<P>)
    ensures
        document_events(ink)[5] matches EventView::StartElement { name, .. } && name
            == "traceFormat"@,
        document_events(ink)[6] == element::<P>("channel"@, seq![("name"@, "X"@), ("type"@, "integer"@)]),
        document_events(ink)[7] is EndElement,
        document_events(ink)[8] == element::<P>("channel"@, seq![("name"@, "Y"@), ("type"@, "integer"@)]),
        document_events(ink)[9] is EndElement,
        document_events(ink)[10] is EndElement,
{
    let d = document_events(ink);
    let head = seq![document_start::<P>(), ink_start::<P>()];
    let defs = definitions_events::<P>();
    let forest = forest_events(ink.traces@);
    assert(d == head + defs + forest + seq![EventView::<P>::EndElement]);
    assert(d[5] == defs[3]);
    assert(d[6] == defs[4]);
    assert(d[7] == defs[5]);
    assert(d[8] == defs[6]);
    assert(d[9] == defs[7]);
    assert(d[10] == defs[8]);
}

impl<P: Copy> Ink<P> {
    /// The events that serialise this document, in the order they are
    /// written.
    pub fn write_events(&self) -> (r: Vec<WriteEvent<P>>)
        ensures
            event_views(r@) == document_events(*self),
    {
        let mut out: Vec<WriteEvent<P>> = Vec::new();
        push_event(
            &mut out,
            WriteEvent::StartDocument {
                version: XmlVersion::Version10,
                encoding: Some(text("UTF-8")),
                standalone: Some(true),
            },
        );
        let tag = StartTag {
            name: text("ink"),
            namespaces: attributes1("inkml", "https://www.w3.org/TR/InkML"),
            attributes: no_attributes(),
        };
        push_event(&mut out, WriteEvent::StartElement(tag));
        write_definitions(&mut out);
        let ghost base = event_views(out@);
        assert(base =~= seq![document_start::<P>(), ink_start::<P>()] + definitions_events::<P>());
        assert(self.traces@.take(0) =~= Seq::<Traces<P>>::empty());
        let mut i: usize = 0;
        while i < self.traces.len()
            invariant
                i <= self.traces@.len(),
                event_views(out@) == base + forest_events(self.traces@.take(i as int)),
            decreases self.traces@.len() - i,
        {
            write_traces(&mut out, &self.traces[i]);
            proof {
                assert(self.traces@.take(i + 1) =~= self.traces@.take(i as int).push(
                    self.traces@[i as int],
                ));
                lemma_forest_events_push(self.traces@.take(i as int), self.traces@[i as int]);
            }
            i += 1;
        }
        assert(self.traces@.take(i as int) =~= self.traces@);
        push_end(&mut out);
        out
    }
}

} // verus!
