use inkmlrs::error::InkmlError;
use inkmlrs::inkml::{Ink, Traces};
use inkmlrs::parse::{InkParser, ParseStep};
use inkmlrs::xml_io::{read_xml, XmlIn};

type Point = [f32; 2];

fn start(n: &str) -> XmlIn {
    XmlIn::StartElement(n.to_string())
}

fn end(n: &str) -> XmlIn {
    XmlIn::EndElement(n.to_string())
}

/// Feeds the events; vertex requests are answered with one vertex per request.
fn build(events: Vec<XmlIn>) -> Result<Ink<Point>, InkmlError> {
    let mut parser: InkParser<Point> = InkParser::new();
    let mut n = 0.0;
    for e in events {
        match parser.feed(e)? {
            ParseStep::Continue => {}
            ParseStep::ParseVertices(_) => {
                n += 1.0;
                parser.append_vertices(vec![[n, n]]);
            }
        }
    }
    Ok(parser.finish())
}

#[test]
fn read_xml_reduces_the_events() {
    let (events, error) = read_xml(b"<ink><trace>1 2</trace><!-- c --></ink>");
    assert!(error.is_none());
    let kinds: Vec<String> = events
        .iter()
        .map(|e| match e {
            XmlIn::StartElement(n) => format!("<{}", n),
            XmlIn::EndElement(n) => format!("{}>", n),
            XmlIn::Characters(t) => format!("'{}'", t),
            XmlIn::Other => "-".to_string(),
        })
        .collect();
    // the reader leaves comments out by default
    assert_eq!(kinds, vec!["-", "<ink", "<trace", "'1 2'", "trace>", "ink>", "-"]);
}

#[test]
fn read_xml_keeps_local_names() {
    let (events, error) = read_xml(b"<x:ink xmlns:x=\"urn:a\"/>");
    assert!(error.is_none());
    assert!(matches!(&events[1], XmlIn::StartElement(n) if n == "ink"));
    assert!(matches!(&events[2], XmlIn::EndElement(n) if n == "ink"));
}

#[test]
fn read_xml_stops_on_an_error() {
    let (events, error) = read_xml(b"<ink><trace></ink>");
    assert!(matches!(error, Some(InkmlError::XmlReaderError(_))));
    assert_eq!(events.len(), 3);
    assert!(matches!(&events[2], XmlIn::StartElement(n) if n == "trace"));
}

#[test]
fn builds_the_tree() {
    let ink = build(vec![
        XmlIn::Other,
        start("ink"),
        start("definitions"),
        end("definitions"),
        start("trace"),
        XmlIn::Characters("1 2".to_string()),
        end("trace"),
        start("traceGroup"),
        start("trace"),
        end("trace"),
        end("traceGroup"),
        end("ink"),
        XmlIn::Other,
    ])
    .unwrap();
    assert_eq!(ink.traces.len(), 2);
    match &ink.traces[0] {
        Traces::Trace(t) => assert_eq!(t.vertices, vec![[1.0, 1.0]]),
        _ => panic!("expected a trace"),
    }
    match &ink.traces[1] {
        Traces::TraceGroup(g) => {
            assert_eq!(g.traces.len(), 1);
            assert!(matches!(&g.traces[0], Traces::Trace(t) if t.vertices.is_empty()));
        }
        _ => panic!("expected a group"),
    }
}

#[test]
fn text_is_asked_for_only_inside_a_trace() {
    let mut parser: InkParser<Point> = InkParser::new();
    assert!(matches!(parser.feed(XmlIn::Characters("1 2".to_string())), Ok(ParseStep::Continue)));
    parser.feed(start("ink")).unwrap();
    assert!(matches!(parser.feed(XmlIn::Characters("1 2".to_string())), Ok(ParseStep::Continue)));
    parser.feed(start("trace")).unwrap();
    assert!(parser.reading_trace());
    match parser.feed(XmlIn::Characters("3 4,".to_string())) {
        Ok(ParseStep::ParseVertices(t)) => assert_eq!(t, "3 4,"),
        _ => panic!("expected a request for vertices"),
    }
    // inside another element within the trace, the text is not the trace's
    parser.feed(start("annotation")).unwrap();
    assert!(matches!(parser.feed(XmlIn::Characters("x".to_string())), Ok(ParseStep::Continue)));
}

#[test]
fn an_unopened_node_end_is_invalid() {
    let mut parser: InkParser<Point> = InkParser::new();
    assert!(matches!(parser.feed(end("trace")), Err(InkmlError::InvalidInkml)));
    assert!(matches!(parser.feed(end("other")), Ok(ParseStep::Continue)));
    assert!(matches!(build(vec![start("ink"), end("ink"), end("ink")]), Err(InkmlError::InvalidInkml)));
}

#[test]
fn a_trace_outside_any_ink_is_dropped() {
    let ink = build(vec![start("trace"), end("trace"), start("ink"), end("ink")]).unwrap();
    assert!(ink.traces.is_empty());
}

#[test]
fn a_nested_ink_is_dropped_and_the_outer_one_kept() {
    let ink = build(vec![
        start("ink"),
        start("ink"),
        start("trace"),
        end("trace"),
        end("ink"),
        start("trace"),
        end("trace"),
        end("ink"),
    ])
    .unwrap();
    assert_eq!(ink.traces.len(), 1);
}

#[test]
fn a_trace_closed_inside_a_trace_is_dropped() {
    let ink = build(vec![
        start("ink"),
        start("trace"),
        start("trace"),
        end("trace"),
        end("trace"),
        end("ink"),
    ])
    .unwrap();
    assert_eq!(ink.traces.len(), 1);
}

#[test]
fn the_last_top_level_ink_wins() {
    let ink = build(vec![
        start("ink"),
        start("trace"),
        end("trace"),
        end("ink"),
        start("ink"),
        end("ink"),
    ])
    .unwrap();
    assert!(ink.traces.is_empty());
}

#[test]
fn no_ink_gives_an_empty_document() {
    let ink = build(vec![start("svg"), end("svg")]).unwrap();
    assert!(ink.traces.is_empty());
}

use inkmlrs::inkml::{Trace, TraceGroup};
use inkmlrs::xml_io::{write_xml, WriteEvent};

fn sample() -> Ink<Point> {
    Ink {
        traces: vec![
            Traces::Trace(Trace { vertices: vec![[1.0, 2.0], [3.0, 4.0]] }),
            Traces::TraceGroup(TraceGroup {
                traces: vec![
                    Traces::Trace(Trace { vertices: vec![[5.0, 6.0]] }),
                    Traces::TraceGroup(TraceGroup { traces: vec![] }),
                ],
            }),
            Traces::Trace(Trace { vertices: vec![] }),
        ],
    }
}

fn same_forest(a: &[Traces<Point>], b: &[Traces<Point>]) -> bool {
    a.len() == b.len()
        && a.iter().zip(b.iter()).all(|(x, y)| match (x, y) {
            (Traces::Trace(s), Traces::Trace(t)) => s.vertices == t.vertices,
            (Traces::TraceGroup(g), Traces::TraceGroup(h)) => same_forest(&g.traces, &h.traces),
            _ => false,
        })
}

#[test]
fn feeding_the_written_events_rebuilds_the_document() {
    let ink = sample();
    let mut parser: InkParser<Point> = InkParser::new();
    let mut open: Vec<String> = Vec::new();
    for e in ink.write_events() {
        let (event, vertex) = match e {
            WriteEvent::StartDocument { .. } => (XmlIn::Other, None),
            WriteEvent::StartElement(tag) => {
                open.push(tag.name.clone());
                (XmlIn::StartElement(tag.name), None)
            }
            WriteEvent::Vertex(p) => (XmlIn::Characters(format!("{} {},", p[0], p[1])), Some(p)),
            WriteEvent::EndElement => (XmlIn::EndElement(open.pop().unwrap()), None),
        };
        if let ParseStep::ParseVertices(_) = parser.feed(event).unwrap() {
            parser.append_vertices(vec![vertex.unwrap()]);
        }
    }
    assert!(same_forest(&parser.finish().traces, &ink.traces));
}

/// Reads "x y," pairs.
fn pairs(text: &str) -> Vec<Point> {
    text.split(',')
        .filter(|p| !p.trim().is_empty())
        .map(|p| {
            let xy: Vec<f32> = p.split(' ').filter_map(|s| s.parse().ok()).collect();
            [xy[0], xy[1]]
        })
        .collect()
}

#[test]
fn written_bytes_read_back_to_the_document() {
    let ink = sample();
    let events: Vec<WriteEvent<String>> = ink
        .write_events()
        .into_iter()
        .map(|e| match e {
            WriteEvent::StartDocument { version, encoding, standalone } => {
                WriteEvent::StartDocument { version, encoding, standalone }
            }
            WriteEvent::StartElement(tag) => WriteEvent::StartElement(tag),
            WriteEvent::Vertex(p) => WriteEvent::Vertex(format!("{} {},", p[0], p[1])),
            WriteEvent::EndElement => WriteEvent::EndElement,
        })
        .collect();
    let bytes = write_xml(&events).unwrap();
    let (read, error) = read_xml(&bytes);
    assert!(error.is_none());
    let mut parser: InkParser<Point> = InkParser::new();
    for e in read {
        if let ParseStep::ParseVertices(text) = parser.feed(e).unwrap() {
            parser.append_vertices(pairs(&text));
        }
    }
    assert!(same_forest(&parser.finish().traces, &ink.traces));
}
