use inkmlrs::error::InkmlError;
use inkmlrs::inkml::{Ink, Trace, TraceGroup, Traces};
use inkmlrs::xml_io::{write_xml, StartTag, WriteEvent, XmlVersion};

type Point = [f32; 2];

fn name_of<T>(e: &WriteEvent<T>) -> String {
    match e {
        WriteEvent::StartDocument { .. } => "<?xml".to_string(),
        WriteEvent::StartElement(tag) => format!("<{}", tag.name),
        WriteEvent::Vertex(_) => "v".to_string(),
        WriteEvent::EndElement => ">".to_string(),
    }
}

fn as_text(e: WriteEvent<Point>) -> WriteEvent<String> {
    match e {
        WriteEvent::StartDocument { version, encoding, standalone } => {
            WriteEvent::StartDocument { version, encoding, standalone }
        }
        WriteEvent::StartElement(tag) => WriteEvent::StartElement(tag),
        WriteEvent::Vertex(p) => WriteEvent::Vertex(format!("{} {},", p[0], p[1])),
        WriteEvent::EndElement => WriteEvent::EndElement,
    }
}

fn one_trace() -> Ink<Point> {
    Ink { traces: vec![Traces::Trace(Trace { vertices: vec![[1.0, 2.0], [3.5, 4.0]] })] }
}

#[test]
fn events_of_a_single_trace() {
    let events = one_trace().write_events();
    assert_eq!(events.len(), 27);
    let names: Vec<String> = events.iter().map(name_of).collect();
    assert_eq!(names[0], "<?xml");
    assert_eq!(names[1], "<ink");
    assert_eq!(names[2], "<definitions");
    assert_eq!(names[21], ">");
    assert_eq!(&names[22..], &["<trace", "v", "v", ">", ">"]);
    match &events[0] {
        WriteEvent::StartDocument { version, encoding, standalone } => {
            assert_eq!(*version, XmlVersion::Version10);
            assert_eq!(encoding.as_deref(), Some("UTF-8"));
            assert_eq!(*standalone, Some(true));
        }
        _ => panic!("expected the declaration"),
    }
    match &events[1] {
        WriteEvent::StartElement(tag) => {
            assert_eq!(tag.namespaces, vec![("inkml".to_string(), "https://www.w3.org/TR/InkML".to_string())]);
            assert!(tag.attributes.is_empty());
        }
        _ => panic!("expected the ink tag"),
    }
    match &events[22] {
        WriteEvent::StartElement(tag) => assert_eq!(
            tag.attributes,
            vec![
                ("contextRef".to_string(), "#ctx0".to_string()),
                ("brushRef".to_string(), "#br0".to_string())
            ]
        ),
        _ => panic!("expected the trace tag"),
    }
    assert!(matches!(events[23], WriteEvent::Vertex(p) if p == [1.0, 2.0]));
    assert!(matches!(events[24], WriteEvent::Vertex(p) if p == [3.5, 4.0]));
}

#[test]
fn events_of_an_empty_document() {
    let ink: Ink<Point> = Ink::default();
    let names: Vec<String> = ink.write_events().iter().map(name_of).collect();
    assert_eq!(names.len(), 23);
    assert_eq!(names[22], ">");
}

fn nested() -> Ink<Point> {
    Ink {
        traces: vec![Traces::TraceGroup(TraceGroup {
            traces: vec![Traces::Trace(Trace { vertices: vec![[1.0, 2.0]] })],
        })],
    }
}

#[test]
fn a_nested_trace_is_written_once_inside_its_group() {
    let names: Vec<String> = nested().write_events().iter().map(name_of).collect();
    assert_eq!(&names[22..], &["<traceGroup", "<trace", "v", ">", ">", ">"]);
}

#[test]
fn write_xml_writes_a_group_with_its_trace_once() {
    let events: Vec<WriteEvent<String>> =
        nested().write_events().into_iter().map(as_text).collect();
    let text = String::from_utf8(write_xml(&events).unwrap()).unwrap();
    assert_eq!(text.matches("1 2,").count(), 1);
    assert_eq!(text.matches("<trace ").count(), 1);
    let group = text.find("<traceGroup contextRef=\"#ctx0\" brushRef=\"#br0\">").unwrap();
    let vertex = text.find("1 2,").unwrap();
    let group_end = text.find("</traceGroup>").unwrap();
    assert!(group < vertex && vertex < group_end);
}

#[test]
fn top_level_elements_are_written_in_order() {
    let ink = Ink {
        traces: vec![
            Traces::Trace(Trace { vertices: vec![] }),
            Traces::TraceGroup(TraceGroup { traces: vec![] }),
            Traces::Trace(Trace { vertices: vec![[0.0, 0.0]] }),
        ],
    };
    let names: Vec<String> = ink.write_events().iter().map(name_of).collect();
    assert_eq!(
        &names[22..],
        &["<trace", ">", "<traceGroup", ">", "<trace", "v", ">", ">"]
    );
}

#[test]
fn written_events_are_well_nested() {
    let ink = Ink {
        traces: vec![
            Traces::TraceGroup(TraceGroup {
                traces: vec![
                    Traces::Trace(Trace { vertices: vec![[9.0, 9.0]] }),
                    Traces::TraceGroup(TraceGroup { traces: vec![] }),
                ],
            }),
            Traces::Trace(Trace { vertices: vec![] }),
        ],
    };
    let events = ink.write_events();
    let mut depth: i64 = 0;
    for (i, e) in events.iter().enumerate() {
        match e {
            WriteEvent::StartElement(_) => depth += 1,
            WriteEvent::EndElement => depth -= 1,
            _ => {}
        }
        assert!(depth >= 0);
        if i >= 1 && i + 1 < events.len() {
            assert!(depth >= 1);
        }
    }
    assert_eq!(depth, 0);
}

#[test]
fn write_xml_renders_the_document() {
    let events: Vec<WriteEvent<String>> =
        one_trace().write_events().into_iter().map(as_text).collect();
    let bytes = write_xml(&events).expect("the writer accepts balanced events");
    let text = String::from_utf8(bytes).unwrap();
    assert!(text.starts_with("<?xml version=\"1.0\" encoding=\"UTF-8\" standalone=\"yes\"?>"));
    assert!(text.contains("<ink xmlns:inkml=\"https://www.w3.org/TR/InkML\">"));
    assert!(text.contains("<context xml:id=\"ctx0\">"));
    assert!(text.contains("<brushProperty name=\"color\" value=\"\\#FFFFFF\" />"));
    assert!(text.contains("<trace contextRef=\"#ctx0\" brushRef=\"#br0\">1 2,3.5 4,</trace>"));
    assert!(text.trim_end().ends_with("</ink>"));
}

#[test]
fn write_xml_refuses_an_unopened_end() {
    let events: Vec<WriteEvent<String>> = vec![WriteEvent::EndElement];
    assert!(matches!(write_xml(&events), Err(InkmlError::XmlWriterError(_))));
}

#[test]
fn write_xml_of_a_bare_element() {
    let events: Vec<WriteEvent<String>> = vec![
        WriteEvent::StartElement(StartTag {
            name: "a".to_string(),
            namespaces: vec![],
            attributes: vec![("k".to_string(), "v".to_string())],
        }),
        WriteEvent::Vertex("x".to_string()),
        WriteEvent::EndElement,
    ];
    let text = String::from_utf8(write_xml(&events).unwrap()).unwrap();
    assert!(text.contains("<a k=\"v\">x</a>"));
}
