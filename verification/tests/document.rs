use inkmlrs::inkml::{Ink, Node, Trace, TraceGroup, Traces};

type Point = [f32; 2];

fn trace(points: &[Point]) -> Traces<Point> {
    Traces::Trace(Trace { vertices: points.to_vec() })
}

fn group(traces: Vec<Traces<Point>>) -> Traces<Point> {
    Traces::TraceGroup(TraceGroup { traces })
}

/// ink [ A, G1 [ B, G2 [ C ] ], D ]
fn sample() -> Ink<Point> {
    Ink {
        traces: vec![
            trace(&[[1.0, 1.0]]),
            group(vec![trace(&[[2.0, 2.0]]), group(vec![trace(&[[3.0, 3.0]])])]),
            trace(&[[4.0, 4.0]]),
        ],
    }
}

fn label(n: &Node<'_, Point>) -> String {
    match n {
        Node::Ink(_) => "ink".to_string(),
        Node::Traces(Traces::Trace(t)) => format!("trace{}", t.vertices[0][0]),
        Node::Traces(Traces::TraceGroup(g)) => format!("group{}", g.traces.len()),
    }
}

#[test]
fn walk_is_breadth_first() {
    let ink = sample();
    let labels: Vec<String> = ink.nodes().iter().map(label).collect();
    assert_eq!(
        labels,
        vec!["ink", "trace1", "group2", "trace4", "trace2", "group1", "trace3"]
    );
}

#[test]
fn iter_next_hands_out_every_node_then_stops() {
    let ink = sample();
    let mut it = ink.iter();
    let mut count = 0;
    while let Some(_) = it.next() {
        count += 1;
    }
    assert_eq!(count, 7);
    assert!(it.next().is_none());
}

#[test]
fn walk_of_empty_document_is_the_document_alone() {
    let ink: Ink<Point> = Ink::default();
    let nodes = ink.nodes();
    assert_eq!(nodes.len(), 1);
    assert!(matches!(nodes[0], Node::Ink(_)));
}

#[test]
fn draw_appends_a_trace_through_the_points() {
    let mut ink = sample();
    ink.draw(&[[5.0, 6.0], [7.0, 8.0]]);
    assert_eq!(ink.traces.len(), 4);
    match &ink.traces[3] {
        Traces::Trace(t) => assert_eq!(t.vertices, vec![[5.0, 6.0], [7.0, 8.0]]),
        _ => panic!("expected a trace"),
    }
    // the earlier traces are untouched
    assert!(matches!(&ink.traces[1], Traces::TraceGroup(g) if g.traces.len() == 2));
}

#[test]
fn draw_of_no_points_adds_an_empty_trace() {
    let mut ink: Ink<Point> = Ink::default();
    ink.draw(&[]);
    assert_eq!(ink.traces.len(), 1);
    assert!(matches!(&ink.traces[0], Traces::Trace(t) if t.vertices.is_empty()));
}

#[test]
fn strokes_are_the_traces_in_walk_order() {
    let ink = sample();
    let firsts: Vec<f32> = ink.strokes().iter().map(|t| t.vertices[0][0]).collect();
    assert_eq!(firsts, vec![1.0, 4.0, 2.0, 3.0]);
}
