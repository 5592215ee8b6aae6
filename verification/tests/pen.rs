use inkmlrs::inkml::{Ink, Traces};
use inkmlrs::render::Renderer;
use inkmlrs::state::{State, FLUSH_LEN};

type Point = [f32; 2];

#[test]
fn motion_is_recorded_only_while_the_button_is_held() {
    let mut s: State<Point> = State::new(Ink::default(), [100.0, 100.0]);
    assert!(s.mouse_motion([1.0, 1.0]).is_none());
    assert!(s.current_trace().is_empty());
    s.mouse_button_down();
    assert!(s.mouse_motion([2.0, 3.0]).is_none());
    assert_eq!(s.current_trace(), &vec![[2.0, 3.0]]);
}

#[test]
fn release_commits_the_stroke_as_a_trace() {
    let mut s: State<Point> = State::new(Ink::default(), [0.0, 0.0]);
    s.mouse_button_down();
    s.mouse_motion([1.0, 1.0]);
    s.mouse_motion([2.0, 2.0]);
    let undrawn = s.mouse_button_up();
    assert_eq!(undrawn, vec![[1.0, 1.0], [2.0, 2.0]]);
    assert!(s.current_trace().is_empty());
    let ink = s.document().unwrap();
    assert_eq!(ink.traces.len(), 1);
    assert!(matches!(&ink.traces[0], Traces::Trace(t) if t.vertices == vec![[1.0, 1.0], [2.0, 2.0]]));
    // motion after release is not recorded
    s.mouse_motion([3.0, 3.0]);
    assert!(s.current_trace().is_empty());
}

#[test]
fn long_strokes_are_drawn_in_parts_and_committed_whole() {
    let mut s: State<Point> = State::new(Ink::default(), [0.0, 0.0]);
    s.mouse_button_down();
    let mut flushed = Vec::new();
    for i in 0..(FLUSH_LEN + 5) {
        if let Some(part) = s.mouse_motion([i as f32, 0.0]) {
            flushed.push(part);
        }
    }
    assert_eq!(flushed.len(), 1);
    assert_eq!(flushed[0].len(), FLUSH_LEN + 1);
    assert_eq!(s.current_trace().len(), 4);
    let rest = s.mouse_button_up();
    assert_eq!(rest.len(), 4);
    let ink = s.document().unwrap();
    match &ink.traces[0] {
        Traces::Trace(t) => {
            assert_eq!(t.vertices.len(), FLUSH_LEN + 5);
            assert_eq!(t.vertices[FLUSH_LEN + 4], [(FLUSH_LEN + 4) as f32, 0.0]);
        }
        _ => panic!("expected a trace"),
    }
}

#[test]
fn only_a_fresh_write_key_asks_for_writing() {
    let s: State<Point> = State::new(Ink::default(), [0.0, 0.0]);
    assert!(s.key_down(true, false).is_some());
    assert!(s.key_down(true, true).is_none());
    assert!(s.key_down(false, false).is_none());
}

#[test]
fn renderer_sections_tile_the_queue() {
    let mut r: Renderer<u32> = Renderer::new();
    r.add_stroke(vec![1, 2, 3, 4]);
    r.add_stroke(vec![]);
    r.add_stroke(vec![5, 6, 7, 8, 9, 10, 11, 12]);
    assert_eq!(r.num_sections(), 3);
    assert_eq!(r.section_vertices(0), &[1, 2, 3, 4]);
    assert!(r.section_vertices(1).is_empty());
    assert_eq!(r.section_vertices(2), &[5, 6, 7, 8, 9, 10, 11, 12]);
}
