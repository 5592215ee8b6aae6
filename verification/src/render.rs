//! The stroke queue of the GPU renderer.
//!
//! Each stroke is turned into triangle vertices (two triangles per segment,
//! done by the caller) and queued; the renderer remembers, for each stroke,
//! the range of the queue that holds its vertices.
use std::ops::Range;
use vstd::prelude::*;

verus! {

/// The range of queued vertices that belongs to one stroke.
#[derive(Debug)]
pub struct Section {
    pub range: Range<usize>,
}

/// The vertices queued for drawing, and the section of each stroke.
pub struct Renderer<V> {
    queued: Vec<V>,
    sections: Vec<Section>,
}

/// The sections, in order, cover the queue `0..len` without gap or overlap.
pub open spec fn tiles(sections: Seq<Section>, len: nat) -> bool {
    &&& forall|i: int|
        0 <= i < sections.len() ==> #[trigger] sections[i].range.start <= sections[i].range.end
    &&& forall|i: int|
        0 < i < sections.len() ==> #[trigger] sections[i].range.start == sections[i - 1].range.end
    &&& sections.len() == 0 ==> len == 0
    &&& sections.len() > 0 ==> sections[0].range.start == 0 && sections.last().range.end == len
}

impl<V> Renderer<V> {
    /// The sections always cover the queue.
    #[verifier::type_invariant]
    spec fn sections_tile_queue(self) -> bool {
        tiles(self.sections@, self.queued@.len())
    }

    /// The vertices queued so far.
    pub closed spec fn queued(&self) -> Seq<V> {
        self.queued@
    }

    /// The section of each stroke queued so far, in order.
    pub closed spec fn sections(&self) -> Seq<Section> {
        self.sections@
    }

    /// An empty queue.
    pub fn new() -> (r: Self)
        ensures
            r.queued() == Seq::<V>::empty(),
            r.sections() == Seq::<Section>::empty(),
            tiles(r.sections(), r.queued().len()),
    {
        Renderer { queued: Vec::new(), sections: Vec::new() }
    }

    /// Queues the vertices of one stroke and records their section.
    pub fn add_stroke(&mut self, vertices: Vec<V>)
        ensures
            final(self).queued() == old(self).queued() + vertices@,
            final(self).sections().len() == old(self).sections().len() + 1,
            final(self).sections().drop_last() == old(self).sections(),
            final(self).sections().last().range.start == old(self).queued().len(),
            final(self).sections().last().range.end == final(self).queued().len(),
            tiles(final(self).sections(), final(self).queued().len()),
    {
        let mut vertices = vertices;
        let mut taken = Renderer { queued: Vec::new(), sections: Vec::new() };
        std::mem::swap(self, &mut taken);
        proof {
            use_type_invariant(&taken);
        }
        let Renderer { mut queued, mut sections } = taken;
        let ghost before = sections@;
        let start = queued.len();
        queued.append(&mut vertices);
        let end = queued.len();
        sections.push(Section { range: start..end });
        assert(sections@.drop_last() =~= before);
        *self = Renderer { queued, sections };
    }

    /// The number of strokes queued.
    pub fn num_sections(&self) -> (r: usize)
        ensures
            r == self.sections().len(),
    {
        self.sections.len()
    }

    /// The vertices of the `i`-th stroke queued.
    pub fn section_vertices(&self, i: usize) -> (r: &[V])
        requires
            i < self.sections().len(),
        ensures
            r@ == self.queued().subrange(
                self.sections()[i as int].range.start as int,
                self.sections()[i as int].range.end as int,
            ),
    {
        proof {
            use_type_invariant(self);
            lemma_sections_within(self.sections(), self.queued().len(), i as int);
        }
        let start = self.sections[i].range.start;
        let end = self.sections[i].range.end;
        slice_range(self.queued.as_slice(), start, end)
    }
}

/// In a tiling of `0..len`, every section lies within `0..len`.
pub proof fn lemma_sections_within(sections: Seq<Section>, len: nat, i: int)
    requires
        tiles(sections, len),
        0 <= i < sections.len(),
    ensures
        sections[i].range.start <= sections[i].range.end <= len,
    decreases sections.len() - i,
{
    if i + 1 < sections.len() {
        lemma_sections_within(sections, len, i + 1);
        assert(sections[i + 1].range.start == sections[i].range.end);
    }
}

/// The elements `start..end` of `s`.
fn slice_range<V>(s: &[V], start: usize, end: usize) -> (r: &[V])
    requires
        start <= end <= s@.len(),
    ensures
        r@ == s@.subrange(start as int, end as int),
{
    let (head, _) = s.split_at(end);
    let (_, middle) = head.split_at(start);
    assert(middle@ =~= s@.subrange(start as int, end as int));
    middle
}

} // verus!
