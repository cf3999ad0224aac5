use vstd::prelude::*;

verus! {

/// Three node indices, in the order in which they were derived from an element.
pub type Triangle = (usize, usize, usize);

/// Number of entries of an element that is split into triangles:
/// eight ring nodes, a region tag and the centroid.
pub const FAN_ELEMENT_LEN: usize = 10;

/// The element positions used by the fan of eight triangles: ring positions
/// 0..8 (top-left, top-mid, top-right, right-mid, bottom-right, bottom-mid,
/// bottom-left, left-mid), and position 9 for the centroid.
pub open spec fn fan_slots() -> Seq<(int, int, int)> {
    seq![
        (0, 1, 9),
        (0, 9, 7),
        (1, 2, 9),
        (2, 3, 9),
        (9, 3, 4),
        (9, 4, 5),
        (7, 9, 6),
        (9, 5, 6),
    ]
}

/// The triangles of one element: the fan applied to the element's entries for a
/// ten-entry element, nothing for any other shape.
pub open spec fn element_triangles(e: Seq<usize>) -> Seq<Triangle> {
    if e.len() == FAN_ELEMENT_LEN {
        fan_slots().map_values(|s: (int, int, int)| (e[s.0], e[s.1], e[s.2]))
    } else {
        Seq::empty()
    }
}

/// The triangles of a list of elements, element by element, in order.
pub open spec fn triangles_of(elements: Seq<Seq<usize>>) -> Seq<Triangle>
    decreases elements.len(),
{
    if elements.len() == 0 {
        Seq::empty()
    } else {
        triangles_of(elements.drop_last()) + element_triangles(elements.last())
    }
}

/// The elements as sequences of node indices.
pub open spec fn elements_view(elements: Seq<Vec<usize>>) -> Seq<Seq<usize>> {
    elements.map_values(|e: Vec<usize>| e@)
}

/// Splits one element into triangles: eight for a ten-entry element, none otherwise.
pub fn triangulate_element(e: &Vec<usize>) -> (r: Vec<Triangle>)
    ensures
        r@ == element_triangles(e@),
{
    let mut r: Vec<Triangle> = Vec::new();
    if e.len() == FAN_ELEMENT_LEN {
        r.push((e[0], e[1], e[9]));
        r.push((e[0], e[9], e[7]));
        r.push((e[1], e[2], e[9]));
        r.push((e[2], e[3], e[9]));
        r.push((e[9], e[3], e[4]));
        r.push((e[9], e[4], e[5]));
        r.push((e[7], e[9], e[6]));
        r.push((e[9], e[5], e[6]));
        assert(r@ =~= element_triangles(e@));
    } else {
        assert(r@ =~= element_triangles(e@));
    }
    r
}

/// Splits every ten-entry element into its fan of eight triangles; elements of
/// any other length contribute nothing.
pub fn triangulate(elements: &Vec<Vec<usize>>) -> (r: Vec<Triangle>)
    ensures
        r@ == triangles_of(elements_view(elements@)),
{
    let mut r: Vec<Triangle> = Vec::new();
    let mut i: usize = 0;
    while i < elements.len()
        invariant
            i <= elements.len(),
            r@ == triangles_of(elements_view(elements@).subrange(0, i as int)),
        decreases elements.len() - i,
    {
        let mut part = triangulate_element(&elements[i]);
        let ghost prev = r@;
        r.append(&mut part);
        let ghost s = elements_view(elements@);
        assert(s.subrange(0, i + 1).drop_last() =~= s.subrange(0, i as int));
        assert(s.subrange(0, i + 1).last() == elements@[i as int]@);
        i = i + 1;
    }
    assert(elements_view(elements@).subrange(0, i as int) =~= elements_view(elements@));
    r
}

/// Number of triangles among `slots` that use element position `k` as a vertex.
pub open spec fn slot_uses(slots: Seq<(int, int, int)>, k: int) -> nat
    decreases slots.len(),
{
    if slots.len() == 0 {
        0
    } else {
        let t = slots.last();
        slot_uses(slots.drop_last(), k) + if t.0 == k || t.1 == k || t.2 == k {
            1nat
        } else {
            0nat
        }
    }
}

/// A ten-entry element yields exactly eight triangles; every one of them has the
/// centroid as a vertex, and each of the eight ring positions is a vertex of
/// exactly two of them (the region-tag position of none).
pub proof fn lemma_fan_shape(e: Seq<usize>)
    requires
        e.len() == FAN_ELEMENT_LEN,
    ensures
        element_triangles(e).len() == 8,
        forall|i: int|
            0 <= i < 8 ==> {
                let t = #[trigger] element_triangles(e)[i];
                t.0 == e[9] || t.1 == e[9] || t.2 == e[9]
            },
        forall|i: int|
            0 <= i < 8 ==> {
                let s = #[trigger] fan_slots()[i];
                &&& element_triangles(e)[i] == (e[s.0], e[s.1], e[s.2])
                &&& (s.0 == 9 || s.1 == 9 || s.2 == 9)
            },
        forall|k: int| 0 <= k < 8 ==> #[trigger] slot_uses(fan_slots(), k) == 2,
        slot_uses(fan_slots(), 8) == 0,
{
    reveal_with_fuel(slot_uses, 9);
    assert(slot_uses(fan_slots(), 0) == 2);
    assert(slot_uses(fan_slots(), 1) == 2);
    assert(slot_uses(fan_slots(), 2) == 2);
    assert(slot_uses(fan_slots(), 3) == 2);
    assert(slot_uses(fan_slots(), 4) == 2);
    assert(slot_uses(fan_slots(), 5) == 2);
    assert(slot_uses(fan_slots(), 6) == 2);
    assert(slot_uses(fan_slots(), 7) == 2);
    assert(slot_uses(fan_slots(), 8) == 0);
}

/// Triangulating a concatenation of element lists concatenates their triangles.
pub proof fn lemma_triangles_of_concat(a: Seq<Seq<usize>>, b: Seq<Seq<usize>>)
    ensures
        triangles_of(a + b) == triangles_of(a) + triangles_of(b),
    decreases b.len(),
{
    if b.len() == 0 {
        assert(a + b =~= a);
        assert(triangles_of(a) + triangles_of(b) =~= triangles_of(a));
    } else {
        lemma_triangles_of_concat(a, b.drop_last());
        assert((a + b).drop_last() =~= a + b.drop_last());
        assert((a + b).last() == b.last());
        assert(triangles_of(a + b) =~= triangles_of(a) + triangles_of(b));
    }
}

/// An element that is not of the ten-entry shape (such as a four-corner element
/// with its region tag) adds no triangle, wherever it stands in the list.
pub proof fn lemma_other_shapes_add_nothing(
    before: Seq<Seq<usize>>,
    e: Seq<usize>,
    after: Seq<Seq<usize>>,
)
    requires
        e.len() != FAN_ELEMENT_LEN,
    ensures
        triangles_of(before + seq![e] + after) == triangles_of(before + after),
{
    lemma_triangles_of_concat(before + seq![e], after);
    lemma_triangles_of_concat(before, seq![e]);
    lemma_triangles_of_concat(before, after);
    assert(seq![e].drop_last() =~= Seq::<Seq<usize>>::empty());
    assert(seq![e].last() == e);
    assert(triangles_of(Seq::<Seq<usize>>::empty()) =~= Seq::<Triangle>::empty());
    assert(triangles_of(seq![e]) =~= Seq::<Triangle>::empty());
    assert(triangles_of(before) + triangles_of(seq![e]) =~= triangles_of(before));
}

} // verus!
