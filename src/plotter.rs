use vstd::prelude::*;

use crate::contour::{
    isoline_spec, segments_placed, triangle_in_range, triangles_in_range, Segment,
};
use crate::heat::{heat_color, heat_fraction, heat_rgb, triangle_sum};
use crate::levels::{
    contour_isolines, field_max, field_min, level_spec, seq_max, seq_min,
};
use crate::mesh::{elements_view, triangles_of, triangulate, Triangle};

verus! {

/// Number of isolines drawn unless another count is chosen.
pub const DEFAULT_ISOLINES_COUNT: u16 = 10;

/// A finite-element mesh with its boundary markers and a scalar solution field: node
/// coordinates in grid units, elements, the triangles derived from them, Dirichlet
/// nodes, Neumann edges, one solution sample per node, and the isoline count.
pub struct GridPlotter {
    pub points: Vec<(i32, i32)>,
    pub elements: Vec<Vec<usize>>,
    pub triangles: Vec<Triangle>,
    pub dirichlet: Vec<usize>,
    pub neumann: Vec<Vec<usize>>,
    pub solution: Vec<i64>,
    pub isolines_count: u16,
}

impl GridPlotter {
    /// The triangle list is the triangulation of the element list.
    pub open spec fn wf(&self) -> bool {
        self.triangles@ == triangles_of(elements_view(self.elements@))
    }

    /// The solution can be contoured: it is not empty and every triangle names nodes
    /// that it has a sample for.
    pub open spec fn contourable(&self) -> bool {
        &&& self.solution@.len() > 0
        &&& triangles_in_range(self.triangles@, self.solution@.len() as int)
    }

    /// Stores the mesh and its solution, triangulates the elements, and sets the
    /// isoline count to its default.
    pub fn new(
        points: Vec<(i32, i32)>,
        elements: Vec<Vec<usize>>,
        dirichlet: Vec<usize>,
        neumann: Vec<Vec<usize>>,
        solution: Vec<i64>,
    ) -> (r: GridPlotter)
        ensures
            r.wf(),
            r.points@ == points@,
            r.elements@ == elements@,
            r.dirichlet@ == dirichlet@,
            r.neumann@ == neumann@,
            r.solution@ == solution@,
            r.isolines_count == DEFAULT_ISOLINES_COUNT,
    {
        let triangles = triangulate(&elements);
        GridPlotter {
            points,
            elements,
            triangles,
            dirichlet,
            neumann,
            solution,
            isolines_count: DEFAULT_ISOLINES_COUNT,
        }
    }

    /// Chooses how many isolines are drawn.
    pub fn set_isolines_count(&mut self, count: u16)
        ensures
            final(self).isolines_count == count,
            final(self).points@ == old(self).points@,
            final(self).elements@ == old(self).elements@,
            final(self).triangles@ == old(self).triangles@,
            final(self).dirichlet@ == old(self).dirichlet@,
            final(self).neumann@ == old(self).neumann@,
            final(self).solution@ == old(self).solution@,
    {
        self.isolines_count = count;
    }

    /// Whether the solution can be contoured (see `contourable`).
    pub fn can_contour(&self) -> (r: bool)
        ensures
            r == self.contourable(),
    {
        if self.solution.len() == 0 {
            return false;
        }
        let n = self.solution.len();
        let mut i: usize = 0;
        while i < self.triangles.len()
            invariant
                i <= self.triangles@.len(),
                n == self.solution@.len(),
                forall|j: int|
                    0 <= j < i ==> triangle_in_range(#[trigger] self.triangles@[j], n as int),
            decreases self.triangles.len() - i,
        {
            let t = self.triangles[i];
            if t.0 >= n || t.1 >= n || t.2 >= n {
                assert(!triangle_in_range(self.triangles@[i as int], n as int));
                return false;
            }
            i = i + 1;
        }
        true
    }

    /// The isolines of the solution: `isolines_count + 1` evenly spaced levels from
    /// the solution's minimum to its maximum (the minimum alone for a count of zero),
    /// each with its segments.
    pub fn isolines(&self) -> (r: Vec<Vec<Segment>>)
        requires
            self.contourable(),
        ensures
            r@.len() == self.isolines_count + 1,
            forall|i: int|
                0 <= i < r@.len() ==> (#[trigger] r@[i])@ == isoline_spec(
                    self.triangles@,
                    self.solution@,
                    level_spec(
                        seq_min(self.solution@),
                        seq_max(self.solution@),
                        self.isolines_count,
                        i,
                    ),
                ),
            forall|i: int|
                0 <= i < r@.len() ==> segments_placed(#[trigger] r@[i]@, self.triangles@),
    {
        contour_isolines(&self.triangles, &self.solution, self.isolines_count)
    }

    /// The heat colour of every triangle, in triangle order, on the scale from the
    /// solution's minimum to its maximum.
    pub fn heat_colors(&self) -> (r: Vec<(u8, u8, u8)>)
        requires
            self.contourable(),
        ensures
            r@.len() == self.triangles@.len(),
            forall|i: int|
                0 <= i < r@.len() ==> #[trigger] r@[i] == heat_rgb(
                    heat_fraction(
                        triangle_sum(self.solution@, self.triangles@[i]),
                        seq_min(self.solution@) as int,
                        seq_max(self.solution@) as int,
                    ),
                ),
    {
        let lo = field_min(&self.solution);
        let hi = field_max(&self.solution);
        let mut r: Vec<(u8, u8, u8)> = Vec::new();
        let mut i: usize = 0;
        while i < self.triangles.len()
            invariant
                i <= self.triangles@.len(),
                self.contourable(),
                lo == seq_min(self.solution@),
                hi == seq_max(self.solution@),
                r@.len() == i,
                forall|j: int|
                    0 <= j < i ==> #[trigger] r@[j] == heat_rgb(
                        heat_fraction(
                            triangle_sum(self.solution@, self.triangles@[j]),
                            lo as int,
                            hi as int,
                        ),
                    ),
            decreases self.triangles.len() - i,
        {
            assert(triangle_in_range(self.triangles@[i as int], self.solution@.len() as int));
            let c = heat_color(&self.solution, self.triangles[i], lo, hi);
            r.push(c);
            i = i + 1;
        }
        r
    }
}

impl Default for GridPlotter {
    /// An empty mesh with no solution, and the default isoline count.
    fn default() -> (r: GridPlotter)
        ensures
            r.wf(),
            r.points@.len() == 0,
            r.elements@.len() == 0,
            r.triangles@.len() == 0,
            r.dirichlet@.len() == 0,
            r.neumann@.len() == 0,
            r.solution@.len() == 0,
            r.isolines_count == DEFAULT_ISOLINES_COUNT,
    {
        let r = GridPlotter {
            points: Vec::new(),
            elements: Vec::new(),
            triangles: Vec::new(),
            dirichlet: Vec::new(),
            neumann: Vec::new(),
            solution: Vec::new(),
            isolines_count: DEFAULT_ISOLINES_COUNT,
        };
        assert(elements_view(r.elements@) =~= Seq::<Seq<usize>>::empty());
        r
    }
}

} // verus!
