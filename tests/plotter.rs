use grid_plotter::contour::{extract_isoline, Threshold};
use grid_plotter::mesh::triangulate;
use grid_plotter::plotter::{GridPlotter, DEFAULT_ISOLINES_COUNT};

fn square_mesh() -> GridPlotter {
    // a 2x2 square with mid-side nodes and centroid 8
    let points = vec![
        (0, 2),
        (1, 2),
        (2, 2),
        (2, 1),
        (2, 0),
        (1, 0),
        (0, 0),
        (0, 1),
        (1, 1),
    ];
    let elements = vec![vec![0, 1, 2, 3, 4, 5, 6, 7, 0, 8]];
    let solution = vec![0, 1, 2, 3, 4, 5, 6, 7, 4];
    GridPlotter::new(points, elements, vec![0, 6], vec![vec![6, 4]], solution)
}

#[test]
fn new_triangulates_and_keeps_inputs() {
    let g = square_mesh();
    assert_eq!(g.triangles, triangulate(&g.elements));
    assert_eq!(g.triangles.len(), 8);
    assert_eq!(g.isolines_count, DEFAULT_ISOLINES_COUNT);
    assert_eq!(g.isolines_count, 10);
    assert_eq!(g.dirichlet, vec![0, 6]);
    assert_eq!(g.neumann, vec![vec![6, 4]]);
    assert_eq!(g.points.len(), 9);
}

#[test]
fn isolines_follow_count() {
    let mut g = square_mesh();
    assert!(g.can_contour());
    let lines = g.isolines();
    assert_eq!(lines.len(), 11);
    g.set_isolines_count(7);
    assert_eq!(g.isolines_count, 7);
    let lines = g.isolines();
    assert_eq!(lines.len(), 8);
    assert_eq!(lines[1], extract_isoline(&g.triangles, &g.solution, Threshold { num: 7, den: 7 }));
    g.set_isolines_count(0);
    let lines = g.isolines();
    assert_eq!(lines.len(), 1);
    assert!(lines[0].is_empty());
}

#[test]
fn contouring_needs_samples_for_every_node() {
    let mut g = square_mesh();
    g.solution.pop();
    assert!(!g.can_contour());
    let empty = GridPlotter::new(vec![], vec![], vec![], vec![], vec![]);
    assert!(!empty.can_contour());
}

#[test]
fn heat_colors_per_triangle() {
    let g = square_mesh();
    let colors = g.heat_colors();
    assert_eq!(colors.len(), 8);
    // first triangle (0, 1, 8): values 0, 1, 4, mean 5/3 on [0, 7]
    assert_eq!(colors[0], ((255 * 5 / 21) as u8, 0, (255 * 16 / 21) as u8));
}

#[test]
fn default_is_an_empty_mesh() {
    let g = GridPlotter::default();
    assert!(g.points.is_empty());
    assert!(g.elements.is_empty());
    assert!(g.triangles.is_empty());
    assert!(g.solution.is_empty());
    assert_eq!(g.isolines_count, 10);
    assert!(!g.can_contour());
}
