use grid_plotter::mesh::{triangulate, triangulate_element};

fn ring_element() -> Vec<usize> {
    vec![10, 11, 12, 13, 14, 15, 16, 17, 3, 19]
}

#[test]
fn ten_node_element_gives_fixed_fan() {
    let tris = triangulate_element(&ring_element());
    assert_eq!(
        tris,
        vec![
            (10, 11, 19),
            (10, 19, 17),
            (11, 12, 19),
            (12, 13, 19),
            (19, 13, 14),
            (19, 14, 15),
            (17, 19, 16),
            (19, 15, 16),
        ]
    );
}

#[test]
fn fan_uses_centroid_and_covers_ring_twice() {
    let e = ring_element();
    let tris = triangulate_element(&e);
    assert_eq!(tris.len(), 8);
    for t in &tris {
        assert!(t.0 == 19 || t.1 == 19 || t.2 == 19);
    }
    for k in 0..8 {
        let node = e[k];
        let uses = tris
            .iter()
            .filter(|t| t.0 == node || t.1 == node || t.2 == node)
            .count();
        assert_eq!(uses, 2, "ring node {}", node);
    }
    let tag_uses = tris.iter().filter(|t| t.0 == 3 || t.1 == 3 || t.2 == 3).count();
    assert_eq!(tag_uses, 0);
}

#[test]
fn five_node_element_gives_no_triangles() {
    assert!(triangulate_element(&vec![0, 1, 2, 3, 1]).is_empty());
    assert!(triangulate(&vec![vec![0, 1, 2, 3, 1], vec![4, 5, 6, 7, 2]]).is_empty());
}

#[test]
fn malformed_elements_are_skipped() {
    assert!(triangulate_element(&vec![]).is_empty());
    assert!(triangulate_element(&vec![0, 1, 2, 3, 4, 5, 6, 7, 8]).is_empty());
    assert!(triangulate_element(&vec![0, 1, 2, 3, 4, 5, 6, 7, 8, 9, 10]).is_empty());
}

#[test]
fn mixed_element_list_keeps_element_order() {
    let first: Vec<usize> = (0..10).collect();
    let second: Vec<usize> = (20..30).collect();
    let elements = vec![first.clone(), vec![0, 1, 2, 3, 0], second.clone()];
    let tris = triangulate(&elements);
    assert_eq!(tris.len(), 16);
    assert_eq!(&tris[..8], &triangulate_element(&first)[..]);
    assert_eq!(&tris[8..], &triangulate_element(&second)[..]);
    assert!(triangulate(&vec![]).is_empty());
}
