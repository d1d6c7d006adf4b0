use csg_kernel::loops::{distill_loops, loop_segments, DistillError};
use csg_kernel::slice::pair_consecutive;
use csg_kernel::table::index_points;
use csg_kernel::tern::Tern;
use csg_kernel::triangles::{are_joined, fan_triangles};
use csg_kernel::winding::{nesting_depths, orient_loops, reversed, NestingError};

fn undirected(mut v: Vec<(usize, usize)>) -> Vec<(usize, usize)> {
    for e in v.iter_mut() {
        if e.0 > e.1 {
            *e = (e.1, e.0);
        }
    }
    v.sort();
    v
}

#[test]
fn square_edges_distill_to_one_loop() {
    let edges = vec![(0, 1), (2, 3), (1, 2), (0, 3)];
    let loops = distill_loops(edges.clone()).unwrap();
    assert_eq!(loops.len(), 1);
    assert_eq!(loops[0].len(), 4);
    assert_eq!(undirected(loop_segments(&loops)), undirected(edges));
}

#[test]
fn two_separate_loops() {
    let edges = vec![(0, 1), (1, 2), (2, 0), (3, 4), (4, 5), (5, 6), (6, 3)];
    let loops = distill_loops(edges.clone()).unwrap();
    assert_eq!(loops.len(), 2);
    let mut sizes: Vec<usize> = loops.iter().map(|l| l.len()).collect();
    sizes.sort();
    assert_eq!(sizes, vec![3, 4]);
    assert_eq!(undirected(loop_segments(&loops)), undirected(edges));
}

#[test]
fn open_chain_is_an_error() {
    assert_eq!(distill_loops(vec![(0, 1), (1, 2)]), Err(DistillError::OpenChain));
    assert_eq!(distill_loops(vec![(0, 1), (1, 2), (2, 0), (2, 3)]), Err(DistillError::OpenChain));
}

#[test]
fn no_edges_no_loops() {
    assert_eq!(distill_loops(vec![]), Ok(vec![]));
}

#[test]
fn segments_of_loops_distill_again() {
    let loops = vec![vec![0, 1, 2, 3], vec![4, 5, 6]];
    let segments = loop_segments(&loops);
    assert_eq!(segments, vec![(0, 1), (1, 2), (2, 3), (3, 0), (4, 5), (5, 6), (6, 4)]);
    let again = distill_loops(segments.clone()).unwrap();
    assert_eq!(undirected(loop_segments(&again)), undirected(segments));
}

#[test]
fn point_table_merges_coincident_endpoints() {
    // a triangle given as three edges: endpoints 0..6, where
    // 1~2 (B), 3~4 (C) and 5~0 (A) coincide
    let n = 6;
    let mut same = vec![vec![false; n]; n];
    for (i, j) in [(1, 2), (3, 4), (5, 0)] {
        same[i][j] = true;
        same[j][i] = true;
    }
    for i in 0..n {
        same[i][i] = true;
    }
    let (edges, table) = index_points(&same);
    assert_eq!(table, vec![0, 1, 3]);
    assert_eq!(edges, vec![(0, 1), (1, 2), (2, 0)]);
    let loops = distill_loops(edges).unwrap();
    assert_eq!(loops.len(), 1);
    assert_eq!(loops[0].len(), 3);
}

#[test]
fn point_table_without_coincidences() {
    let same = vec![vec![false; 4]; 4];
    let (edges, table) = index_points(&same);
    assert_eq!(table, vec![0, 1, 2, 3]);
    assert_eq!(edges, vec![(0, 1), (2, 3)]);
}

#[test]
fn hole_is_one_level_deep() {
    // loop 0 is the outer boundary, loop 1 a hole inside it
    let inside = vec![vec![Tern::No, Tern::Yes], vec![Tern::No, Tern::No]];
    assert_eq!(nesting_depths(&inside), Ok(vec![0, 1]));
}

#[test]
fn touching_loops_are_an_error() {
    let inside = vec![vec![Tern::No, Tern::Maybe], vec![Tern::No, Tern::No]];
    assert_eq!(nesting_depths(&inside), Err(NestingError::Touching(1)));
}

#[test]
fn loops_follow_nesting_parity() {
    let loops = vec![vec![1, 2, 3], vec![4, 5, 6], vec![7, 8, 9]];
    // outer clockwise, hole clockwise, outer counter-clockwise
    let r = orient_loops(loops, &vec![false, false, true], &vec![0, 1, 2]);
    assert_eq!(r, vec![vec![3, 2, 1], vec![4, 5, 6], vec![7, 8, 9]]);
    assert_eq!(reversed(&vec![1, 2, 3, 4]), vec![4, 3, 2, 1]);
}

#[test]
fn square_face_gives_two_triangles() {
    let edges = vec![(0, 1), (1, 2), (2, 3), (3, 0), (0, 2)];
    let tris = fan_triangles(4, edges);
    assert_eq!(tris, vec![(0, 1, 2), (0, 2, 3)]);
}

#[test]
fn box_faces_give_twelve_triangles() {
    let mut count = 0;
    for _ in 0..6 {
        count += fan_triangles(4, vec![(0, 1), (1, 2), (2, 3), (3, 0), (1, 3)]).len();
    }
    assert_eq!(count, 12);
}

#[test]
fn joined_either_direction() {
    let edges = vec![(0, 1), (2, 1)];
    assert!(are_joined(&edges, 1, 2));
    assert!(are_joined(&edges, 1, 0));
    assert!(!are_joined(&edges, 0, 2));
}

#[test]
fn crossings_pair_in_order() {
    assert_eq!(pair_consecutive(&vec![1, 2, 3, 4, 5]), vec![(1, 2), (3, 4)]);
    assert!(pair_consecutive::<u8>(&vec![]).is_empty());
}

#[test]
fn each_triangle_emitted_once() {
    // a fan of four triangles around point 0 over a pentagon 0..5 with chords
    let edges = vec![(0, 1), (1, 2), (2, 3), (3, 4), (4, 5), (5, 0), (0, 2), (0, 3), (0, 4)];
    let tris = fan_triangles(6, edges);
    assert_eq!(tris.len(), 4);
    for (k, t) in tris.iter().enumerate() {
        assert!(!tris[k + 1..].contains(t));
    }
}
