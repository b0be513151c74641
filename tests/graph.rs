use resource_flow::entities::{Entities, Position};
use resource_flow::resource::Resource;

fn grid(positions: &[Position]) -> Entities {
    let mut e = Entities::new();
    for &p in positions {
        e.insert(Resource(1), Resource(0), p, true);
    }
    e
}

fn holdings(e: &Entities) -> Vec<u8> {
    (0..e.len()).map(|i| e.has(i).0).collect()
}

#[test]
fn insert_returns_dense_indices() {
    let mut e = Entities::new();
    assert_eq!(e.len(), 0);
    assert_eq!(e.insert(Resource(1), Resource(2), (0, 0), true), 0);
    assert_eq!(e.insert(Resource(3), Resource(4), (9, 9), false), 1);
    assert_eq!(e.len(), 2);
    assert_eq!(e.wants(1), Resource(3));
    assert_eq!(e.has(1), Resource(4));
    assert_eq!(e.position(1), (9, 9));
    assert!(!e.visible(1));
    assert!(e.upstream(1).is_empty());
    assert!(e.downstream(1).is_empty());
}

#[test]
fn chain_edges_follow_the_grid() {
    let e = grid(&[(1, 1), (1, 2), (2, 2), (3, 2), (3, 3)]);
    let ups: Vec<Vec<usize>> = (0..5).map(|i| e.upstream(i).clone()).collect();
    let downs: Vec<Vec<usize>> = (0..5).map(|i| e.downstream(i).clone()).collect();
    assert_eq!(ups, vec![vec![], vec![0], vec![1], vec![2], vec![3]]);
    assert_eq!(downs, vec![vec![1], vec![2], vec![3], vec![4], vec![]]);
}

#[test]
fn existing_entities_gain_later_indices() {
    // Inserted below-right first, so its edges are added to it retroactively.
    let e = grid(&[(1, 1), (0, 1), (1, 0)]);
    assert_eq!(e.upstream(0), &vec![1, 2]);
    assert!(e.downstream(0).is_empty());
    assert_eq!(e.downstream(1), &vec![0]);
    assert_eq!(e.downstream(2), &vec![0]);
    assert!(e.upstream(1).is_empty());
    assert!(e.upstream(2).is_empty());
}

#[test]
fn new_entity_edges_point_backward() {
    let positions = [(2, 2), (2, 1), (1, 2), (3, 2), (2, 3), (1, 1), (3, 3)];
    let mut e = Entities::new();
    for &p in positions.iter() {
        let idx = e.insert(Resource(1), Resource(0), p, true);
        assert!(e.upstream(idx).iter().all(|&j| j < idx));
        assert!(e.downstream(idx).iter().all(|&j| j < idx));
    }
    assert_eq!(e.upstream(0), &vec![1, 2]);
    assert_eq!(e.downstream(0), &vec![3, 4]);
}

#[test]
fn adjacency_is_symmetric() {
    let positions = [(2, 2), (0, 0), (1, 0), (2, 1), (1, 2), (0, 1), (2, 0), (1, 1), (0, 2), (5, 5)];
    let e = grid(&positions);
    let n = e.len();
    for a in 0..n {
        for b in 0..n {
            assert_eq!(e.upstream(a).contains(&b), e.downstream(b).contains(&a));
            assert_eq!(e.downstream(a).contains(&b), e.upstream(b).contains(&a));
        }
    }
    assert_eq!(e.upstream(7), &vec![2, 5]);
    assert_eq!(e.downstream(7), &vec![3, 4]);
    assert!(e.upstream(9).is_empty() && e.downstream(9).is_empty());
}

#[test]
fn no_entity_is_its_own_neighbour() {
    // Two entities on one cell are not neighbours of each other.
    let e = grid(&[(1, 1), (1, 1), (1, 2), (0, 1)]);
    for i in 0..e.len() {
        assert!(!e.upstream(i).contains(&i));
        assert!(!e.downstream(i).contains(&i));
    }
    assert_eq!(e.upstream(0), &vec![3]);
    assert_eq!(e.upstream(1), &vec![3]);
    assert_eq!(e.upstream(2), &vec![0, 1]);
}

#[test]
fn extreme_and_negative_coordinates_are_accepted() {
    let e = grid(&[
        (isize::MIN, isize::MIN),
        (isize::MAX, isize::MAX),
        (isize::MIN, isize::MIN + 1),
        (isize::MAX, isize::MIN),
        (-3, -4),
        (-3, -3),
    ]);
    assert_eq!(e.upstream(2), &vec![0]);
    assert!(e.upstream(1).is_empty() && e.downstream(1).is_empty());
    assert!(e.upstream(3).is_empty() && e.downstream(3).is_empty());
    assert_eq!(e.upstream(5), &vec![4]);
}

#[test]
fn full_transfer_moves_the_wanted_amount() {
    let mut e = Entities::new();
    e.insert(Resource(0), Resource(50), (0, 0), true);
    e.insert(Resource(7), Resource(10), (0, 1), true);
    e.update();
    assert_eq!(holdings(&e), vec![43, 17]);
}

#[test]
fn partial_transfer_empties_the_source() {
    let mut e = Entities::new();
    e.insert(Resource(0), Resource(4), (0, 0), true);
    e.insert(Resource(7), Resource(10), (0, 1), true);
    e.update();
    assert_eq!(holdings(&e), vec![0, 14]);
}

#[test]
fn saturating_sink_loses_the_excess() {
    let mut e = Entities::new();
    e.insert(Resource(0), Resource(100), (0, 0), true);
    e.insert(Resource(10), Resource(250), (0, 1), true);
    e.update();
    assert_eq!(holdings(&e), vec![90, 255]);
}

#[test]
fn full_sink_pulls_no_further() {
    let mut e = Entities::new();
    e.insert(Resource(0), Resource(100), (1, 0), true);
    e.insert(Resource(0), Resource(100), (0, 1), true);
    e.insert(Resource(10), Resource(250), (1, 1), true);
    assert_eq!(e.upstream(2), &vec![0, 1]);
    e.update();
    assert_eq!(holdings(&e), vec![90, 100, 255]);
}

#[test]
fn full_sink_at_start_pulls_nothing() {
    let mut e = Entities::new();
    e.insert(Resource(0), Resource(100), (0, 0), true);
    e.insert(Resource(10), Resource(255), (0, 1), true);
    e.update();
    assert_eq!(holdings(&e), vec![100, 255]);
}

#[test]
fn flow_travels_along_increasing_indices_in_one_tick() {
    let mut forward = grid(&[(0, 0), (0, 1), (0, 2)]);
    let mut e = Entities::new();
    e.insert(Resource(0), Resource(10), (0, 0), true);
    e.insert(Resource(3), Resource(0), (0, 1), true);
    e.insert(Resource(3), Resource(0), (0, 2), true);
    e.update();
    assert_eq!(holdings(&e), vec![7, 0, 3]);

    // The same chain with the indices reversed moves one hop only.
    let mut r = Entities::new();
    r.insert(Resource(3), Resource(0), (0, 2), true);
    r.insert(Resource(3), Resource(0), (0, 1), true);
    r.insert(Resource(0), Resource(10), (0, 0), true);
    r.update();
    assert_eq!(holdings(&r), vec![0, 3, 7]);

    forward.update();
    assert_eq!(holdings(&forward), vec![0, 0, 0]);
}

#[test]
fn two_ticks_differ_from_one_tick_at_double_rate() {
    let mut twice = Entities::new();
    twice.insert(Resource(0), Resource(100), (0, 0), true);
    twice.insert(Resource(10), Resource(250), (0, 1), true);
    twice.update();
    twice.update();

    let mut doubled = Entities::new();
    doubled.insert(Resource(0), Resource(100), (0, 0), true);
    doubled.insert(Resource(20), Resource(250), (0, 1), true);
    doubled.update();

    assert_eq!(holdings(&twice), vec![90, 255]);
    assert_eq!(holdings(&doubled), vec![80, 255]);
    assert_ne!(holdings(&twice), holdings(&doubled));
}

#[test]
fn update_leaves_everything_but_holdings() {
    let mut e = grid(&[(0, 0), (0, 1)]);
    e.update();
    assert_eq!(e.wants(1), Resource(1));
    assert_eq!(e.position(1), (0, 1));
    assert_eq!(e.upstream(1), &vec![0]);
    assert_eq!(e.downstream(0), &vec![1]);
}

#[test]
fn display_lists_visible_entities_with_bands() {
    let mut e = Entities::new();
    let amounts = [0u8, 63, 64, 127, 128, 191, 192, 255];
    for (k, &a) in amounts.iter().enumerate() {
        e.insert(Resource(1), Resource(a), (10 * k as isize, 0), true);
    }
    e.insert(Resource(1), Resource(0), (-1, -1), false);
    let out = e.display();
    assert_eq!(out.len(), 8);
    let bands: Vec<u8> = out.iter().map(|g| g.band).collect();
    assert_eq!(bands, vec![0, 0, 1, 1, 2, 2, 3, 3]);
    let indices: Vec<usize> = out.iter().map(|g| g.index).collect();
    assert_eq!(indices, vec![0, 1, 2, 3, 4, 5, 6, 7]);
    assert_eq!(out[3].position, (30, 0));
}

#[test]
fn display_of_empty_arena_is_empty() {
    let e = Entities::new();
    assert!(e.display().is_empty());
}
