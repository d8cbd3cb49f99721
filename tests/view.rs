use feather_view::view::{ChunkPosition, EntityDimension, EntityWorld, View};
use std::collections::HashSet;

const W: EntityWorld = EntityWorld(7);
const OVERWORLD: EntityDimension = EntityDimension(0);
const NETHER: EntityDimension = EntityDimension(1);

fn set_of(v: &[ChunkPosition]) -> HashSet<(i32, i32)> {
    v.iter().map(|c| (c.x, c.z)).collect()
}

#[test]
fn walk_has_padded_square_of_distinct_chunks() {
    for r in 1..5u32 {
        let view = View::new(ChunkPosition::new(3, -2), r, W, OVERWORLD);
        let chunks = view.iter();
        let side = (2 * r + 3) as usize;
        assert_eq!(chunks.len(), side * side);
        assert_eq!(set_of(&chunks).len(), side * side);
        assert!(chunks.iter().all(|c| view.contains(*c)));
    }
}

#[test]
fn walk_is_row_major_with_x_outer() {
    let view = View::new(ChunkPosition::new(0, 0), 1, W, OVERWORLD);
    let chunks = view.iter();
    assert_eq!(chunks[0], ChunkPosition::new(-2, -2));
    assert_eq!(chunks[1], ChunkPosition::new(-2, -1));
    assert_eq!(chunks[4], ChunkPosition::new(-2, 2));
    assert_eq!(chunks[5], ChunkPosition::new(-1, -2));
    assert_eq!(chunks[24], ChunkPosition::new(2, 2));
}

#[test]
fn empty_view_is_empty_and_others_are_not() {
    let empty = View::empty(W, NETHER);
    assert!(empty.is_empty());
    assert!(empty.iter().is_empty());
    assert_eq!(empty.center(), ChunkPosition::new(0, 0));
    assert_eq!(empty.view_distance(), 0);
    assert_eq!(empty.world(), W);
    assert_eq!(*empty.dimension(), NETHER);
    for r in 1..4u32 {
        assert!(!View::new(ChunkPosition::new(-9, 4), r, W, OVERWORLD).is_empty());
    }
}

#[test]
fn contains_is_the_padded_box() {
    let view = View::new(ChunkPosition::new(10, -5), 2, W, OVERWORLD);
    assert_eq!(view.min_x(), 7);
    assert_eq!(view.max_x(), 13);
    assert_eq!(view.min_z(), -8);
    assert_eq!(view.max_z(), -2);
    assert!(view.contains(ChunkPosition::new(7, -8)));
    assert!(view.contains(ChunkPosition::new(13, -2)));
    assert!(view.contains(ChunkPosition::new(10, -5)));
    assert!(!view.contains(ChunkPosition::new(6, -5)));
    assert!(!view.contains(ChunkPosition::new(14, -5)));
    assert!(!view.contains(ChunkPosition::new(10, -9)));
    assert!(!view.contains(ChunkPosition::new(10, -1)));
}

#[test]
fn radius_zero_box_is_three_by_three() {
    let view = View::new(ChunkPosition::new(0, 0), 0, W, OVERWORLD);
    assert_eq!((view.min_x(), view.max_x()), (-1, 1));
    assert_eq!((view.min_z(), view.max_z()), (-1, 1));
    let cells = (view.max_x() - view.min_x() + 1) * (view.max_z() - view.min_z() + 1);
    assert_eq!(cells, 9);
    assert!(view.contains(ChunkPosition::new(0, 0)));
    assert!(view.contains(ChunkPosition::new(1, 1)));
    assert!(view.contains(ChunkPosition::new(-1, -1)));
    // A view of distance zero is the empty view: its walk yields nothing.
    assert!(view.is_empty());
    assert!(view.iter().is_empty());
}

#[test]
fn difference_with_itself_is_empty() {
    let view = View::new(ChunkPosition::new(4, 4), 3, W, OVERWORLD);
    assert!(view.difference(&view).is_empty());
}

#[test]
fn difference_is_a_set_complement() {
    let a = View::new(ChunkPosition::new(0, 0), 2, W, OVERWORLD);
    let b = View::new(ChunkPosition::new(3, -1), 1, W, OVERWORLD);
    let sa = set_of(&a.iter());
    let sb = set_of(&b.iter());
    let ab = a.difference(&b);
    let ba = b.difference(&a);
    assert_eq!(set_of(&ab).len(), ab.len());
    let mut all: HashSet<(i32, i32)> = set_of(&ab);
    all.extend(set_of(&ba));
    all.extend(sa.intersection(&sb).copied());
    let union: HashSet<(i32, i32)> = sa.union(&sb).copied().collect();
    assert_eq!(all, union);
    assert!(set_of(&ab).is_disjoint(&sb));
    assert_eq!(set_of(&ab), sa.difference(&sb).copied().collect());
}

#[test]
fn difference_across_dimensions_is_everything() {
    let old = View::new(ChunkPosition::new(2, 2), 2, W, OVERWORLD);
    let new = View::new(ChunkPosition::new(2, 2), 2, W, NETHER);
    assert_eq!(new.difference(&old), new.iter());
    let other_world = View::new(ChunkPosition::new(2, 2), 2, EntityWorld(8), OVERWORLD);
    assert_eq!(other_world.difference(&old), other_world.iter());
}

#[test]
fn difference_against_empty_view_is_whole_view() {
    let view = View::new(ChunkPosition::new(-3, 1), 3, W, OVERWORLD);
    let empty = View::empty(W, OVERWORLD);
    assert_eq!(set_of(&view.difference(&empty)), set_of(&view.iter()));
    assert_eq!(view.difference(&empty).len(), 81);
    assert!(empty.difference(&view).is_empty());
}

#[test]
fn setters_change_one_field() {
    let mut view = View::new(ChunkPosition::new(1, 1), 2, W, OVERWORLD);
    view.set_center(ChunkPosition::new(5, -6));
    assert_eq!(view.center(), ChunkPosition::new(5, -6));
    assert_eq!(view.view_distance(), 2);
    view.set_view_distance(4);
    assert_eq!(view.view_distance(), 4);
    assert_eq!(view.center(), ChunkPosition::new(5, -6));
    assert_eq!(view.min_x(), 0);
}
