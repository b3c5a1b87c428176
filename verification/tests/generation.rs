use bsp_dungeon::bsp::{build_tree, Leaf, Room, MAX_LEAF_SIZE};
use bsp_dungeon::dungeon::{gen_dungeon, gen_dungeon_internal, Dungeon};
use bsp_dungeon::rng::RandomSource;

const GLYPHS: [char; 12] = [
    '.', '#', '─', '│', '┌', '┐', '└', '┘', '├', '┤', '┬', '┴',
];

// Checks the structural invariants of a room-resolved tree and returns the
// number of terminal nodes seen.
fn check_tree(node: &Leaf) -> usize {
    assert_eq!(node.left_child.is_some(), node.right_child.is_some());
    match (&node.left_child, &node.right_child) {
        (Some(l), Some(r)) => {
            // children partition the parent exactly, along one axis
            let horizontal = l.x == node.x
                && l.y == node.y
                && l.width == node.width
                && r.width == node.width
                && r.x == node.x
                && r.y == node.y + l.height
                && l.height + r.height == node.height;
            let vertical = l.x == node.x
                && l.y == node.y
                && l.height == node.height
                && r.height == node.height
                && r.y == node.y
                && r.x == node.x + l.width
                && l.width + r.width == node.width;
            assert!(horizontal || vertical, "children do not partition the parent");

            // every pair of connected children has corridors at the ancestor
            assert_eq!(node.halls.len(), 2);
            for hall in &node.halls {
                assert!(hall.w >= 1 && hall.h >= 1);
                assert!(hall.w == 1 || hall.h == 1, "corridor segment is not straight");
                assert!(hall.x >= node.x && hall.y >= node.y);
                assert!(hall.x + hall.w <= node.x + node.width);
                assert!(hall.y + hall.h <= node.y + node.height);
            }
            // the two segments of the L-shaped path share the bend cell
            let (h1, h2) = (&node.halls[0], &node.halls[1]);
            assert!(
                h1.x.max(h2.x) < (h1.x + h1.w).min(h2.x + h2.w)
                    && h1.y.max(h2.y) < (h1.y + h1.h).min(h2.y + h2.h),
                "corridor segments do not meet"
            );

            assert!(node.room.is_none());
            check_tree(l) + check_tree(r)
        }
        _ => {
            // every terminal node has exactly one room inside its rectangle
            let room = node.room.as_ref().expect("terminal node without a room");
            assert!(room.w >= 1 && room.h >= 1);
            assert!(room.x >= node.x && room.y >= node.y);
            assert!(room.x + room.w <= node.x + node.width);
            assert!(room.y + room.h <= node.y + node.height);
            assert!(node.halls.is_empty());
            1
        }
    }
}

fn trees_equal(a: &Leaf, b: &Leaf) -> bool {
    if (a.x, a.y, a.width, a.height) != (b.x, b.y, b.width, b.height) {
        return false;
    }
    let rooms_equal = match (&a.room, &b.room) {
        (None, None) => true,
        (Some(ra), Some(rb)) => (ra.x, ra.y, ra.w, ra.h) == (rb.x, rb.y, rb.w, rb.h),
        _ => false,
    };
    if !rooms_equal {
        return false;
    }
    if a.halls.len() != b.halls.len() {
        return false;
    }
    for (ha, hb) in a.halls.iter().zip(b.halls.iter()) {
        if (ha.x, ha.y, ha.w, ha.h) != (hb.x, hb.y, hb.w, hb.h) {
            return false;
        }
    }
    match (&a.left_child, &b.left_child, &a.right_child, &b.right_child) {
        (None, None, None, None) => true,
        (Some(la), Some(lb), Some(ra), Some(rb)) => trees_equal(la, lb) && trees_equal(ra, rb),
        _ => false,
    }
}

#[test]
fn deterministic_under_fixed_seed() {
    let mut rng_a = RandomSource::from_seed(7);
    let mut rng_b = RandomSource::from_seed(7);

    let mut tree_a = build_tree(96, 96, &mut rng_a);
    tree_a.create_rooms(&mut rng_a);
    let mut tree_b = build_tree(96, 96, &mut rng_b);
    tree_b.create_rooms(&mut rng_b);
    assert!(trees_equal(&tree_a, &tree_b));

    let mut rng_c = RandomSource::from_seed(7);
    let mut rng_d = RandomSource::from_seed(7);
    let grid_c = gen_dungeon(96, 96, &mut rng_c);
    let grid_d = gen_dungeon(96, 96, &mut rng_d);
    assert_eq!(grid_c, grid_d);

    let mut rng_e = RandomSource::from_seed(8);
    let grid_e = gen_dungeon(96, 96, &mut rng_e);
    assert_ne!(grid_c, grid_e, "different seeds gave the same dungeon");
}

#[test]
fn minimum_size_root_never_splits() {
    let mut rng = RandomSource::from_seed(3);
    let mut leaf = Leaf::new(0, 0, 16, 16);
    for _ in 0..32 {
        assert!(!leaf.split(&mut rng));
    }
    assert!(leaf.left_child.is_none() && leaf.right_child.is_none());

    let mut tree = build_tree(16, 16, &mut rng);
    assert!(tree.left_child.is_none() && tree.right_child.is_none());
    tree.create_rooms(&mut rng);
    assert_eq!(check_tree(&tree), 1);
}

#[test]
fn scenario_sixty_four() {
    let mut rng = RandomSource::from_seed(11);
    let grid = gen_dungeon(64, 64, &mut rng);
    assert_eq!(grid.len(), 64);
    for row in &grid {
        assert_eq!(row.len(), 64);
        for &c in row {
            assert!(GLYPHS.contains(&c), "cell {:?} outside the glyph set", c);
        }
    }
    let floors = grid.iter().flatten().filter(|&&c| c == '.').count();
    assert!(floors > 0, "no floor cell in the generated grid");
}

#[test]
fn scenario_two_fifty_six() {
    let mut rng = RandomSource::from_seed(23);
    let mut tree = build_tree(256, 256, &mut rng);
    tree.create_rooms(&mut rng);
    let rooms = check_tree(&tree);
    // every terminal is at most the maximum leaf size, so the room count
    // grows at least with the area divided by the maximum leaf area
    assert!(rooms >= (256 * 256) / ((MAX_LEAF_SIZE as usize) * (MAX_LEAF_SIZE as usize)));

    let grid = gen_dungeon_internal(256, 256, &mut rng);
    assert_eq!(grid.len(), 256);
    for row in &grid {
        assert_eq!(row.len(), 256);
        for &c in row {
            assert!(c == '#' || c == '.');
        }
    }
}

#[test]
fn dungeon_resource_generates_at_default_size() {
    let mut rng = RandomSource::from_seed(5);
    let mut dungeon = Dungeon::new();
    assert_eq!(dungeon.width, 128);
    assert_eq!(dungeon.height, 128);
    assert!(dungeon.base_map.is_empty());
    dungeon.generate(&mut rng);
    assert_eq!(dungeon.base_map.len(), 128);
    for row in &dungeon.base_map {
        assert_eq!(row.len(), 128);
        for &c in row {
            assert!(GLYPHS.contains(&c));
        }
    }
}

// Collect every room and corridor rectangle of the tree.
fn collect_rects(node: &Leaf, rects: &mut Vec<(u32, u32, u32, u32)>) {
    if let Some(room) = &node.room {
        rects.push((room.x, room.y, room.w, room.h));
    }
    for hall in &node.halls {
        rects.push((hall.x, hall.y, hall.w, hall.h));
    }
    if let Some(l) = &node.left_child {
        collect_rects(l, rects);
    }
    if let Some(r) = &node.right_child {
        collect_rects(r, rects);
    }
}

#[test]
fn rasterizer_paints_exactly_the_rooms_and_corridors() {
    let mut rng = RandomSource::from_seed(17);
    let mut tree = build_tree(128, 128, &mut rng);
    tree.create_rooms(&mut rng);
    let grid = bsp_dungeon::raster::draw_map(&tree, 128, 128);

    let mut expected = vec![vec!['#'; 128]; 128];
    let mut rects = Vec::new();
    collect_rects(&tree, &mut rects);
    for (x, y, w, h) in rects {
        for yy in y..y + h {
            for xx in x..x + w {
                expected[yy as usize][xx as usize] = '.';
            }
        }
    }
    assert_eq!(grid, expected);
}

#[test]
fn degenerate_small_grid_is_one_room() {
    // too small for the minimum room size: the single room spans everything
    let mut rng = RandomSource::from_seed(2);
    let grid = gen_dungeon_internal(3, 3, &mut rng);
    assert_eq!(grid, vec![vec!['.'; 3]; 3]);
}

fn covers(r: &Room, x: u32, y: u32) -> bool {
    r.x <= x && x < r.x + r.w && r.y <= y && y < r.y + r.h
}

#[test]
fn corridors_join_the_room_centers() {
    // a vertical-cut parent whose right room's center lies above the left
    // one: the corridor must still run toward it, not away from it
    for seed in 0..8 {
        let mut parent = Leaf {
            x: 0,
            y: 0,
            width: 64,
            height: 32,
            left_child: Some(Box::new(Leaf {
                x: 0,
                y: 0,
                width: 32,
                height: 32,
                left_child: None,
                right_child: None,
                room: Some(Room { x: 2, y: 16, w: 14, h: 14 }),
                halls: Vec::new(),
            })),
            right_child: Some(Box::new(Leaf {
                x: 32,
                y: 0,
                width: 32,
                height: 32,
                left_child: None,
                right_child: None,
                room: Some(Room { x: 33, y: 1, w: 14, h: 14 }),
                halls: Vec::new(),
            })),
            room: None,
            halls: Vec::new(),
        };
        let mut rng = RandomSource::from_seed(seed);
        parent.create_halls(&mut rng);

        // centers of the two rooms
        let (lcx, lcy) = (2 + 7, 16 + 7);
        let (rcx, rcy) = (33 + 7, 1 + 7);
        assert_eq!(parent.halls.len(), 2);
        let (h1, h2) = (&parent.halls[0], &parent.halls[1]);
        assert!(covers(h1, lcx, lcy), "first segment misses the left center");
        assert!(covers(h2, rcx, rcy), "second segment misses the right center");
        let meet_x = h1.x.max(h2.x) < (h1.x + h1.w).min(h2.x + h2.w);
        let meet_y = h1.y.max(h2.y) < (h1.y + h1.h).min(h2.y + h2.h);
        assert!(meet_x && meet_y, "segments do not share the bend cell");
    }
}

#[test]
fn oversized_nodes_always_split() {
    let mut rng = RandomSource::from_seed(29);
    for _ in 0..16 {
        let mut leaf = Leaf::new(0, 0, 200, 40);
        assert!(leaf.split(&mut rng));
        let l = leaf.left_child.as_ref().unwrap();
        let r = leaf.right_child.as_ref().unwrap();
        // forced vertical cut: widths at least the minimum leaf size
        assert_eq!(l.height, 40);
        assert_eq!(r.height, 40);
        assert!(l.width >= 16 && r.width >= 16);
        assert_eq!(l.width + r.width, 200);
    }
}
