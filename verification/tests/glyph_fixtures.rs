use bsp_dungeon::glyph::format_map;

// A 3x3 grid, wall everywhere, whose four cells around the center are wall
// or floor as given (true = wall).
fn grid3(l: bool, r: bool, u: bool, d: bool) -> Vec<Vec<char>> {
    let mut g = vec![vec!['#'; 3]; 3];
    if !l {
        g[1][0] = '.';
    }
    if !r {
        g[1][2] = '.';
    }
    if !u {
        g[0][1] = '.';
    }
    if !d {
        g[2][1] = '.';
    }
    g
}

fn center_glyph(l: bool, r: bool, u: bool, d: bool) -> char {
    format_map(&grid3(l, r, u, d), 3, 3)[1][1]
}

#[test]
fn interior_wall_on_all_sides() {
    assert_eq!(center_glyph(true, true, true, true), '#');
}

#[test]
fn interior_wall_left_right_up() {
    assert_eq!(center_glyph(true, true, true, false), '┴');
}

#[test]
fn interior_wall_left_right_down() {
    assert_eq!(center_glyph(true, true, false, true), '┬');
}

#[test]
fn interior_wall_left_right() {
    assert_eq!(center_glyph(true, true, false, false), '│');
}

#[test]
fn interior_wall_left_up_down() {
    assert_eq!(center_glyph(true, false, true, true), '┤');
}

#[test]
fn interior_wall_left_up() {
    assert_eq!(center_glyph(true, false, true, false), '┘');
}

#[test]
fn interior_wall_left_down() {
    assert_eq!(center_glyph(true, false, false, true), '┐');
}

#[test]
fn interior_wall_left_only() {
    assert_eq!(center_glyph(true, false, false, false), '└');
}

#[test]
fn interior_wall_right_up_down() {
    assert_eq!(center_glyph(false, true, true, true), '├');
}

#[test]
fn interior_wall_right_up() {
    assert_eq!(center_glyph(false, true, true, false), '┌');
}

#[test]
fn interior_wall_right_down() {
    assert_eq!(center_glyph(false, true, false, true), '└');
}

#[test]
fn interior_wall_right_only() {
    assert_eq!(center_glyph(false, true, false, false), '─');
}

#[test]
fn interior_horizontal_corridor() {
    // floor to the left and right, wall above and below
    assert_eq!(center_glyph(false, false, true, true), '─');
}

#[test]
fn interior_wall_up_only() {
    assert_eq!(center_glyph(false, false, true, false), '┴');
}

#[test]
fn interior_wall_down_only() {
    assert_eq!(center_glyph(false, false, false, true), '┬');
}

#[test]
fn interior_floor_on_all_sides() {
    assert_eq!(center_glyph(false, false, false, false), '#');
}

// A 3x3 grid, wall everywhere, with the two in-bounds neighbors of one
// corner set to wall or floor as given.
fn corner_grid(n1: (usize, usize), w1: bool, n2: (usize, usize), w2: bool) -> Vec<Vec<char>> {
    let mut g = vec![vec!['#'; 3]; 3];
    if !w1 {
        g[n1.1][n1.0] = '.';
    }
    if !w2 {
        g[n2.1][n2.0] = '.';
    }
    g
}

#[test]
fn corner_top_left() {
    // neighbors: right (1,0), below (0,1)
    for (r, d, expected) in [
        (true, true, '┐'),
        (true, false, '└'),
        (false, true, '┘'),
        (false, false, '└'),
    ] {
        let g = corner_grid((1, 0), r, (0, 1), d);
        assert_eq!(format_map(&g, 3, 3)[0][0], expected);
    }
}

#[test]
fn corner_top_right() {
    // neighbors: left (1,0), below (2,1)
    for (l, d, expected) in [
        (true, true, '┌'),
        (true, false, '┘'),
        (false, true, '└'),
        (false, false, '┘'),
    ] {
        let g = corner_grid((1, 0), l, (2, 1), d);
        assert_eq!(format_map(&g, 3, 3)[0][2], expected);
    }
}

#[test]
fn corner_bottom_left() {
    // neighbors: right (1,2), above (0,1)
    for (r, u, expected) in [
        (true, true, '┘'),
        (true, false, '┌'),
        (false, true, '┐'),
        (false, false, '┌'),
    ] {
        let g = corner_grid((1, 2), r, (0, 1), u);
        assert_eq!(format_map(&g, 3, 3)[2][0], expected);
    }
}

#[test]
fn corner_bottom_right() {
    // neighbors: left (1,2), above (2,1)
    for (l, u, expected) in [
        (true, true, '└'),
        (true, false, '┐'),
        (false, true, '┌'),
        (false, false, '┐'),
    ] {
        let g = corner_grid((1, 2), l, (2, 1), u);
        assert_eq!(format_map(&g, 3, 3)[2][2], expected);
    }
}

#[test]
fn floor_cells_pass_through() {
    let mut g = vec![vec!['#'; 3]; 3];
    g[1][1] = '.';
    let out = format_map(&g, 3, 3);
    assert_eq!(out[1][1], '.');
}

#[test]
fn edge_cells_outside_corners_keep_the_block() {
    let mut g = vec![vec!['#'; 3]; 3];
    g[1][1] = '.';
    let out = format_map(&g, 3, 3);
    assert_eq!(out[0][1], '#');
    assert_eq!(out[2][1], '#');
    assert_eq!(out[1][0], '#');
    assert_eq!(out[1][2], '#');
}

#[test]
fn formatting_twice_changes_nothing() {
    // a small map mixing rooms and corridors
    let mut g = vec![vec!['#'; 6]; 5];
    for y in 1..4 {
        for x in 1..3 {
            g[y][x] = '.';
        }
    }
    for x in 3..6 {
        g[2][x] = '.';
    }
    let once = format_map(&g, 6, 5);
    let twice = format_map(&once, 6, 5);
    assert_eq!(once, twice);
}
