use vstd::prelude::*;

use crate::raster::grid_view;

verus! {

/// The cell code for walkable floor; every other code is a wall.
pub open spec fn is_floor(c: char) -> bool {
    c == '.'
}

/// The grid is `height` rows of `width` cells each.
pub open spec fn rect_grid(g: Seq<Seq<char>>, width: int, height: int) -> bool {
    &&& g.len() == height
    &&& forall|y: int| 0 <= y < height ==> (#[trigger] g[y]).len() == width
}

/// The glyph for an interior wall cell, from whether each of its four
/// neighbors is a wall. A wall cell whose left and right neighbors are
/// floor and whose upper and lower neighbors are walls carries the
/// horizontal corridor glyph; the all-wall pattern keeps the solid block.
pub open spec fn interior_glyph(l: bool, r: bool, u: bool, d: bool) -> char {
    if l {
        if r {
            if u {
                if d {
                    '#'
                } else {
                    '┴'
                }
            } else {
                if d {
                    '┬'
                } else {
                    '│'
                }
            }
        } else {
            if u {
                if d {
                    '┤'
                } else {
                    '┘'
                }
            } else {
                if d {
                    '┐'
                } else {
                    '└'
                }
            }
        }
    } else if r {
        if u {
            if d {
                '├'
            } else {
                '┌'
            }
        } else {
            if d {
                '└'
            } else {
                '─'
            }
        }
    } else if u {
        if d {
            '─'
        } else {
            '┴'
        }
    } else if d {
        '┬'
    } else {
        '#'
    }
}

/// The glyph for the top-left corner, from its right and lower neighbors.
pub open spec fn top_left_glyph(r: bool, d: bool) -> char {
    if r {
        if d {
            '┐'
        } else {
            '└'
        }
    } else {
        if d {
            '┘'
        } else {
            '└'
        }
    }
}

/// The glyph for the top-right corner, from its left and lower neighbors.
pub open spec fn top_right_glyph(l: bool, d: bool) -> char {
    if l {
        if d {
            '┌'
        } else {
            '┘'
        }
    } else {
        if d {
            '└'
        } else {
            '┘'
        }
    }
}

/// The glyph for the bottom-left corner, from its right and upper neighbors.
pub open spec fn bottom_left_glyph(r: bool, u: bool) -> char {
    if r {
        if u {
            '┘'
        } else {
            '┌'
        }
    } else {
        if u {
            '┐'
        } else {
            '┌'
        }
    }
}

/// The glyph for the bottom-right corner, from its left and upper neighbors.
pub open spec fn bottom_right_glyph(l: bool, u: bool) -> char {
    if l {
        if u {
            '└'
        } else {
            '┐'
        }
    } else {
        if u {
            '┌'
        } else {
            '┐'
        }
    }
}

/// What the glyph resolver writes at `(x, y)`: floor cells and cells already
/// holding a glyph pass through; a wall block gets the glyph matching its
/// neighbor pattern, with only the in-bounds neighbors tested at the four
/// corners, and edge cells outside the corners keeping the solid block.
pub open spec fn glyph_at(g: Seq<Seq<char>>, width: int, height: int, x: int, y: int) -> char {
    let c = g[y][x];
    if c != '#' {
        c
    } else if 0 < x && x < width - 1 && 0 < y && y < height - 1 {
        interior_glyph(
            !is_floor(g[y][x - 1]),
            !is_floor(g[y][x + 1]),
            !is_floor(g[y - 1][x]),
            !is_floor(g[y + 1][x]),
        )
    } else if x == 0 && y == 0 {
        top_left_glyph(!is_floor(g[y][x + 1]), !is_floor(g[y + 1][x]))
    } else if x == width - 1 && y == 0 {
        top_right_glyph(!is_floor(g[y][x - 1]), !is_floor(g[y + 1][x]))
    } else if x == 0 && y == height - 1 {
        bottom_left_glyph(!is_floor(g[y][x + 1]), !is_floor(g[y - 1][x]))
    } else if x == width - 1 && y == height - 1 {
        bottom_right_glyph(!is_floor(g[y][x - 1]), !is_floor(g[y - 1][x]))
    } else {
        '#'
    }
}

/// The whole grid after one pass of the glyph resolver.
pub open spec fn formatted(g: Seq<Seq<char>>, width: int, height: int) -> Seq<Seq<char>> {
    Seq::new(
        height as nat,
        |y: int| Seq::new(width as nat, |x: int| glyph_at(g, width, height, x, y)),
    )
}

/// The cell codes a finished map may hold: floor, the solid wall block, and
/// the directional wall glyphs.
pub open spec fn is_glyph(c: char) -> bool {
    ||| c == '.'
    ||| c == '#'
    ||| c == '─'
    ||| c == '│'
    ||| c == '┌'
    ||| c == '┐'
    ||| c == '└'
    ||| c == '┘'
    ||| c == '├'
    ||| c == '┤'
    ||| c == '┬'
    ||| c == '┴'
}

/// One resolver pass never turns a wall cell into floor or a floor cell
/// into wall: every glyph it writes is a wall code.
pub proof fn lemma_glyph_preserves_floor(g: Seq<Seq<char>>, width: int, height: int, x: int, y: int)
    requires
        rect_grid(g, width, height),
        2 <= width,
        2 <= height,
        0 <= x < width,
        0 <= y < height,
    ensures
        is_floor(glyph_at(g, width, height, x, y)) == is_floor(g[y][x]),
{
}

/// On a grid of wall blocks and floor cells, the resolver writes only codes
/// from the glyph set.
pub proof fn lemma_glyph_in_set(g: Seq<Seq<char>>, width: int, height: int, x: int, y: int)
    requires
        rect_grid(g, width, height),
        2 <= width,
        2 <= height,
        0 <= x < width,
        0 <= y < height,
        g[y][x] == '#' || g[y][x] == '.',
    ensures
        is_glyph(glyph_at(g, width, height, x, y)),
{
}

/// Running the glyph resolver on its own output is a no-op: glyph cells are
/// still treated as walls by the neighbor tests, and a solid block that
/// survived the first pass sees the same all-wall neighborhood again.
pub proof fn lemma_format_idempotent(g: Seq<Seq<char>>, width: int, height: int)
    requires
        rect_grid(g, width, height),
        2 <= width,
        2 <= height,
    ensures
        formatted(formatted(g, width, height), width, height) == formatted(g, width, height),
{
    let f = formatted(g, width, height);
    let ff = formatted(f, width, height);
    assert(rect_grid(f, width, height));
    assert forall|x: int, y: int| 0 <= x < width && 0 <= y < height implies ff[y][x] == f[y][x] by {
        assert(f[y][x] == glyph_at(g, width, height, x, y));
        assert(ff[y][x] == glyph_at(f, width, height, x, y));
        if f[y][x] == '#' {
            if 0 < x && x < width - 1 && 0 < y && y < height - 1 {
                lemma_glyph_preserves_floor(g, width, height, x - 1, y);
                lemma_glyph_preserves_floor(g, width, height, x + 1, y);
                lemma_glyph_preserves_floor(g, width, height, x, y - 1);
                lemma_glyph_preserves_floor(g, width, height, x, y + 1);
                assert(f[y][x - 1] == glyph_at(g, width, height, x - 1, y));
                assert(f[y][x + 1] == glyph_at(g, width, height, x + 1, y));
                assert(f[y - 1][x] == glyph_at(g, width, height, x, y - 1));
                assert(f[y + 1][x] == glyph_at(g, width, height, x, y + 1));
            }
        }
    }
    assert(ff =~~= f);
}

/// Interior glyph choice, as executable code.
fn interior_cell(l: bool, r: bool, u: bool, d: bool) -> (c: char)
    ensures
        c == interior_glyph(l, r, u, d),
{
    if l {
        if r {
            if u {
                if d {
                    '#'
                } else {
                    '┴'
                }
            } else {
                if d {
                    '┬'
                } else {
                    '│'
                }
            }
        } else {
            if u {
                if d {
                    '┤'
                } else {
                    '┘'
                }
            } else {
                if d {
                    '┐'
                } else {
                    '└'
                }
            }
        }
    } else if r {
        if u {
            if d {
                '├'
            } else {
                '┌'
            }
        } else {
            if d {
                '└'
            } else {
                '─'
            }
        }
    } else if u {
        if d {
            '─'
        } else {
            '┴'
        }
    } else if d {
        '┬'
    } else {
        '#'
    }
}

/// Corner glyph choices, as executable code.
fn top_left_cell(r: bool, d: bool) -> (c: char)
    ensures
        c == top_left_glyph(r, d),
{
    if r {
        if d {
            '┐'
        } else {
            '└'
        }
    } else {
        if d {
            '┘'
        } else {
            '└'
        }
    }
}

fn top_right_cell(l: bool, d: bool) -> (c: char)
    ensures
        c == top_right_glyph(l, d),
{
    if l {
        if d {
            '┌'
        } else {
            '┘'
        }
    } else {
        if d {
            '└'
        } else {
            '┘'
        }
    }
}

fn bottom_left_cell(r: bool, u: bool) -> (c: char)
    ensures
        c == bottom_left_glyph(r, u),
{
    if r {
        if u {
            '┘'
        } else {
            '┌'
        }
    } else {
        if u {
            '┐'
        } else {
            '┌'
        }
    }
}

fn bottom_right_cell(l: bool, u: bool) -> (c: char)
    ensures
        c == bottom_right_glyph(l, u),
{
    if l {
        if u {
            '└'
        } else {
            '┐'
        }
    } else {
        if u {
            '┌'
        } else {
            '┐'
        }
    }
}

/// Glyph resolver: compute a new grid in which every wall block is replaced
/// by the directional glyph matching its neighbors' wall/floor pattern. The
/// input grid is only read, so every glyph choice sees the original pattern.
pub fn format_map(map: &Vec<Vec<char>>, width: u32, height: u32) -> (out: Vec<Vec<char>>)
    requires
        crate::raster::grid_dims(map@, width, height),
        2 <= width,
        2 <= height,
    ensures
        crate::raster::grid_dims(out@, width, height),
        grid_view(out@) == formatted(grid_view(map@), width as int, height as int),
{
    let ghost g = grid_view(map@);
    let ghost w = width as int;
    let ghost h = height as int;
    let mut out: Vec<Vec<char>> = Vec::new();
    let mut y: usize = 0;
    #[verifier::loop_isolation(false)]
    while y < height as usize
        invariant
            y <= height,
            out@.len() == y,
            forall|b: int| 0 <= b < y ==> (#[trigger] out@[b])@.len() == width,
            forall|a: int, b: int|
                0 <= b < y && 0 <= a < width ==> out@[b]@[a] == glyph_at(g, w, h, a, b),
        decreases height - y,
    {
        let mut row: Vec<char> = Vec::new();
        let mut x: usize = 0;
        #[verifier::loop_isolation(false)]
        while x < width as usize
            invariant
                x <= width,
                y < height,
                row@.len() == x,
                forall|a: int| 0 <= a < x ==> row@[a] == glyph_at(g, w, h, a, y as int),
            decreases width - x,
        {
            let c = map[y][x];
            let chosen: char;
            if c != '#' {
                chosen = c;
            } else if x > 0 && x < (width as usize) - 1 && y > 0 && y < (height as usize) - 1 {
                chosen = interior_cell(
                    map[y][x - 1] != '.',
                    map[y][x + 1] != '.',
                    map[y - 1][x] != '.',
                    map[y + 1][x] != '.',
                );
            } else if x == 0 && y == 0 {
                chosen = top_left_cell(map[y][x + 1] != '.', map[y + 1][x] != '.');
            } else if x == (width as usize) - 1 && y == 0 {
                chosen = top_right_cell(map[y][x - 1] != '.', map[y + 1][x] != '.');
            } else if x == 0 && y == (height as usize) - 1 {
                chosen = bottom_left_cell(map[y][x + 1] != '.', map[y - 1][x] != '.');
            } else if x == (width as usize) - 1 && y == (height as usize) - 1 {
                chosen = bottom_right_cell(map[y][x - 1] != '.', map[y - 1][x] != '.');
            } else {
                chosen = '#';
            }
            proof {
                assert(chosen == glyph_at(g, w, h, x as int, y as int));
            }
            row.push(chosen);
            x = x + 1;
        }
        out.push(row);
        y = y + 1;
    }
    proof {
        assert(grid_view(out@) =~~= formatted(g, w, h));
    }
    out
}

} // verus!

