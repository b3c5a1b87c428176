use vstd::prelude::*;

use crate::bsp::{center_x, center_y, l_path, Leaf, Room};

verus! {

/// The cell `(x, y)` lies inside the rectangle `r`.
pub open spec fn in_rect(r: Room, x: int, y: int) -> bool {
    &&& r.x <= x < r.x + r.w
    &&& r.y <= y < r.y + r.h
}

/// The cell `(x, y)` lies inside one of the given corridor segments.
pub open spec fn halls_floor(halls: Seq<Room>, x: int, y: int) -> bool {
    exists|i: int| 0 <= i < halls.len() && in_rect(#[trigger] halls[i], x, y)
}

/// The cell `(x, y)` lies inside one of the first `k` corridor segments.
pub open spec fn halls_floor_upto(halls: Seq<Room>, k: int, x: int, y: int) -> bool {
    exists|i: int| 0 <= i < k && in_rect(#[trigger] halls[i], x, y)
}

/// An L-shaped corridor path really joins the two room centers: its first
/// segment covers the left room's center, its second the right room's
/// center, and the two segments share the bend cell where the runs turn.
pub proof fn lemma_l_path_connects(lr: Room, rr: Room, h1: Room, h2: Room)
    requires
        l_path(lr, rr, h1, h2),
    ensures
        in_rect(h1, center_x(lr), center_y(lr)),
        in_rect(h2, center_x(rr), center_y(rr)),
        exists|bx: int, by: int| in_rect(h1, bx, by) && in_rect(h2, bx, by),
{
    let lcx = center_x(lr);
    let lcy = center_y(lr);
    let rcx = center_x(rr);
    let rcy = center_y(rr);
    if in_rect(h1, rcx, lcy) && in_rect(h2, rcx, lcy) {
        assert(exists|bx: int, by: int| in_rect(h1, bx, by) && in_rect(h2, bx, by));
    } else {
        assert(in_rect(h1, lcx, rcy) && in_rect(h2, lcx, rcy));
        assert(exists|bx: int, by: int| in_rect(h1, bx, by) && in_rect(h2, bx, by));
    }
}

impl Leaf {
    /// The cell `(x, y)` is floor: it lies inside some room or corridor
    /// segment of this subtree.
    pub open spec fn tree_floor(self, x: int, y: int) -> bool
        decreases self,
    {
        ||| (self.room.is_some() && in_rect(self.room.unwrap(), x, y))
        ||| halls_floor(self.halls@, x, y)
        ||| match self.left_child {
            Some(l) => l.tree_floor(x, y),
            None => false,
        }
        ||| match self.right_child {
            Some(r) => r.tree_floor(x, y),
            None => false,
        }
    }

    /// A room-resolved subtree always has at least one floor cell, and it
    /// lies inside the subtree root's rectangle.
    pub proof fn lemma_floor_exists(self) -> (p: (int, int))
        requires
            self.wf(),
            self.rooms_filled(),
        ensures
            self.tree_floor(p.0, p.1),
            self.x <= p.0 < self.x + self.width,
            self.y <= p.1 < self.y + self.height,
        decreases self,
    {
        match (self.left_child, self.right_child) {
            (Some(l), Some(r)) => {
                let p = l.lemma_floor_exists();
                assert(self.tree_floor(p.0, p.1));
                p
            },
            _ => {
                let room = self.room.unwrap();
                assert(in_rect(room, room.x as int, room.y as int));
                (room.x as int, room.y as int)
            },
        }
    }
}

/// The rows of a character grid, as a sequence of sequences.
pub open spec fn grid_view(g: Seq<Vec<char>>) -> Seq<Seq<char>> {
    Seq::new(g.len(), |y: int| g[y]@)
}

/// The grid has `height` rows of `width` cells each.
pub open spec fn grid_dims(g: Seq<Vec<char>>, width: u32, height: u32) -> bool {
    &&& g.len() == height
    &&& forall|y: int| 0 <= y < g.len() ==> (#[trigger] g[y])@.len() == width
}

/// Overwrite one cell of the grid.
fn set_cell(grid: &mut Vec<Vec<char>>, x: usize, y: usize, c: char)
    requires
        y < old(grid)@.len(),
        x < old(grid)@[y as int]@.len(),
    ensures
        final(grid)@.len() == old(grid)@.len(),
        forall|b: int| 0 <= b < old(grid)@.len() && b != y ==> final(grid)@[b] == old(grid)@[b],
        final(grid)@[y as int]@ == old(grid)@[y as int]@.update(x as int, c),
{
    let row = &mut grid[y];
    row.set(x, c);
}

/// Mark every cell of the rectangle `r` as floor, leaving all other cells
/// as they were.
fn paint_rect(grid: &mut Vec<Vec<char>>, width: u32, height: u32, r: Room)
    requires
        grid_dims(old(grid)@, width, height),
        r.x + r.w <= width,
        r.y + r.h <= height,
    ensures
        grid_dims(final(grid)@, width, height),
        forall|a: int, b: int|
            0 <= a < width && 0 <= b < height ==> final(grid)@[b]@[a] == (if in_rect(r, a, b) {
                '.'
            } else {
                old(grid)@[b]@[a]
            }),
{
    let ghost orig = grid@;
    let mut yy = r.y;
    #[verifier::loop_isolation(false)]
    while yy < r.y + r.h
        invariant
            r.y <= yy <= r.y + r.h,
            grid_dims(grid@, width, height),
            forall|a: int, b: int|
                0 <= a < width && 0 <= b < height ==> grid@[b]@[a] == (if in_rect(r, a, b) && b
                    < yy {
                    '.'
                } else {
                    orig[b]@[a]
                }),
        decreases r.y + r.h - yy,
    {
        let mut xx = r.x;
        #[verifier::loop_isolation(false)]
        while xx < r.x + r.w
            invariant
                r.x <= xx <= r.x + r.w,
                r.y <= yy < r.y + r.h,
                grid_dims(grid@, width, height),
                forall|a: int, b: int|
                    0 <= a < width && 0 <= b < height ==> grid@[b]@[a] == (if in_rect(r, a, b) && (
                    b < yy || (b == yy && a < xx)) {
                        '.'
                    } else {
                        orig[b]@[a]
                    }),
            decreases r.x + r.w - xx,
        {
            set_cell(grid, xx as usize, yy as usize, '.');
            xx = xx + 1;
        }
        yy = yy + 1;
    }
}

/// Rasterize one subtree: mark its room's and corridor segments' cells as
/// floor, then recurse into the children. Cells outside the subtree's rooms
/// and corridors keep their old value.
fn draw_node(grid: &mut Vec<Vec<char>>, node: &Leaf, width: u32, height: u32)
    requires
        grid_dims(old(grid)@, width, height),
        node.wf(),
        node.rooms_filled(),
        node.x + node.width <= width,
        node.y + node.height <= height,
    ensures
        grid_dims(final(grid)@, width, height),
        forall|a: int, b: int|
            0 <= a < width && 0 <= b < height ==> final(grid)@[b]@[a] == (if node.tree_floor(a, b) {
                '.'
            } else {
                old(grid)@[b]@[a]
            }),
    decreases *node,
{
    if node.room.is_some() {
        let room = node.room.unwrap();
        paint_rect(grid, width, height, room);
    }

    let ghost after_room = grid@;
    let n = node.halls.len();
    let mut i: usize = 0;
    #[verifier::loop_isolation(false)]
    while i < n
        invariant
            i <= n,
            grid_dims(grid@, width, height),
            forall|a: int, b: int|
                0 <= a < width && 0 <= b < height ==> grid@[b]@[a] == (if halls_floor_upto(
                    node.halls@,
                    i as int,
                    a,
                    b,
                ) {
                    '.'
                } else {
                    after_room[b]@[a]
                }),
        decreases n - i,
    {
        let ghost g0 = grid@;
        let hall = node.halls[i];
        paint_rect(grid, width, height, hall);
        proof {
            assert forall|a: int, b: int| 0 <= a < width && 0 <= b < height implies grid@[b]@[a]
                == (if halls_floor_upto(node.halls@, i + 1, a, b) {
                '.'
            } else {
                after_room[b]@[a]
            }) by {
                assert(grid@[b]@[a] == (if in_rect(hall, a, b) {
                    '.'
                } else {
                    g0[b]@[a]
                }));
                assert(g0[b]@[a] == (if halls_floor_upto(node.halls@, i as int, a, b) {
                    '.'
                } else {
                    after_room[b]@[a]
                }));
                if in_rect(node.halls@[i as int], a, b) {
                    assert(halls_floor_upto(node.halls@, i + 1, a, b));
                } else if halls_floor_upto(node.halls@, i as int, a, b) {
                    let j = choose|j: int| 0 <= j < i && in_rect(#[trigger] node.halls@[j], a, b);
                    assert(halls_floor_upto(node.halls@, i + 1, a, b));
                } else {
                    if halls_floor_upto(node.halls@, i + 1, a, b) {
                        let j = choose|j: int|
                            0 <= j < i + 1 && in_rect(#[trigger] node.halls@[j], a, b);
                        assert(false);
                    }
                }
            }
        }
        i = i + 1;
    }

    let ghost after_halls = grid@;
    match &node.left_child {
        Some(l) => {
            draw_node(grid, l, width, height);
        },
        None => {},
    }
    let ghost after_left = grid@;
    match &node.right_child {
        Some(r) => {
            draw_node(grid, r, width, height);
        },
        None => {},
    }

    proof {
        assert forall|a: int, b: int| 0 <= a < width && 0 <= b < height implies grid@[b]@[a] == (
        if node.tree_floor(a, b) {
            '.'
        } else {
            old(grid)@[b]@[a]
        }) by {
            assert(after_room[b]@[a] == (if node.room.is_some() && in_rect(
                node.room.unwrap(),
                a,
                b,
            ) {
                '.'
            } else {
                old(grid)@[b]@[a]
            }));
            assert(halls_floor(node.halls@, a, b) <==> halls_floor_upto(
                node.halls@,
                node.halls@.len() as int,
                a,
                b,
            )) by {
                if halls_floor(node.halls@, a, b) {
                    let j = choose|j: int|
                        0 <= j < node.halls@.len() && in_rect(#[trigger] node.halls@[j], a, b);
                    assert(halls_floor_upto(node.halls@, node.halls@.len() as int, a, b));
                }
                if halls_floor_upto(node.halls@, node.halls@.len() as int, a, b) {
                    let j = choose|j: int|
                        0 <= j < node.halls@.len() && in_rect(#[trigger] node.halls@[j], a, b);
                    assert(halls_floor(node.halls@, a, b));
                }
            }
            assert(after_halls[b]@[a] == (if halls_floor(node.halls@, a, b) {
                '.'
            } else {
                after_room[b]@[a]
            }));
            match node.left_child {
                Some(l) => {
                    assert(after_left[b]@[a] == (if l.tree_floor(a, b) {
                        '.'
                    } else {
                        after_halls[b]@[a]
                    }));
                },
                None => {
                    assert(after_left[b]@[a] == after_halls[b]@[a]);
                },
            }
            match node.right_child {
                Some(r) => {
                    assert(grid@[b]@[a] == (if r.tree_floor(a, b) {
                        '.'
                    } else {
                        after_left[b]@[a]
                    }));
                },
                None => {
                    assert(grid@[b]@[a] == after_left[b]@[a]);
                },
            }
        }
    }
}

/// One row of `width` wall cells.
fn wall_row(width: u32) -> (row: Vec<char>)
    ensures
        row@.len() == width,
        forall|a: int| 0 <= a < width ==> row@[a] == '#',
{
    let mut row: Vec<char> = Vec::new();
    #[verifier::loop_isolation(false)]
    while row.len() < width as usize
        invariant
            row@.len() <= width,
            forall|a: int| 0 <= a < row@.len() ==> row@[a] == '#',
        decreases width - row@.len(),
    {
        row.push('#');
    }
    row
}

/// The grid that rasterizing the tree onto a wall-filled canvas of the
/// given size produces.
pub open spec fn rendered(root: Leaf, width: u32, height: u32) -> Seq<Seq<char>> {
    Seq::new(
        height as nat,
        |y: int|
            Seq::new(
                width as nat,
                |x: int|
                    if root.tree_floor(x, y) {
                        '.'
                    } else {
                        '#'
                    },
            ),
    )
}

/// Rasterizer: paint the tree's rooms and corridor segments as floor cells
/// on a grid of the given size that is wall everywhere else.
pub fn draw_map(root: &Leaf, width: u32, height: u32) -> (grid: Vec<Vec<char>>)
    requires
        root.wf(),
        root.rooms_filled(),
        root.x + root.width <= width,
        root.y + root.height <= height,
    ensures
        grid_dims(grid@, width, height),
        forall|a: int, b: int|
            0 <= a < width && 0 <= b < height ==> grid@[b]@[a] == (if root.tree_floor(a, b) {
                '.'
            } else {
                '#'
            }),
        grid_view(grid@) == rendered(*root, width, height),
{
    let mut grid: Vec<Vec<char>> = Vec::new();
    #[verifier::loop_isolation(false)]
    while grid.len() < height as usize
        invariant
            grid@.len() <= height,
            forall|b: int| 0 <= b < grid@.len() ==> (#[trigger] grid@[b])@.len() == width,
            forall|a: int, b: int|
                0 <= a < width && 0 <= b < grid@.len() ==> grid@[b]@[a] == '#',
        decreases height - grid@.len(),
    {
        let row = wall_row(width);
        grid.push(row);
    }
    draw_node(&mut grid, root, width, height);
    proof {
        assert(grid_view(grid@) =~~= rendered(*root, width, height));
    }
    grid
}

} // verus!
