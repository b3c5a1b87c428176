use vstd::prelude::*;

use crate::bsp::{build_tree, Leaf, MIN_LEAF_SIZE};
use crate::glyph::{format_map, formatted, is_glyph, lemma_glyph_in_set, lemma_glyph_preserves_floor};
use crate::raster::{draw_map, grid_dims, grid_view, rendered};
use crate::rng::RandomSource;

verus! {

/// The finished artifact of one generation run: the character grid, and the
/// size it is generated at.
pub struct Dungeon {
    pub base_map: Vec<Vec<char>>,
    pub width: u32,
    pub height: u32,
}

/// Every cell of the grid is a wall block or a floor cell.
pub open spec fn raw_cells(g: Seq<Vec<char>>, width: u32, height: u32) -> bool {
    forall|a: int, b: int|
        0 <= a < width && 0 <= b < height ==> g[b]@[a] == '#' || (#[trigger] g[b]@[a]) == '.'
}

/// Some cell of the grid is floor.
pub open spec fn some_floor(g: Seq<Vec<char>>, width: u32, height: u32) -> bool {
    exists|a: int, b: int| 0 <= a < width && 0 <= b < height && (#[trigger] g[b]@[a]) == '.'
}

/// Every cell of the grid comes from the glyph set.
pub open spec fn glyph_cells(g: Seq<Vec<char>>, width: u32, height: u32) -> bool {
    forall|a: int, b: int| 0 <= a < width && 0 <= b < height ==> is_glyph(#[trigger] g[b]@[a])
}

/// `root` is a finished partition tree for a grid of the given size: well
/// formed, spanning the whole grid, with every terminal within the maximum
/// leaf size and every node's rooms and corridors in place. A grid too
/// small to cut on either axis keeps the root terminal — the one-room
/// degenerate dungeon — and a grid at least the minimum leaf size on both
/// axes gives every node at least that size.
pub open spec fn finished_tree(root: Leaf, width: u32, height: u32) -> bool {
    &&& root.wf()
    &&& root.rooms_filled()
    &&& root.leaves_within_max()
    &&& root.x == 0
    &&& root.y == 0
    &&& root.width == width
    &&& root.height == height
    &&& ((width <= 2 * MIN_LEAF_SIZE && height <= 2 * MIN_LEAF_SIZE)
        ==> root.left_child.is_none())
    &&& ((MIN_LEAF_SIZE <= width && MIN_LEAF_SIZE <= height) ==> root.nodes_at_least_min())
}

/// Build a partition tree for a grid of the given size, give every terminal
/// node a room and every internal node its corridors, and rasterize the
/// result: a wall/floor grid holding at least one floor cell.
pub fn gen_dungeon_internal(width: u32, height: u32, rng: &mut RandomSource) -> (grid: Vec<
    Vec<char>,
>)
    requires
        1 <= width,
        1 <= height,
    ensures
        grid_dims(grid@, width, height),
        raw_cells(grid@, width, height),
        some_floor(grid@, width, height),
        exists|root: Leaf|
            #![auto]
            finished_tree(root, width, height) && grid_view(grid@) == rendered(
                root,
                width,
                height,
            ),
{
    let mut root = build_tree(width, height, rng);
    root.create_rooms(rng);
    let grid = draw_map(&root, width, height);
    proof {
        assert forall|a: int, b: int| 0 <= a < width && 0 <= b < height implies (grid@[b]@[a]
            == '#' || (#[trigger] grid@[b]@[a]) == '.') by {
            if root.tree_floor(a, b) {
                assert(grid@[b]@[a] == '.');
            } else {
                assert(grid@[b]@[a] == '#');
            }
        }
        let p = root.lemma_floor_exists();
        assert(grid@[p.1]@[p.0] == '.');
        assert(finished_tree(root, width, height) && grid_view(grid@) == rendered(
            root,
            width,
            height,
        ));
    }
    grid
}

/// The whole generation pipeline: the raw wall/floor grid of
/// `gen_dungeon_internal`, post-processed by the glyph resolver. The result
/// keeps the requested size, draws every cell from the glyph set, and still
/// holds a floor cell.
pub fn gen_dungeon(width: u32, height: u32, rng: &mut RandomSource) -> (grid: Vec<Vec<char>>)
    requires
        2 <= width,
        2 <= height,
    ensures
        grid_dims(grid@, width, height),
        glyph_cells(grid@, width, height),
        some_floor(grid@, width, height),
        exists|root: Leaf|
            #![auto]
            finished_tree(root, width, height) && grid_view(grid@) == formatted(
                rendered(root, width, height),
                width as int,
                height as int,
            ),
{
    let raw = gen_dungeon_internal(width, height, rng);
    let out = format_map(&raw, width, height);
    proof {
        let root = choose|root: Leaf|
            #![auto]
            finished_tree(root, width, height) && grid_view(raw@) == rendered(root, width, height);
        assert(grid_view(out@) == formatted(rendered(root, width, height), width as int, height as int));
        let g = grid_view(raw@);
        let w = width as int;
        let h = height as int;
        assert forall|a: int, b: int| 0 <= a < width && 0 <= b < height implies is_glyph(
            #[trigger] out@[b]@[a],
        ) by {
            assert(out@[b]@[a] == grid_view(out@)[b][a]);
            assert(g[b][a] == raw@[b]@[a]);
            lemma_glyph_in_set(g, w, h, a, b);
        }
        let p = choose|a: int, b: int|
            0 <= a < width && 0 <= b < height && (#[trigger] raw@[b]@[a]) == '.';
        lemma_glyph_preserves_floor(g, w, h, p.0, p.1);
        assert(g[p.1][p.0] == raw@[p.1]@[p.0]);
        assert(out@[p.1]@[p.0] == grid_view(out@)[p.1][p.0]);
        assert(out@[p.1]@[p.0] == '.');
    }
    out
}

impl Dungeon {
    /// An empty dungeon at the default size; `generate` fills the map.
    pub fn new() -> (dungeon: Dungeon)
        ensures
            dungeon.base_map@.len() == 0,
            dungeon.width == 128,
            dungeon.height == 128,
    {
        Dungeon { base_map: Vec::new(), width: 128, height: 128 }
    }

    /// Run the whole pipeline at this dungeon's size, replacing its map.
    pub fn generate(&mut self, rng: &mut RandomSource)
        requires
            2 <= old(self).width,
            2 <= old(self).height,
        ensures
            final(self).width == old(self).width,
            final(self).height == old(self).height,
            grid_dims(final(self).base_map@, final(self).width, final(self).height),
            glyph_cells(final(self).base_map@, final(self).width, final(self).height),
            some_floor(final(self).base_map@, final(self).width, final(self).height),
            exists|root: Leaf|
                #![auto]
                finished_tree(root, final(self).width, final(self).height) && grid_view(
                    final(self).base_map@,
                ) == formatted(
                    rendered(root, final(self).width, final(self).height),
                    final(self).width as int,
                    final(self).height as int,
                ),
    {
        let map = gen_dungeon(self.width, self.height, rng);
        self.base_map = map;
    }
}

} // verus!
