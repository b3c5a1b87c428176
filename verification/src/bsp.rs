use vstd::prelude::*;

use crate::rng::RandomSource;

verus! {

/// Smallest width or height a partition node may have after a split.
pub const MIN_LEAF_SIZE: u32 = 16;

/// A terminal node whose width or height exceeds this must keep splitting.
pub const MAX_LEAF_SIZE: u32 = 64;

/// Smallest width or height of a room placed in a terminal node.
pub const MIN_ROOM_SIZE: u32 = MIN_LEAF_SIZE - 2;

/// An axis-aligned rectangle of grid cells. Rooms and corridor segments are
/// both plain rectangles; a corridor segment normally has width or height 1.
#[derive(Clone, Copy, Debug, PartialEq, Eq, Structural)]
pub struct Room {
    pub x: u32,
    pub y: u32,
    pub w: u32,
    pub h: u32,
}

/// One node of the binary space partition: a rectangular region that either
/// has been split into two children or may hold a room. Corridor segments
/// connecting the two children's rooms are owned by their lowest common
/// ancestor, this node.
#[derive(Debug)]
pub struct Leaf {
    pub x: u32,
    pub y: u32,
    pub width: u32,
    pub height: u32,
    pub left_child: Option<Box<Leaf>>,
    pub right_child: Option<Box<Leaf>>,
    pub room: Option<Room>,
    pub halls: Vec<Room>,
}

/// The rectangle `r` lies entirely inside the rectangle at `(x, y)` with the
/// given width and height.
pub open spec fn room_within(r: Room, x: u32, y: u32, w: u32, h: u32) -> bool {
    &&& x <= r.x
    &&& y <= r.y
    &&& r.x + r.w <= x + w
    &&& r.y + r.h <= y + h
}

impl Leaf {
    /// The node's own rectangle is non-degenerate and free of arithmetic
    /// wrap-around.
    pub open spec fn rect_ok(self) -> bool {
        &&& 1 <= self.width
        &&& 1 <= self.height
        &&& self.x + self.width <= u32::MAX
        &&& self.y + self.height <= u32::MAX
    }

    /// The children's rectangles cut the parent's exactly in two, along one
    /// axis, each keeping at least the minimum leaf size along the cut.
    pub open spec fn children_partition(self, l: Leaf, r: Leaf) -> bool {
        ||| {
            // horizontal cut: left child on top, right child below
            &&& l.x == self.x && l.y == self.y
            &&& l.width == self.width && r.width == self.width
            &&& r.x == self.x && r.y == self.y + l.height
            &&& l.height + r.height == self.height
            &&& MIN_LEAF_SIZE <= l.height && MIN_LEAF_SIZE <= r.height
        }
        ||| {
            // vertical cut: left child at the left, right child at the right
            &&& l.x == self.x && l.y == self.y
            &&& l.height == self.height && r.height == self.height
            &&& r.y == self.y && r.x == self.x + l.width
            &&& l.width + r.width == self.width
            &&& MIN_LEAF_SIZE <= l.width && MIN_LEAF_SIZE <= r.width
        }
    }

    /// Structural well-formedness of the whole subtree: every node has both
    /// children or none, children partition their parent, a room never sits
    /// on an internal node, and any room lies inside its node's rectangle.
    pub open spec fn wf(self) -> bool
        decreases self,
    {
        &&& self.rect_ok()
        &&& (self.left_child.is_some() <==> self.right_child.is_some())
        &&& match (self.left_child, self.right_child) {
            (Some(l), Some(r)) => {
                &&& l.wf()
                &&& r.wf()
                &&& self.children_partition(*l, *r)
                &&& self.room.is_none()
            },
            _ => self.halls@.len() == 0,
        }
        &&& (self.room.is_some() ==> room_within(
            self.room.unwrap(),
            self.x,
            self.y,
            self.width,
            self.height,
        ))
    }

    /// No node of the subtree has been given a room or a corridor yet; this
    /// is the state the builder works in.
    pub open spec fn bare(self) -> bool
        decreases self,
    {
        &&& self.room.is_none()
        &&& self.halls@.len() == 0
        &&& match (self.left_child, self.right_child) {
            (Some(l), Some(r)) => l.bare() && r.bare(),
            _ => true,
        }
    }

    /// `other` has the same skeleton as this subtree: node for node the
    /// same children and the same rectangles. Geometry is immutable once a
    /// node is created; the later passes only fill rooms and corridors.
    pub open spec fn same_skeleton(self, other: Leaf) -> bool
        decreases self,
    {
        &&& other.x == self.x
        &&& other.y == self.y
        &&& other.width == self.width
        &&& other.height == self.height
        &&& (other.left_child.is_some() <==> self.left_child.is_some())
        &&& (other.right_child.is_some() <==> self.right_child.is_some())
        &&& match (self.left_child, other.left_child) {
            (Some(a), Some(b)) => a.same_skeleton(*b),
            _ => true,
        }
        &&& match (self.right_child, other.right_child) {
            (Some(a), Some(b)) => a.same_skeleton(*b),
            _ => true,
        }
    }

    /// Some node of this subtree has a room.
    pub open spec fn has_any_room(self) -> bool
        decreases self,
    {
        ||| self.room.is_some()
        ||| match self.left_child {
            Some(l) => l.has_any_room(),
            None => false,
        }
        ||| match self.right_child {
            Some(rc) => rc.has_any_room(),
            None => false,
        }
    }

    /// `r` is the room of some node of this subtree.
    pub open spec fn has_room(self, r: Room) -> bool
        decreases self,
    {
        ||| self.room == Some(r)
        ||| match self.left_child {
            Some(l) => l.has_room(r),
            None => false,
        }
        ||| match self.right_child {
            Some(rc) => rc.has_room(r),
            None => false,
        }
    }

    /// Every corridor segment of this node lies inside its rectangle.
    pub open spec fn halls_within(self) -> bool {
        forall|i: int|
            0 <= i < self.halls@.len() ==> room_within(
                #[trigger] self.halls@[i],
                self.x,
                self.y,
                self.width,
                self.height,
            )
    }

    /// The room placer and corridor builder have finished this subtree.
    /// Every internal node holds exactly two corridor segments, inside its
    /// rectangle and forming an L-shaped path that joins the centers of a
    /// room of each child. Every terminal node holds one room inside its
    /// rectangle — at least the minimum room size and strictly smaller than
    /// the node on each axis where the node exceeds the minimum room size,
    /// spanning the node exactly on an axis where it does not.
    pub open spec fn rooms_filled(self) -> bool
        decreases self,
    {
        match (self.left_child, self.right_child) {
            (Some(l), Some(r)) => {
                &&& l.rooms_filled()
                &&& r.rooms_filled()
                &&& self.halls@.len() == 2
                &&& self.halls_within()
                &&& (exists|lr: Room, rr: Room|
                    #![auto]
                    l.has_room(lr) && r.has_room(rr) && l_path(
                        lr,
                        rr,
                        self.halls@[0],
                        self.halls@[1],
                    ))
            },
            _ => {
                &&& self.room.is_some()
                &&& 1 <= self.room.unwrap().w
                &&& 1 <= self.room.unwrap().h
                &&& room_within(self.room.unwrap(), self.x, self.y, self.width, self.height)
                &&& (if self.width > MIN_ROOM_SIZE {
                    MIN_ROOM_SIZE <= self.room.unwrap().w < self.width
                } else {
                    self.room.unwrap().w == self.width
                })
                &&& (if self.height > MIN_ROOM_SIZE {
                    MIN_ROOM_SIZE <= self.room.unwrap().h < self.height
                } else {
                    self.room.unwrap().h == self.height
                })
            },
        }
    }

    /// Every node of the subtree is at least the minimum leaf size on both
    /// axes. This holds of every tree the builder grows from a root that is
    /// itself at least the minimum leaf size; a smaller root stays terminal
    /// and is the one degenerate exception.
    pub open spec fn nodes_at_least_min(self) -> bool
        decreases self,
    {
        &&& MIN_LEAF_SIZE <= self.width
        &&& MIN_LEAF_SIZE <= self.height
        &&& match (self.left_child, self.right_child) {
            (Some(l), Some(r)) => l.nodes_at_least_min() && r.nodes_at_least_min(),
            _ => true,
        }
    }

    /// Every terminal node of the subtree fits within the maximum leaf
    /// size; the builder stops splitting only once this holds.
    pub open spec fn leaves_within_max(self) -> bool
        decreases self,
    {
        match (self.left_child, self.right_child) {
            (Some(l), Some(r)) => l.leaves_within_max() && r.leaves_within_max(),
            _ => self.width <= MAX_LEAF_SIZE && self.height <= MAX_LEAF_SIZE,
        }
    }

    /// The number of terminal nodes of the subtree, which is the number of
    /// rooms once the room placer has run.
    pub open spec fn terminal_count(self) -> int
        decreases self,
    {
        match (self.left_child, self.right_child) {
            (Some(l), Some(r)) => l.terminal_count() + r.terminal_count(),
            _ => 1,
        }
    }

    /// Termination measure for the builder's split passes: the subtree's
    /// total terminal area, less a fixed amount per terminal that every
    /// split strictly shrinks.
    pub open spec fn slack(self) -> int
        decreases self,
    {
        match (self.left_child, self.right_child) {
            (Some(l), Some(r)) => l.slack() + r.slack(),
            _ => if self.width * self.height >= 15 {
                self.width * self.height - 15
            } else {
                0
            },
        }
    }

    /// A fresh terminal node covering the given rectangle.
    pub fn new(x: u32, y: u32, width: u32, height: u32) -> (leaf: Leaf)
        ensures
            leaf.x == x,
            leaf.y == y,
            leaf.width == width,
            leaf.height == height,
            leaf.left_child.is_none(),
            leaf.right_child.is_none(),
            leaf.room.is_none(),
            leaf.halls@.len() == 0,
    {
        Leaf {
            x,
            y,
            width,
            height,
            left_child: None,
            right_child: None,
            room: None,
            halls: Vec::new(),
        }
    }

    /// Try to split this node in two. A node that already has children
    /// refuses. The cut runs vertically when the node is at least a quarter
    /// wider than tall, horizontally when at least a quarter taller than
    /// wide, and along a random axis otherwise; it refuses when the chosen
    /// axis cannot give both children the minimum leaf size, which is the
    /// only way recursion bottoms out.
    pub fn split(&mut self, rng: &mut RandomSource) -> (did: bool)
        requires
            old(self).wf(),
            old(self).room.is_none(),
        ensures
            final(self).wf(),
            final(self).x == old(self).x,
            final(self).y == old(self).y,
            final(self).width == old(self).width,
            final(self).height == old(self).height,
            final(self).room.is_none(),
            final(self).halls@ == old(self).halls@,
            !did ==> *final(self) == *old(self),
            did ==> old(self).left_child.is_none(),
            did ==> final(self).left_child.is_some() && final(self).right_child.is_some(),
            did ==> final(self).left_child.unwrap().bare() && final(self).right_child.unwrap().bare(),
            did ==> final(self).left_child.unwrap().left_child.is_none()
                && final(self).right_child.unwrap().left_child.is_none(),
            old(self).bare() ==> final(self).bare(),
            old(self).nodes_at_least_min() ==> final(self).nodes_at_least_min(),
            final(self).slack() <= old(self).slack(),
            did ==> final(self).slack() < old(self).slack(),
            // when the aspect ratio forces the axis, success is decided by size alone
            (old(self).left_child.is_none() && old(self).width > old(self).height && 4 * old(
                self,
            ).width >= 5 * old(self).height) ==> (did <==> old(self).width > 2 * MIN_LEAF_SIZE),
            (old(self).left_child.is_none() && old(self).height > old(self).width && 4 * old(
                self,
            ).height >= 5 * old(self).width) ==> (did <==> old(self).height > 2 * MIN_LEAF_SIZE),
            // ... and that forced axis is the cut axis: a node at least a
            // quarter wider than tall is cut vertically, and dually
            (did && old(self).width > old(self).height && 4 * old(self).width >= 5 * old(self).height)
                ==> (final(self).left_child.unwrap().height == old(self).height
                && final(self).right_child.unwrap().height == old(self).height
                && final(self).left_child.unwrap().y == old(self).y
                && final(self).right_child.unwrap().y == old(self).y),
            (did && old(self).height > old(self).width && 4 * old(self).height >= 5 * old(self).width)
                ==> (final(self).left_child.unwrap().width == old(self).width
                && final(self).right_child.unwrap().width == old(self).width
                && final(self).left_child.unwrap().x == old(self).x
                && final(self).right_child.unwrap().x == old(self).x),
            // a terminal node with room to cut on both axes always splits
            (old(self).left_child.is_none() && old(self).width > 2 * MIN_LEAF_SIZE && old(
                self,
            ).height > 2 * MIN_LEAF_SIZE) ==> did,
            // a node too small on both axes never splits
            (old(self).width <= 2 * MIN_LEAF_SIZE && old(self).height <= 2 * MIN_LEAF_SIZE)
                ==> !did,
    {
        if !self.left_child.is_none() || !self.right_child.is_none() {
            return false;
        }

        // Choose the cut axis from the aspect ratio, at random for nearly
        // square nodes.
        let split_horizontal: bool;
        if self.width > self.height && (self.width as u64) * 4 >= (self.height as u64) * 5 {
            split_horizontal = false;
        } else if self.height > self.width && (self.height as u64) * 4 >= (self.width as u64) * 5 {
            split_horizontal = true;
        } else {
            split_horizontal = rng.next_bool();
        }

        let dim = if split_horizontal {
            self.height
        } else {
            self.width
        };
        if dim <= 2 * MIN_LEAF_SIZE {
            return false;
        }
        let max = dim - MIN_LEAF_SIZE;

        let offset = rng.next_below(max - MIN_LEAF_SIZE) + MIN_LEAF_SIZE;

        if split_horizontal {
            self.left_child = Some(Box::new(Leaf::new(self.x, self.y, self.width, offset)));
            self.right_child = Some(
                Box::new(Leaf::new(self.x, self.y + offset, self.width, self.height - offset)),
            );
        } else {
            self.left_child = Some(Box::new(Leaf::new(self.x, self.y, offset, self.height)));
            self.right_child = Some(
                Box::new(Leaf::new(self.x + offset, self.y, self.width - offset, self.height)),
            );
        }

        proof {
            let l = *self.left_child.unwrap();
            let r = *self.right_child.unwrap();
            lemma_split_slack(
                self.width as int,
                self.height as int,
                l.width as int,
                l.height as int,
                r.width as int,
                r.height as int,
                split_horizontal,
            );
            assert(l.wf());
            assert(r.wf());
            assert(l.bare());
            assert(r.bare());
            if old(self).nodes_at_least_min() {
                assert(l.nodes_at_least_min());
                assert(r.nodes_at_least_min());
                assert(self.nodes_at_least_min());
            }
            assert(l.slack() == l.width * l.height - 15);
            assert(r.slack() == r.width * r.height - 15);
            assert(self.slack() == l.slack() + r.slack());
            assert(old(self).slack() == old(self).width * old(self).height - 15);
        }

        true
    }
}

/// The set of grid cells covered by the rectangle at `(x, y)` with the
/// given width and height.
pub open spec fn rect_cells(x: u32, y: u32, w: u32, h: u32) -> Set<(int, int)> {
    Set::new(|p: (int, int)| x <= p.0 < x + w && y <= p.1 < y + h)
}

/// A split's child rectangles exactly partition the parent's rectangle:
/// together they cover every parent cell, and they share none.
pub proof fn lemma_split_partitions_cells(parent: Leaf, l: Leaf, r: Leaf)
    requires
        parent.children_partition(l, r),
    ensures
        rect_cells(l.x, l.y, l.width, l.height).disjoint(rect_cells(r.x, r.y, r.width, r.height)),
        rect_cells(l.x, l.y, l.width, l.height).union(rect_cells(r.x, r.y, r.width, r.height))
            == rect_cells(parent.x, parent.y, parent.width, parent.height),
{
    assert(rect_cells(l.x, l.y, l.width, l.height).union(rect_cells(r.x, r.y, r.width, r.height))
        =~= rect_cells(parent.x, parent.y, parent.width, parent.height));
}

/// Horizontal center of a rectangle, where corridors attach.
pub open spec fn center_x(r: Room) -> int {
    r.x + r.w / 2
}

/// Vertical center of a rectangle, where corridors attach.
pub open spec fn center_y(r: Room) -> int {
    r.y + r.h / 2
}

/// Distance between two coordinates.
pub open spec fn dist(a: int, b: int) -> int {
    if a >= b {
        a - b
    } else {
        b - a
    }
}

/// The smaller of two coordinates.
pub open spec fn coord_min(a: int, b: int) -> int {
    if a <= b {
        a
    } else {
        b
    }
}

/// The two corridor segments `h1`, `h2` form one of the two L-shaped paths
/// joining the centers of `lr` and `rr`: a horizontal run at the left
/// center's row followed by a vertical run in the right center's column, or
/// a vertical run in the left center's column followed by a horizontal run
/// at the right center's row. Each run spans from one center's coordinate
/// to the other's inclusive, whichever is smaller, so the two runs share
/// the bend cell and cover both centers; a run is one single cell when the
/// centers align on its axis.
pub open spec fn l_path(lr: Room, rr: Room, h1: Room, h2: Room) -> bool {
    let lcx = center_x(lr);
    let lcy = center_y(lr);
    let rcx = center_x(rr);
    let rcy = center_y(rr);
    ||| {
        &&& h1.x == coord_min(lcx, rcx) && h1.y == lcy
        &&& h1.w == dist(rcx, lcx) + 1 && h1.h == 1
        &&& h2.x == rcx && h2.y == coord_min(lcy, rcy)
        &&& h2.w == 1 && h2.h == dist(rcy, lcy) + 1
    }
    ||| {
        &&& h1.x == lcx && h1.y == coord_min(lcy, rcy)
        &&& h1.w == 1 && h1.h == dist(rcy, lcy) + 1
        &&& h2.x == coord_min(lcx, rcx) && h2.y == rcy
        &&& h2.w == dist(rcx, lcx) + 1 && h2.h == 1
    }
}

impl Leaf {
    /// Any room found in a well-formed, room-resolved subtree is at least
    /// one cell on each axis and lies inside the subtree root's rectangle.
    pub proof fn lemma_has_room_within(self, r: Room)
        requires
            self.wf(),
            self.rooms_filled(),
            self.has_room(r),
        ensures
            room_within(r, self.x, self.y, self.width, self.height),
            1 <= r.w,
            1 <= r.h,
        decreases self,
    {
        if self.room == Some(r) {
        } else {
            match (self.left_child, self.right_child) {
                (Some(l), Some(rc)) => {
                    if l.has_room(r) {
                        l.lemma_has_room_within(r);
                    } else {
                        rc.lemma_has_room_within(r);
                    }
                },
                _ => {},
            }
        }
    }

    /// A representative room of this subtree: the node's own room if it has
    /// one, otherwise a room of a child subtree, picked by a coin when both
    /// children can offer one. Returns nothing exactly when the subtree
    /// holds no room at all.
    pub fn get_room(&self, rng: &mut RandomSource) -> (found: Option<Room>)
        ensures
            found.is_some() ==> self.has_room(found.unwrap()),
            found.is_some() <==> self.has_any_room(),
            self.rooms_filled() ==> found.is_some(),
        decreases *self,
    {
        if self.room.is_some() {
            return Some(self.room.unwrap());
        }
        let l_room = match &self.left_child {
            Some(l) => l.get_room(rng),
            None => None,
        };
        let r_room = match &self.right_child {
            Some(rc) => rc.get_room(rng),
            None => None,
        };
        match (l_room, r_room) {
            (None, None) => None,
            (None, Some(r)) => Some(r),
            (Some(l), None) => Some(l),
            (Some(l), Some(r)) => if rng.next_bool() {
                Some(l)
            } else {
                Some(r)
            },
        }
    }

    /// Connect the two children's rooms: pick a representative room on each
    /// side, then lay one of the two L-shaped paths joining their centers as
    /// two new corridor segments. Both centers lie in this node's rectangle,
    /// so the segments do too; each covers at least one cell even when the
    /// centers align on an axis, so the connection is never empty.
    pub fn create_halls(&mut self, rng: &mut RandomSource)
        requires
            old(self).wf(),
            old(self).left_child.is_some(),
            old(self).right_child.is_some(),
            old(self).left_child.unwrap().rooms_filled(),
            old(self).right_child.unwrap().rooms_filled(),
        ensures
            final(self).x == old(self).x,
            final(self).y == old(self).y,
            final(self).width == old(self).width,
            final(self).height == old(self).height,
            final(self).left_child == old(self).left_child,
            final(self).right_child == old(self).right_child,
            final(self).room == old(self).room,
            final(self).halls@.len() == old(self).halls@.len() + 2,
            forall|i: int|
                0 <= i < old(self).halls@.len() ==> final(self).halls@[i] == old(self).halls@[i],
            forall|i: int|
                old(self).halls@.len() <= i < final(self).halls@.len() ==> room_within(
                    #[trigger] final(self).halls@[i],
                    old(self).x,
                    old(self).y,
                    old(self).width,
                    old(self).height,
                ),
            exists|lr: Room, rr: Room|
                #![auto]
                {
                    &&& old(self).left_child.unwrap().has_room(lr)
                    &&& old(self).right_child.unwrap().has_room(rr)
                    &&& l_path(
                        lr,
                        rr,
                        final(self).halls@[old(self).halls@.len() as int],
                        final(self).halls@[old(self).halls@.len() as int + 1],
                    )
                },
    {
        let l_room = (match &self.left_child {
            Some(l) => l.get_room(rng),
            None => None,
        }).unwrap();
        let r_room = (match &self.right_child {
            Some(rc) => rc.get_room(rng),
            None => None,
        }).unwrap();

        proof {
            (*old(self).left_child.unwrap()).lemma_has_room_within(l_room);
            (*old(self).right_child.unwrap()).lemma_has_room_within(r_room);
        }

        let l_center_x = l_room.x + l_room.w / 2;
        let l_center_y = l_room.y + l_room.h / 2;
        let r_center_x = r_room.x + r_room.w / 2;
        let r_center_y = r_room.y + r_room.h / 2;

        // A room is at least one cell on each axis, so its center lies
        // strictly inside the node and both runs below stay inside it.
        proof {
            assert(l_center_x < self.x + self.width && l_center_y < self.y + self.height);
            assert(r_center_x < self.x + self.width && r_center_y < self.y + self.height);
        }

        let run_x = min_u32(l_center_x, r_center_x);
        let run_y = min_u32(l_center_y, r_center_y);
        let span_w = abs_diff(r_center_x, l_center_x) + 1;
        let span_h = abs_diff(r_center_y, l_center_y) + 1;

        let ghost base = self.halls@.len() as int;

        if rng.next_bool() {
            // move horizontally first, then vertically
            self.halls.push(Room { x: run_x, y: l_center_y, w: span_w, h: 1 });
            self.halls.push(Room { x: r_center_x, y: run_y, w: 1, h: span_h });
        } else {
            // move vertically first, then horizontally
            self.halls.push(Room { x: l_center_x, y: run_y, w: 1, h: span_h });
            self.halls.push(Room { x: run_x, y: r_center_y, w: span_w, h: 1 });
        }

        proof {
            assert(l_path(l_room, r_room, self.halls@[base], self.halls@[base + 1]));
        }
    }
}

impl Leaf {
    /// Room placer: recursively give every terminal node of the subtree a
    /// randomly sized and placed room, then connect every internal node's
    /// two children with corridor segments, clipped to the node's rectangle.
    /// It runs once, on the builder's bare output: rooms and corridors are
    /// populated in this one pass and never revisited, so a tree that
    /// already holds rooms is outside its contract.
    pub fn create_rooms(&mut self, rng: &mut RandomSource)
        requires
            old(self).wf(),
            old(self).bare(),
        ensures
            final(self).wf(),
            final(self).rooms_filled(),
            old(self).same_skeleton(*final(self)),
            final(self).x == old(self).x,
            final(self).y == old(self).y,
            final(self).width == old(self).width,
            final(self).height == old(self).height,
            final(self).left_child.is_some() <==> old(self).left_child.is_some(),
            old(self).leaves_within_max() ==> final(self).leaves_within_max(),
            old(self).nodes_at_least_min() ==> final(self).nodes_at_least_min(),
        decreases *old(self),
    {
        let left = self.left_child.take();
        let right = self.right_child.take();
        match (left, right) {
            (Some(mut l), Some(mut r)) => {
                (&mut *l).create_rooms(rng);
                (&mut *r).create_rooms(rng);
                self.left_child = Some(l);
                self.right_child = Some(r);
                self.create_halls(rng);

                // Keep every corridor segment inside this node's rectangle:
                // shift an origin that starts before the node onto its edge,
                // and truncate an extent that runs past its far edge. The
                // paths laid above run between room centers inside the node,
                // so this pass finds nothing to correct and the segments
                // come out unchanged.
                let ghost snap = *self;
                let sx = self.x;
                let sy = self.y;
                let sw = self.width;
                let sh = self.height;
                let n = self.halls.len();
                let mut i: usize = 0;
                #[verifier::loop_isolation(false)]
                while i < n
                    invariant
                        i <= n,
                        self.x == snap.x,
                        self.y == snap.y,
                        self.width == snap.width,
                        self.height == snap.height,
                        self.left_child == snap.left_child,
                        self.right_child == snap.right_child,
                        self.room == snap.room,
                        self.halls@ == snap.halls@,
                        self.halls@.len() == n,
                        forall|j: int|
                            0 <= j < n ==> room_within(#[trigger] self.halls@[j], sx, sy, sw, sh),
                    decreases n - i,
                {
                    let mut hall = self.halls[i];
                    if hall.x < sx {
                        hall.w = hall.w - (sx - hall.x);
                        hall.x = sx;
                    }
                    if hall.y < sy {
                        hall.h = hall.h - (sy - hall.y);
                        hall.y = sy;
                    }
                    if (hall.x as u64) + (hall.w as u64) > (sx as u64) + (sw as u64) {
                        hall.w = sx + sw - hall.x;
                    }
                    if (hall.y as u64) + (hall.h as u64) > (sy as u64) + (sh as u64) {
                        hall.h = sy + sh - hall.y;
                    }
                    self.halls.set(i, hall);
                    proof {
                        assert(self.halls@ =~= snap.halls@);
                    }
                    i = i + 1;
                }
            },
            (None, None) => {
                // Terminal node: a room at least the minimum room size where
                // the node is big enough, spanning the whole node otherwise,
                // placed at a random offset at which it still fits.
                let room_width: u32 = if self.width > MIN_ROOM_SIZE {
                    rng.next_below(self.width - MIN_ROOM_SIZE) + MIN_ROOM_SIZE
                } else {
                    self.width
                };
                let room_height: u32 = if self.height > MIN_ROOM_SIZE {
                    rng.next_below(self.height - MIN_ROOM_SIZE) + MIN_ROOM_SIZE
                } else {
                    self.height
                };
                let room_x: u32 = if self.width > room_width {
                    rng.next_below(self.width - room_width)
                } else {
                    0
                };
                let room_y: u32 = if self.height > room_height {
                    rng.next_below(self.height - room_height)
                } else {
                    0
                };
                self.room = Some(
                    Room { x: self.x + room_x, y: self.y + room_y, w: room_width, h: room_height },
                );
            },
            (l_opt, r_opt) => {
                // a well-formed node has both children or none
                self.left_child = l_opt;
                self.right_child = r_opt;
            },
        }
    }

    /// One breadth-first builder pass: every terminal node of the subtree
    /// splits when it is over the maximum leaf size or, for variety, on a
    /// roughly three-in-four coin. Reports whether any node split.
    pub fn split_pass(&mut self, rng: &mut RandomSource) -> (did: bool)
        requires
            old(self).wf(),
            old(self).bare(),
        ensures
            final(self).wf(),
            final(self).bare(),
            final(self).x == old(self).x,
            final(self).y == old(self).y,
            final(self).width == old(self).width,
            final(self).height == old(self).height,
            final(self).slack() <= old(self).slack(),
            did ==> final(self).slack() < old(self).slack(),
            (old(self).left_child.is_none() && old(self).width <= 2 * MIN_LEAF_SIZE && old(
                self,
            ).height <= 2 * MIN_LEAF_SIZE) ==> (!did && final(self).left_child.is_none()),
            (old(self).left_child.is_none() && (old(self).width > MAX_LEAF_SIZE || old(
                self,
            ).height > MAX_LEAF_SIZE)) ==> did,
            !did ==> final(self).leaves_within_max(),
            old(self).nodes_at_least_min() ==> final(self).nodes_at_least_min(),
        decreases *old(self),
    {
        let left = self.left_child.take();
        let right = self.right_child.take();
        match (left, right) {
            (Some(mut l), Some(mut r)) => {
                let did_l = (&mut *l).split_pass(rng);
                let did_r = (&mut *r).split_pass(rng);
                self.left_child = Some(l);
                self.right_child = Some(r);
                did_l || did_r
            },
            (None, None) => {
                if self.width > MAX_LEAF_SIZE || self.height > MAX_LEAF_SIZE || rng.next_percent()
                    > 25 {
                    self.split(rng)
                } else {
                    false
                }
            },
            (l_opt, r_opt) => {
                // a well-formed node has both children or none
                self.left_child = l_opt;
                self.right_child = r_opt;
                false
            },
        }
    }

    /// The subtree's termination measure never goes below zero.
    pub proof fn lemma_slack_nonneg(self)
        ensures
            self.slack() >= 0,
        decreases self,
    {
        match (self.left_child, self.right_child) {
            (Some(l), Some(r)) => {
                l.lemma_slack_nonneg();
                r.lemma_slack_nonneg();
            },
            _ => {},
        }
    }

    /// Once every terminal node fits within the maximum leaf size, the
    /// number of terminal nodes, and so of rooms, grows at least with the
    /// area divided by the maximum leaf area.
    pub proof fn lemma_room_count_scales(self)
        requires
            self.wf(),
            self.leaves_within_max(),
        ensures
            1 <= self.terminal_count(),
            self.terminal_count() * (MAX_LEAF_SIZE * MAX_LEAF_SIZE) >= self.width * self.height,
        decreases self,
    {
        match (self.left_child, self.right_child) {
            (Some(l), Some(r)) => {
                l.lemma_room_count_scales();
                r.lemma_room_count_scales();
                assert(l.width * l.height + r.width * r.height == self.width * self.height) by (
                nonlinear_arith)
                    requires
                        self.children_partition(*l, *r),
                ;
                assert(self.terminal_count() == l.terminal_count() + r.terminal_count());
                assert((l.terminal_count() + r.terminal_count()) * (MAX_LEAF_SIZE * MAX_LEAF_SIZE)
                    == l.terminal_count() * (MAX_LEAF_SIZE * MAX_LEAF_SIZE) + r.terminal_count() * (
                MAX_LEAF_SIZE * MAX_LEAF_SIZE)) by (nonlinear_arith);
            },
            _ => {
                assert(self.width * self.height <= MAX_LEAF_SIZE * MAX_LEAF_SIZE) by (
                nonlinear_arith)
                    requires
                        self.width <= MAX_LEAF_SIZE,
                        self.height <= MAX_LEAF_SIZE,
                ;
            },
        }
    }
}

/// Partition builder: split a root node spanning the whole grid in
/// breadth-first passes until a pass splits nothing more.
pub fn build_tree(width: u32, height: u32, rng: &mut RandomSource) -> (root: Leaf)
    requires
        1 <= width,
        1 <= height,
    ensures
        root.wf(),
        root.bare(),
        root.x == 0,
        root.y == 0,
        root.width == width,
        root.height == height,
        root.leaves_within_max(),
        (width <= 2 * MIN_LEAF_SIZE && height <= 2 * MIN_LEAF_SIZE) ==> root.left_child.is_none(),
        (MIN_LEAF_SIZE <= width && MIN_LEAF_SIZE <= height) ==> root.nodes_at_least_min(),
{
    let mut root = Leaf::new(0, 0, width, height);
    let mut did = true;
    #[verifier::loop_isolation(false)]
    while did
        invariant
            root.wf(),
            root.bare(),
            root.x == 0,
            root.y == 0,
            root.width == width,
            root.height == height,
            !did ==> root.leaves_within_max(),
            (width <= 2 * MIN_LEAF_SIZE && height <= 2 * MIN_LEAF_SIZE)
                ==> root.left_child.is_none(),
            (MIN_LEAF_SIZE <= width && MIN_LEAF_SIZE <= height) ==> root.nodes_at_least_min(),
        decreases root.slack(), (if did { 1int } else { 0int }),
    {
        proof {
            root.lemma_slack_nonneg();
        }
        did = root.split_pass(rng);
        proof {
            root.lemma_slack_nonneg();
        }
    }
    root
}

/// Distance between two coordinates, as executable code.
fn abs_diff(a: u32, b: u32) -> (d: u32)
    ensures
        d == dist(a as int, b as int),
{
    if a >= b {
        a - b
    } else {
        b - a
    }
}

/// The smaller of two coordinates, as executable code.
fn min_u32(a: u32, b: u32) -> (m: u32)
    ensures
        m == coord_min(a as int, b as int),
{
    if a <= b {
        a
    } else {
        b
    }
}

/// Cutting a rectangle in two along one axis, both parts at least the
/// minimum leaf size on the cut axis, strictly shrinks the builder's
/// termination measure.
proof fn lemma_split_slack(w: int, h: int, lw: int, lh: int, rw: int, rh: int, horizontal: bool)
    requires
        1 <= w,
        1 <= h,
        horizontal ==> lw == w && rw == w && lh + rh == h && MIN_LEAF_SIZE <= lh && MIN_LEAF_SIZE
            <= rh,
        !horizontal ==> lh == h && rh == h && lw + rw == w && MIN_LEAF_SIZE <= lw && MIN_LEAF_SIZE
            <= rw,
    ensures
        16 <= lw * lh,
        16 <= rw * rh,
        lw * lh + rw * rh == w * h,
        32 <= w * h,
{
    if horizontal {
        assert(16 <= lw * lh && 16 <= rw * rh && lw * lh + rw * rh == w * h && 32 <= w * h)
            by (nonlinear_arith)
            requires
                1 <= w,
                lw == w,
                rw == w,
                lh + rh == h,
                16 <= lh,
                16 <= rh,
        ;
    } else {
        assert(16 <= lw * lh && 16 <= rw * rh && lw * lh + rw * rh == w * h && 32 <= w * h)
            by (nonlinear_arith)
            requires
                1 <= h,
                lh == h,
                rh == h,
                lw + rw == w,
                16 <= lw,
                16 <= rw,
        ;
    }
}

} // verus!
