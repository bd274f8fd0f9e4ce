//! Dungeon floors: a grid of tiles holding rooms, stairs and the tunnels
//! between them, and the rules that lay them out and populate them.
use rand::rngs::StdRng;
use rand::Rng;
use vstd::prelude::*;

use crate::site::spawns::{Alignment, PlannedEvent};

verus! {

/// The random number generator dungeons are laid out with.
#[verifier::external_type_specification]
#[verifier::external_body]
pub struct ExStdRng(StdRng);

/// Calls `rand::Rng::gen_range` on the half-open range `low..high`: rand
/// documents a value in the range, and a panic on an empty range. Which
/// value comes depends on the generator's state, and is left unsaid.
#[verifier::external_body]
fn gen_range_i32(rng: &mut StdRng, low: i32, high: i32) -> (r: i32)
    requires
        low < high,
    ensures
        low <= r < high,
{
    rng.gen_range(low..high)
}

/// Calls `rand::Rng::gen` for a `u32`: any value may come, as the
/// generator's state decides.
#[verifier::external_body]
fn gen_u32(rng: &mut StdRng) -> u32 {
    rng.gen::<u32>()
}

/// Side of a tile, in blocks.
pub const TILE_SIZE: i32 = 13;

/// Width of a floor, in tiles.
pub const FLOOR_WIDTH: i32 = 18;

/// Depth of a floor, in tiles.
pub const FLOOR_HEIGHT: i32 = 18;

/// Number of tiles of a floor.
pub const FLOOR_TILES: usize = 324;

/// Height of the ceiling of a stair room, in blocks.
pub const STAIR_ROOM_HEIGHT: i32 = 13;

/// Largest coordinate magnitude the floor geometry works with.
pub const COORD_LIMIT: i32 = 500000000;

/// A position on the plane.
#[derive(Clone, Copy, Debug, PartialEq, Eq, Structural)]
pub struct Vec2i {
    pub x: i32,
    pub y: i32,
}

/// A rectangle: its corner and its extent.
#[derive(Clone, Copy, Debug, PartialEq, Eq, Structural)]
pub struct Rect {
    pub x: i32,
    pub y: i32,
    pub w: i32,
    pub h: i32,
}

/// What a tile of a floor is.
#[derive(Clone, Copy, Debug, PartialEq, Eq, Structural)]
pub enum Tile {
    UpStair(usize),
    DownStair(usize),
    Room(usize),
    Tunnel,
    Solid,
}

impl Tile {
    /// Whether one can walk through the tile.
    pub fn is_passable(&self) -> (b: bool)
        ensures
            b == !(*self is Solid),
    {
        match self {
            Tile::UpStair(_) | Tile::DownStair(_) | Tile::Room(_) | Tile::Tunnel => true,
            Tile::Solid => false,
        }
    }
}

/// Two rectangles overlap: on each axis each starts before the other ends.
pub open spec fn collides(a: Rect, b: Rect) -> bool {
    &&& a.x + a.w > b.x && a.x < b.x + b.w
    &&& a.y + a.h > b.y && a.y < b.y + b.h
}

/// A rectangle whose corners fit comfortably in `i32`.
pub open spec fn rect_small(r: Rect) -> bool {
    &&& -COORD_LIMIT <= r.x <= COORD_LIMIT
    &&& -COORD_LIMIT <= r.y <= COORD_LIMIT
    &&& 0 <= r.w <= COORD_LIMIT
    &&& 0 <= r.h <= COORD_LIMIT
}

impl Rect {
    /// Whether this rectangle overlaps another.
    pub fn collides_with_rect(self, other: Rect) -> (b: bool)
        requires
            rect_small(self),
            rect_small(other),
        ensures
            b == collides(self, other),
    {
        self.x + self.w > other.x && self.x < other.x + other.w && self.y + self.h > other.y && self.y < other.y
            + other.h
    }

    /// The centre of the rectangle, rounded towards zero.
    pub fn center(self) -> (c: Vec2i)
        requires
            rect_small(self),
        ensures
            c.x == trunc_half(self.x + self.x + self.w),
            c.y == trunc_half(self.y + self.y + self.h),
    {
        let sx = self.x + self.x + self.w;
        let sy = self.y + self.y + self.h;
        Vec2i { x: half_toward_zero(sx), y: half_toward_zero(sy) }
    }
}

/// Half of `v`, rounded towards zero.
pub open spec fn trunc_half(v: int) -> int {
    if v >= 0 {
        v / 2
    } else {
        -((-v) / 2)
    }
}

fn half_toward_zero(v: i32) -> (r: i32)
    requires
        v > i32::MIN,
    ensures
        r == trunc_half(v as int),
{
    if v >= 0 {
        v / 2
    } else {
        -((-v) / 2)
    }
}

/// The tile index of a block coordinate: the coordinate divided by the tile
/// size, rounded down.
pub open spec fn tile_of(v: int) -> int {
    v / (TILE_SIZE as int)
}

pub(crate) fn tile_of_exec(v: i32) -> (r: i32)
    requires
        -COORD_LIMIT <= v <= COORD_LIMIT,
    ensures
        r == tile_of(v as int),
{
    if v >= 0 {
        v / TILE_SIZE
    } else {
        let n = -v - 1;
        let q = n / TILE_SIZE;
        proof {
            assert(tile_of(v as int) == -q - 1);
        }
        -q - 1
    }
}

/// The eight neighbouring directions, straight ones first.
pub open spec fn dir(k: int) -> Vec2i {
    if k == 0 {
        Vec2i { x: 0i32, y: 1i32 }
    } else if k == 1 {
        Vec2i { x: 1i32, y: 0i32 }
    } else if k == 2 {
        Vec2i { x: 0i32, y: -1i32 }
    } else if k == 3 {
        Vec2i { x: -1i32, y: 0i32 }
    } else if k == 4 {
        Vec2i { x: 1i32, y: 1i32 }
    } else if k == 5 {
        Vec2i { x: 1i32, y: -1i32 }
    } else if k == 6 {
        Vec2i { x: -1i32, y: 1i32 }
    } else {
        Vec2i { x: -1i32, y: -1i32 }
    }
}

fn dir_exec(k: usize) -> (d: Vec2i)
    requires
        k < 8,
    ensures
        d == dir(k as int),
{
    match k {
        0 => Vec2i { x: 0, y: 1 },
        1 => Vec2i { x: 1, y: 0 },
        2 => Vec2i { x: 0, y: -1 },
        3 => Vec2i { x: -1, y: 0 },
        4 => Vec2i { x: 1, y: 1 },
        5 => Vec2i { x: 1, y: -1 },
        6 => Vec2i { x: -1, y: 1 },
        _ => Vec2i { x: -1, y: -1 },
    }
}

pub open spec fn clamp_i(v: int, lo: int, hi: int) -> int {
    if v < lo {
        lo
    } else if v > hi {
        hi
    } else {
        v
    }
}

pub open spec fn dist2(a: Vec2i, b: Vec2i) -> int {
    (a.x - b.x) * (a.x - b.x) + (a.y - b.y) * (a.y - b.y)
}

/// A room of a floor: where it lies and what it holds. How densely loot
/// and enemies are strewn over it grows with the floor's level (and, in the
/// boss room, with the difficulty); a room records whether it has any.
#[derive(Clone, Copy, Debug, PartialEq, Eq, Structural)]
pub struct Room {
    pub seed: u32,
    pub has_loot: bool,
    pub has_enemies: bool,
    pub miniboss: bool,
    pub boss: bool,
    pub area: Rect,
    pub height: i32,
    pub pillars: Option<i32>,
    pub difficulty: u32,
}

/// A floor of a dungeon: its tiles, its rooms (a room's id is its place
/// among them), and its layout.
pub struct Floor {
    pub tile_offset: Vec2i,
    pub tiles: Vec<Tile>,
    pub rooms: Vec<Room>,
    pub solid_depth: i32,
    pub hollow_depth: i32,
    pub stair_tile: Vec2i,
    pub final_level: bool,
    pub difficulty: u32,
}

impl Floor {
    /// The tiles, row by row.
    pub open spec fn tiles_view(&self) -> Seq<Tile> {
        self.tiles@
    }

    /// The areas of the rooms, by id.
    pub open spec fn rooms_view(&self) -> Seq<Rect> {
        Seq::new(self.rooms@.len(), |i: int| self.rooms@[i].area)
    }

    /// The rooms, by id.
    pub open spec fn rooms_info(&self) -> Seq<Room> {
        self.rooms@
    }

    pub open spec fn wf(&self) -> bool {
        &&& self.tiles_view().len() == FLOOR_TILES
        &&& forall|r: int| 0 <= r < self.rooms_view().len() ==> rect_small(#[trigger] self.rooms_view()[r])
    }

    /// Whether this floor has the same offset, depths, stairs and difficulty
    /// as `other`.
    pub open spec fn keeps_layout(&self, other: &Floor) -> bool {
        &&& self.tile_offset == other.tile_offset
        &&& self.solid_depth == other.solid_depth
        &&& self.hollow_depth == other.hollow_depth
        &&& self.stair_tile == other.stair_tile
        &&& self.final_level == other.final_level
        &&& self.difficulty == other.difficulty
    }

    /// Whether a tile position lies on the floor.
    pub open spec fn in_grid(pos: Vec2i) -> bool {
        0 <= pos.x < FLOOR_WIDTH && 0 <= pos.y < FLOOR_HEIGHT
    }

    /// The tile at a position, if it lies on the floor.
    pub open spec fn tile(&self, pos: Vec2i) -> Option<Tile> {
        if Self::in_grid(pos) {
            Some(self.tiles_view()[pos.y * FLOOR_WIDTH + pos.x])
        } else {
            None
        }
    }

    /// A floor of solid rock without rooms.
    pub fn new(
        tile_offset: Vec2i,
        solid_depth: i32,
        hollow_depth: i32,
        stair_tile: Vec2i,
        final_level: bool,
        difficulty: u32,
    ) -> (r: Floor)
        ensures
            r.wf(),
            forall|pos: Vec2i| Self::in_grid(pos) ==> #[trigger] r.tile(pos) == Some(Tile::Solid),
            r.rooms_view().len() == 0,
            r.tile_offset == tile_offset && r.solid_depth == solid_depth && r.hollow_depth == hollow_depth,
            r.stair_tile == stair_tile && r.final_level == final_level && r.difficulty == difficulty,
    {
        let mut tiles: Vec<Tile> = Vec::new();
        let mut i: usize = 0;
        while i < FLOOR_TILES
            invariant
                i <= FLOOR_TILES,
                tiles@.len() == i,
                forall|k: int| 0 <= k < i ==> tiles@[k] == Tile::Solid,
            decreases FLOOR_TILES - i,
        {
            tiles.push(Tile::Solid);
            i += 1;
        }
        let r = Floor {
            tile_offset,
            tiles,
            rooms: Vec::new(),
            solid_depth,
            hollow_depth,
            stair_tile,
            final_level,
            difficulty,
        };
        proof {
            assert forall|pos: Vec2i| Self::in_grid(pos) implies #[trigger] r.tile(pos) == Some(Tile::Solid) by {
                lemma_grid_index(pos);
            }
        }
        r
    }

    /// The tile at a position, if it lies on the floor.
    pub fn get(&self, pos: Vec2i) -> (r: Option<Tile>)
        requires
            self.wf(),
        ensures
            r == self.tile(pos),
    {
        if 0 <= pos.x && pos.x < FLOOR_WIDTH && 0 <= pos.y && pos.y < FLOOR_HEIGHT {
            proof {
                lemma_grid_index(pos);
            }
            Some(self.tiles[(pos.y * FLOOR_WIDTH + pos.x) as usize])
        } else {
            None
        }
    }

    /// What stepping onto a tile costs a route between rooms: one for a
    /// room or a tunnel, 25 for solid rock, nothing for stairs, and 100000
    /// off the floor.
    pub open spec fn route_step_cost_spec(t: Option<Tile>) -> u32 {
        match t {
            Some(Tile::Room(_)) | Some(Tile::Tunnel) => 1,
            Some(Tile::Solid) => 25,
            Some(Tile::UpStair(_)) | Some(Tile::DownStair(_)) => 0,
            None => 100000,
        }
    }

    /// What stepping onto the tile at `to` costs a route between rooms.
    pub fn route_step_cost(&self, to: Vec2i) -> (c: u32)
        requires
            self.wf(),
        ensures
            c == Self::route_step_cost_spec(self.tile(to)),
    {
        match self.get(to) {
            Some(Tile::Room(_)) | Some(Tile::Tunnel) => 1,
            Some(Tile::Solid) => 25,
            Some(Tile::UpStair(_)) | Some(Tile::DownStair(_)) => 0,
            None => 100000,
        }
    }

    /// What a route along `path` costs: each step onto the next tile costs
    /// what stepping onto that tile does; the first tile, where the route
    /// starts, costs nothing.
    pub open spec fn route_cost_spec(&self, path: Seq<Vec2i>) -> int
        decreases path.len(),
    {
        if path.len() <= 1 {
            0
        } else {
            self.route_cost_spec(path.drop_last()) + Self::route_step_cost_spec(self.tile(path.last()))
        }
    }

    /// What a route along `path` costs, the sum a search for the cheapest
    /// route between two rooms makes least.
    pub fn route_cost(&self, path: &Vec<Vec2i>) -> (c: u64)
        requires
            self.wf(),
            path@.len() <= u32::MAX,
        ensures
            c == self.route_cost_spec(path@),
    {
        let mut c: u64 = 0;
        let mut i: usize = 1;
        if path.len() <= 1 {
            return 0;
        }
        while i < path.len()
            invariant
                self.wf(),
                1 <= i <= path@.len() <= u32::MAX,
                c == self.route_cost_spec(path@.take(i as int)),
                c <= 100000 * i,
            decreases path@.len() - i,
        {
            proof {
                assert(path@.take(i + 1).drop_last() =~= path@.take(i as int));
                assert(path@.take(i + 1).last() == path@[i as int]);
            }
            c = c + self.route_step_cost(path[i]) as u64;
            i += 1;
        }
        proof {
            assert(path@.take(path@.len() as int) =~= path@);
        }
        c
    }

    /// The first `k` straight neighbours of `l` (up, right, down, left) that
    /// lie on the floor, in that order.
    pub open spec fn route_neighbors_upto(l: Vec2i, k: int) -> Seq<Vec2i>
        decreases k,
    {
        if k <= 0 {
            Seq::empty()
        } else {
            let n = Vec2i { x: (l.x + dir(k - 1).x) as i32, y: (l.y + dir(k - 1).y) as i32 };
            Self::route_neighbors_upto(l, k - 1) + if Self::in_grid(n) {
                seq![n]
            } else {
                Seq::empty()
            }
        }
    }

    /// The tiles a route may step to from `l`: its four straight neighbours
    /// that lie on the floor, up, right, down and left.
    pub fn route_neighbors(l: Vec2i) -> (r: Vec<Vec2i>)
        requires
            -COORD_LIMIT <= l.x <= COORD_LIMIT,
            -COORD_LIMIT <= l.y <= COORD_LIMIT,
        ensures
            r@ == Self::route_neighbors_upto(l, 4),
    {
        let mut r: Vec<Vec2i> = Vec::new();
        let mut k: usize = 0;
        while k < 4
            invariant
                k <= 4,
                -COORD_LIMIT <= l.x <= COORD_LIMIT,
                -COORD_LIMIT <= l.y <= COORD_LIMIT,
                r@ == Self::route_neighbors_upto(l, k as int),
            decreases 4 - k,
        {
            let d = dir_exec(k);
            let n = Vec2i { x: l.x + d.x, y: l.y + d.y };
            if 0 <= n.x && n.x < FLOOR_WIDTH && 0 <= n.y && n.y < FLOOR_HEIGHT {
                r.push(n);
            }
            proof {
                assert(Self::route_neighbors_upto(l, k + 1) =~= r@);
            }
            k += 1;
        }
        r
    }

    /// How far a route from `l` has at least still to go to `b`: the larger
    /// of the distances along the two axes.
    pub fn route_heuristic(l: Vec2i, b: Vec2i) -> (h: u32)
        requires
            -COORD_LIMIT <= l.x <= COORD_LIMIT,
            -COORD_LIMIT <= l.y <= COORD_LIMIT,
            -COORD_LIMIT <= b.x <= COORD_LIMIT,
            -COORD_LIMIT <= b.y <= COORD_LIMIT,
        ensures
            h as int == if abs_i(l.x - b.x) >= abs_i(l.y - b.y) {
                abs_i(l.x - b.x)
            } else {
                abs_i(l.y - b.y)
            },
    {
        let dx = if l.x >= b.x {
            (l.x - b.x) as u32
        } else {
            (b.x - l.x) as u32
        };
        let dy = if l.y >= b.y {
            (l.y - b.y) as u32
        } else {
            (b.y - l.y) as u32
        };
        if dx >= dy {
            dx
        } else {
            dy
        }
    }

    /// Replaces the tile at a position lying on the floor; gives the tile
    /// replaced, or `None` (changing nothing) when the position is off the
    /// floor.
    pub fn set(&mut self, pos: Vec2i, tile: Tile) -> (r: Option<Tile>)
        requires
            old(self).wf(),
        ensures
            final(self).wf(),
            r == old(self).tile(pos),
            final(self).rooms_info() == old(self).rooms_info(),
            final(self).keeps_layout(old(self)),
            forall|p: Vec2i|
                #[trigger] final(self).tile(p) == if p == pos && Self::in_grid(pos) {
                    Some(tile)
                } else {
                    old(self).tile(p)
                },
    {
        if 0 <= pos.x && pos.x < FLOOR_WIDTH && 0 <= pos.y && pos.y < FLOOR_HEIGHT {
            proof {
                lemma_grid_index(pos);
            }
            let idx = (pos.y * FLOOR_WIDTH + pos.x) as usize;
            let previous = self.tiles[idx];
            self.tiles.set(idx, tile);
            proof {
                assert(self.rooms_info() == old(self).rooms_info());
                assert(self.rooms_view() =~= old(self).rooms_view());
                assert(self.tiles_view().len() == FLOOR_TILES);
                assert forall|p: Vec2i| #[trigger] self.tile(p) == if p == pos && Self::in_grid(pos) {
                    Some(tile)
                } else {
                    old(self).tile(p)
                } by {
                    if Self::in_grid(p) {
                        lemma_grid_index(p);
                        if p != pos {
                            lemma_grid_distinct(p, pos);
                        }
                    }
                }
            }
            Some(previous)
        } else {
            None
        }
    }

    /// Adds a room and marks the tiles of its area on the floor as belonging
    /// to it; gives the room's id.
    pub fn create_room(&mut self, room: Room) -> (id: usize)
        requires
            old(self).wf(),
            old(self).rooms_view().len() < usize::MAX,
            rect_small(room.area),
            room.area.w <= FLOOR_WIDTH + 2,
            room.area.h <= FLOOR_HEIGHT + 2,
        ensures
            final(self).wf(),
            id == old(self).rooms_view().len(),
            final(self).rooms_info() == old(self).rooms_info().push(room),
            final(self).rooms_view() == old(self).rooms_view().push(room.area),
            final(self).keeps_layout(old(self)),
            forall|p: Vec2i|
                #[trigger] final(self).tile(p) == if Self::in_rect(room.area, p) && Self::in_grid(p) {
                    Some(Tile::Room(id))
                } else {
                    old(self).tile(p)
                },
    {
        let area = room.area;
        let id = self.rooms.len();
        self.rooms.push(room);
        proof {
            assert(self.rooms_view() =~= old(self).rooms_view().push(area));
        }
        let ghost start = *self;
        let mut x: i32 = 0;
        while x < area.w
            invariant
                self.wf(),
                0 <= x <= area.w,
                rect_small(area),
                area.w <= FLOOR_WIDTH + 2,
                area.h <= FLOOR_HEIGHT + 2,
                self.rooms_info() == start.rooms_info(),
                self.keeps_layout(&start),
                forall|p: Vec2i|
                    #[trigger] self.tile(p) == if area.x <= p.x < area.x + x && area.y <= p.y < area.y + area.h
                        && Self::in_grid(p) {
                        Some(Tile::Room(id))
                    } else {
                        start.tile(p)
                    },
            decreases area.w - x,
        {
            let mut y: i32 = 0;
            while y < area.h
                invariant
                    self.wf(),
                    0 <= x < area.w,
                    0 <= y <= area.h,
                    rect_small(area),
                    area.w <= FLOOR_WIDTH + 2,
                    area.h <= FLOOR_HEIGHT + 2,
                    self.rooms_info() == start.rooms_info(),
                    self.keeps_layout(&start),
                    forall|p: Vec2i|
                        #[trigger] self.tile(p) == if ((area.x <= p.x < area.x + x && area.y <= p.y < area.y + area.h) || (
                        p.x == area.x + x && area.y <= p.y < area.y + y)) && Self::in_grid(p) {
                            Some(Tile::Room(id))
                        } else {
                            start.tile(p)
                        },
                decreases area.h - y,
            {
                let _ = self.set(Vec2i { x: area.x + x, y: area.y + y }, Tile::Room(id));
                y += 1;
            }
            x += 1;
        }
        id
    }

    /// Tries a room of extent `size` at `pos`: it is placed when no room of
    /// the floor overlaps it with a margin of one tile on every side.
    pub fn try_place_room(&self, pos: Vec2i, size: Vec2i) -> (r: Option<Rect>)
        requires
            self.wf(),
            -COORD_LIMIT + 1 <= pos.x <= COORD_LIMIT - 1,
            -COORD_LIMIT + 1 <= pos.y <= COORD_LIMIT - 1,
            0 <= size.x <= COORD_LIMIT - 2,
            0 <= size.y <= COORD_LIMIT - 2,
        ensures
            ({
                let border = Rect { x: (pos.x - 1) as i32, y: (pos.y - 1) as i32, w: (size.x + 2) as i32, h: (size.y + 2) as i32 };
                &&& (exists|k: int| 0 <= k < self.rooms_view().len() && collides(#[trigger] self.rooms_view()[k], border))
                    ==> r is None
                &&& !(exists|k: int| 0 <= k < self.rooms_view().len() && collides(#[trigger] self.rooms_view()[k], border))
                    ==> r == Some(Rect { x: pos.x, y: pos.y, w: size.x, h: size.y })
            }),
    {
        let area = Rect { x: pos.x, y: pos.y, w: size.x, h: size.y };
        let border = Rect { x: pos.x - 1, y: pos.y - 1, w: size.x + 2, h: size.y + 2 };
        let mut k: usize = 0;
        while k < self.rooms.len()
            invariant
                self.wf(),
                k <= self.rooms_view().len(),
                rect_small(border),
                border == (Rect { x: (pos.x - 1) as i32, y: (pos.y - 1) as i32, w: (size.x + 2) as i32, h: (size.y + 2) as i32 }),
                forall|q: int| 0 <= q < k ==> !collides(#[trigger] self.rooms_view()[q], border),
            decreases self.rooms_view().len() - k,
        {
            proof {
                assert(rect_small(self.rooms_view()[k as int]));
            }
            if self.rooms[k].area.collides_with_rect(border) {
                return None;
            }
            k += 1;
        }
        Some(area)
    }

    /// An area a new room may be tried at: three to five tiles a side, lying
    /// on the floor.
    pub open spec fn room_candidate(a: Rect) -> bool {
        &&& 3 <= a.w < 6 && 3 <= a.h < 6
        &&& 0 <= a.x && a.x + a.w <= FLOOR_WIDTH && 0 <= a.y && a.y + a.h <= FLOOR_HEIGHT
    }

    /// Every area a new room may be tried at keeps a margin of one tile from
    /// each of `rooms`: wherever a try lands, it succeeds.
    pub open spec fn every_candidate_clear(rooms: Seq<Rect>) -> bool {
        forall|a: Rect, k: int|
            #![trigger Self::room_candidate(a), rooms[k]]
            Self::room_candidate(a) && 0 <= k < rooms.len() ==> !collides(rooms[k], Self::margin(a))
    }

    /// Looks for a place for a new room, trying up to 64 random rooms of
    /// three to five tiles a side lying on the floor, and gives the first
    /// that keeps a margin of one tile from every room. No place is found
    /// only when some try collided, so never when every possible try is
    /// clear (on a floor without rooms, for one).
    pub fn random_room_area(&self, rng: &mut StdRng) -> (r: Option<Rect>)
        requires
            self.wf(),
        ensures
            r is None ==> !Self::every_candidate_clear(self.rooms_view()),
            r is Some ==> {
                let a = r.unwrap();
                &&& 3 <= a.w < 6 && 3 <= a.h < 6
                &&& 0 <= a.x && a.x + a.w <= FLOOR_WIDTH && 0 <= a.y && a.y + a.h <= FLOOR_HEIGHT
                &&& forall|k: int|
                    0 <= k < self.rooms_view().len() ==> !collides(
                        #[trigger] self.rooms_view()[k],
                        Rect { x: (a.x - 1) as i32, y: (a.y - 1) as i32, w: (a.w + 2) as i32, h: (a.h + 2) as i32 },
                    )
            },
    {
        let mut attempt: usize = 0;
        while attempt < 64
            invariant
                self.wf(),
                attempt > 0 ==> !Self::every_candidate_clear(self.rooms_view()),
            decreases 64 - attempt,
        {
            let w = gen_range_i32(rng, 3, 6);
            let h = gen_range_i32(rng, 3, 6);
            let x = gen_range_i32(rng, 0, FLOOR_WIDTH + 1 - w);
            let y = gen_range_i32(rng, 0, FLOOR_HEIGHT + 1 - h);
            match self.try_place_room(Vec2i { x, y }, Vec2i { x: w, y: h }) {
                Some(area) => {
                    return Some(area);
                },
                None => {
                    proof {
                        let a = Rect { x, y, w, h };
                        let k = choose|k: int|
                            0 <= k < self.rooms_view().len() && collides(
                                #[trigger] self.rooms_view()[k],
                                Rect {
                                    x: (x - 1) as i32,
                                    y: (y - 1) as i32,
                                    w: (w + 2) as i32,
                                    h: (h + 2) as i32,
                                },
                            );
                        assert(Self::room_candidate(a));
                        assert(Self::margin(a) == Rect {
                            x: (x - 1) as i32,
                            y: (y - 1) as i32,
                            w: (w + 2) as i32,
                            h: (h + 2) as i32,
                        });
                        assert(collides(self.rooms_view()[k], Self::margin(a)));
                    }
                },
            }
            attempt += 1;
        }
        None
    }

    /// The margin of one tile around an area that no other room may touch.
    pub open spec fn margin(a: Rect) -> Rect {
        Rect { x: (a.x - 1) as i32, y: (a.y - 1) as i32, w: (a.w + 2) as i32, h: (a.h + 2) as i32 }
    }

    /// The room with id `i` among `rooms` is one that `create_rooms` may
    /// add on a floor of a difficulty: three to five tiles a side, on the
    /// floor, clear by a margin of one tile of every room before it, with
    /// loot; either a miniboss room (fifteen to nineteen blocks high, pillars
    /// four tiles apart, no enemies strewn about) or a room with enemies (ten
    /// to fourteen blocks high, with or without pillars four tiles apart).
    pub open spec fn generated_room(rooms: Seq<Room>, i: int, difficulty: u32) -> bool {
        let r = rooms[i];
        &&& 3 <= r.area.w < 6 && 3 <= r.area.h < 6
        &&& 0 <= r.area.x && r.area.x + r.area.w <= FLOOR_WIDTH
        &&& 0 <= r.area.y && r.area.y + r.area.h <= FLOOR_HEIGHT
        &&& forall|k: int| 0 <= k < i ==> !collides(#[trigger] rooms[k].area, Self::margin(r.area))
        &&& r.has_loot && !r.boss && r.difficulty == difficulty
        &&& if r.miniboss {
            &&& !r.has_enemies && 15 <= r.height < 20 && r.pillars == Some(4i32)
        } else {
            &&& r.has_enemies && 10 <= r.height < 15 && (r.pillars is None || r.pillars == Some(4i32))
        }
    }

    /// Adds up to `n` rooms at random places (see `random_room_area`) and
    /// marks their tiles; stops at the first room for which no place is
    /// found, which can only happen once some place a room may be tried at
    /// collides with the rooms already there. A roll of one in five on
    /// `dynamic_rng` makes a room a miniboss room; everything else about the
    /// rooms is drawn from `rng`.
    pub fn create_rooms(&mut self, rng: &mut StdRng, dynamic_rng: &mut StdRng, n: usize)
        requires
            old(self).wf(),
            old(self).rooms_view().len() + n < usize::MAX,
        ensures
            final(self).wf(),
            final(self).keeps_layout(old(self)),
            old(self).rooms_info().len() <= final(self).rooms_info().len() <= old(self).rooms_info().len() + n,
            final(self).rooms_info().len() < old(self).rooms_info().len() + n ==> !Self::every_candidate_clear(
                final(self).rooms_view(),
            ),
            final(self).rooms_info().take(old(self).rooms_info().len() as int) == old(self).rooms_info(),
            forall|i: int|
                old(self).rooms_info().len() <= i < final(self).rooms_info().len() ==> #[trigger] Self::generated_room(
                    final(self).rooms_info(),
                    i,
                    old(self).difficulty,
                ),
            forall|p: Vec2i|
                (forall|i: int|
                    old(self).rooms_info().len() <= i < final(self).rooms_info().len() ==> !Self::in_rect(
                        #[trigger] final(self).rooms_info()[i].area,
                        p,
                    )) ==> #[trigger] final(self).tile(p) == old(self).tile(p),
            forall|i: int, p: Vec2i|
                old(self).rooms_info().len() <= i < final(self).rooms_info().len() && Self::in_rect(
                    #[trigger] final(self).rooms_info()[i].area,
                    p,
                ) && Self::in_grid(p) ==> #[trigger] final(self).tile(p) == Some(Tile::Room(i as usize)),
            old(self).supplement_ready() ==> final(self).supplement_ready(),
    {
        let ghost start = *self;
        let ghost base = start.rooms_info().len();
        let mut made: usize = 0;
        while made < n
            invariant
                self.wf(),
                start == *old(self),
                self.keeps_layout(&start),
                made <= n,
                start.rooms_view().len() + n < usize::MAX,
                base == start.rooms_info().len(),
                self.rooms_info().len() == base + made,
                self.rooms_info().take(base as int) == start.rooms_info(),
                forall|i: int|
                    base <= i < self.rooms_info().len() ==> #[trigger] Self::generated_room(
                        self.rooms_info(),
                        i,
                        start.difficulty,
                    ),
                forall|p: Vec2i|
                    (forall|i: int|
                        base <= i < self.rooms_info().len() ==> !Self::in_rect(#[trigger] self.rooms_info()[i].area, p))
                        ==> #[trigger] self.tile(p) == start.tile(p),
                forall|i: int, p: Vec2i|
                    base <= i < self.rooms_info().len() && Self::in_rect(#[trigger] self.rooms_info()[i].area, p)
                        && Self::in_grid(p) ==> #[trigger] self.tile(p) == Some(Tile::Room(i as usize)),
            decreases n - made,
        {
            let area = match self.random_room_area(rng) {
                Some(area) => area,
                None => {
                    proof {
                        if start.supplement_ready() {
                            Self::lemma_rooms_added_ready(start, *self);
                        }
                    }
                    return;
                },
            };
            let room = if gen_range_i32(dynamic_rng, 0, 5) == 0 {
                let seed = gen_u32(rng);
                let height = gen_range_i32(rng, 15, 20);
                Room {
                    seed,
                    has_loot: true,
                    has_enemies: false,
                    miniboss: true,
                    boss: false,
                    area,
                    height,
                    pillars: Some(4),
                    difficulty: self.difficulty,
                }
            } else {
                let seed = gen_u32(rng);
                let height = gen_range_i32(rng, 10, 15);
                let pillars = if gen_range_i32(rng, 0, 4) == 0 {
                    Some(4)
                } else {
                    None
                };
                Room {
                    seed,
                    has_loot: true,
                    has_enemies: true,
                    miniboss: false,
                    boss: false,
                    area,
                    height,
                    pillars,
                    difficulty: self.difficulty,
                }
            };
            let ghost before = *self;
            let id = self.create_room(room);
            proof {
                let rooms = self.rooms_info();
                assert(rooms.take(base as int) =~= before.rooms_info().take(base as int));
                assert forall|k: int| 0 <= k < id implies !collides(#[trigger] rooms[k].area, area) by {
                    assert(rooms[k] == before.rooms_info()[k]);
                    assert(before.rooms_view()[k] == rooms[k].area);
                }
                assert forall|i: int| base <= i < rooms.len() implies #[trigger] Self::generated_room(
                    rooms,
                    i,
                    start.difficulty,
                ) by {
                    if i < id {
                        assert(Self::generated_room(before.rooms_info(), i, start.difficulty));
                        assert forall|k: int| 0 <= k < i implies !collides(
                            #[trigger] rooms[k].area,
                            Self::margin(rooms[i].area),
                        ) by {
                            assert(rooms[k] == before.rooms_info()[k]);
                        }
                    } else {
                        assert forall|k: int| 0 <= k < i implies !collides(
                            #[trigger] rooms[k].area,
                            Self::margin(rooms[i].area),
                        ) by {
                            assert(rooms[k] == before.rooms_info()[k]);
                            assert(before.rooms_view()[k] == rooms[k].area);
                        }
                    }
                }
                assert forall|p: Vec2i|
                    (forall|i: int| base <= i < rooms.len() ==> !Self::in_rect(#[trigger] rooms[i].area, p))
                        implies #[trigger] self.tile(p) == start.tile(p) by {
                    assert(!Self::in_rect(rooms[id as int].area, p));
                    assert forall|i: int| base <= i < before.rooms_info().len() implies !Self::in_rect(
                        #[trigger] before.rooms_info()[i].area,
                        p,
                    ) by {
                        assert(rooms[i] == before.rooms_info()[i]);
                    }
                }
                assert forall|i: int, p: Vec2i|
                    base <= i < rooms.len() && Self::in_rect(#[trigger] rooms[i].area, p) && Self::in_grid(p)
                        implies #[trigger] self.tile(p) == Some(Tile::Room(i as usize)) by {
                    if i < id {
                        assert(rooms[i] == before.rooms_info()[i]);
                        if Self::in_rect(area, p) {
                            assert(collides(rooms[i].area, area));
                        }
                    }
                }
            }
            made += 1;
        }
        proof {
            if start.supplement_ready() {
                Self::lemma_rooms_added_ready(start, *self);
            }
        }
    }

    /// Adding rooms as `create_rooms` does keeps a floor ready to be
    /// populated.
    proof fn lemma_rooms_added_ready(pre: Floor, post: Floor)
        requires
            pre.supplement_ready(),
            post.wf(),
            post.keeps_layout(&pre),
            pre.rooms_info().len() <= post.rooms_info().len(),
            post.rooms_info().take(pre.rooms_info().len() as int) == pre.rooms_info(),
            forall|i: int|
                pre.rooms_info().len() <= i < post.rooms_info().len() ==> #[trigger] Self::generated_room(
                    post.rooms_info(),
                    i,
                    pre.difficulty,
                ),
            forall|p: Vec2i|
                (forall|i: int|
                    pre.rooms_info().len() <= i < post.rooms_info().len() ==> !Self::in_rect(
                        #[trigger] post.rooms_info()[i].area,
                        p,
                    )) ==> #[trigger] post.tile(p) == pre.tile(p),
            forall|i: int, p: Vec2i|
                pre.rooms_info().len() <= i < post.rooms_info().len() && Self::in_rect(
                    #[trigger] post.rooms_info()[i].area,
                    p,
                ) && Self::in_grid(p) ==> #[trigger] post.tile(p) == Some(Tile::Room(i as usize)),
        ensures
            post.supplement_ready(),
    {
        let n = pre.rooms_info().len();
        lemma_room_ids_by_index(pre, n);
        assert forall|p: Vec2i|
            #![trigger post.tile(p)]
            Self::in_grid(p) implies (post.tile(p) matches Some(Tile::Room(r)) ==> r
                < post.rooms_info().len()) by {
            if exists|i: int| n <= i < post.rooms_info().len() && #[trigger] Self::in_rect(post.rooms_info()[i].area, p) {
                let i = choose|i: int| n <= i < post.rooms_info().len() && #[trigger] Self::in_rect(post.rooms_info()[i].area, p);
                assert(post.tile(p) == Some(Tile::Room(i as usize)));
            } else {
                assert(post.tile(p) == pre.tile(p));
                assert(pre.tile(p) matches Some(Tile::Room(r)) ==> r < n);
            }
        }
        lemma_room_ids_by_position(post, post.rooms_info().len());
        assert forall|r: int|
            #![trigger post.rooms_info()[r]]
            0 <= r < post.rooms_info().len() implies {
                let room = post.rooms_info()[r];
                &&& -2000 <= room.area.x <= 2000 && -2000 <= room.area.y <= 2000
                &&& 0 <= room.area.w <= 1000 && 0 <= room.area.h <= 1000
                &&& room.pillars is Some ==> room.pillars.unwrap() > 0
            } by {
            if r < n {
                assert(post.rooms_info()[r] == post.rooms_info().take(n as int)[r]);
                assert(pre.rooms_info()[r] == post.rooms_info()[r]);
            } else {
                assert(Self::generated_room(post.rooms_info(), r, pre.difficulty));
            }
        }
    }

    /// Turns the solid tiles along a route into tunnel.
    pub fn tunnel_path(&mut self, path: &Vec<Vec2i>)
        requires
            old(self).wf(),
        ensures
            final(self).wf(),
            final(self).rooms_info() == old(self).rooms_info(),
            final(self).keeps_layout(old(self)),
            forall|p: Vec2i|
                #[trigger] final(self).tile(p) == if path@.contains(p) && old(self).tile(p) == Some(Tile::Solid) {
                    Some(Tile::Tunnel)
                } else {
                    old(self).tile(p)
                },
            old(self).supplement_ready() ==> final(self).supplement_ready(),
    {
        let ghost start = *self;
        let mut i: usize = 0;
        while i < path.len()
            invariant
                self.wf(),
                i <= path@.len(),
                self.rooms_info() == start.rooms_info(),
                self.keeps_layout(&start),
                forall|p: Vec2i|
                    #[trigger] self.tile(p) == if path@.take(i as int).contains(p) && start.tile(p) == Some(Tile::Solid) {
                        Some(Tile::Tunnel)
                    } else {
                        start.tile(p)
                    },
            decreases path@.len() - i,
        {
            let pos = path[i];
            let ghost before = *self;
            match self.get(pos) {
                Some(Tile::Solid) => {
                    let _ = self.set(pos, Tile::Tunnel);
                },
                _ => {},
            }
            proof {
                assert forall|p: Vec2i| #[trigger] self.tile(p) == if path@.take(i + 1).contains(p) && start.tile(p)
                    == Some(Tile::Solid) {
                    Some(Tile::Tunnel)
                } else {
                    start.tile(p)
                } by {
                    assert(path@.take(i + 1) =~= path@.take(i as int).push(pos));
                    if p == pos {
                        assert(path@.take(i + 1)[i as int] == pos);
                    } else {
                        assert(path@.take(i + 1).contains(p) ==> path@.take(i as int).contains(p)) by {
                            if path@.take(i + 1).contains(p) {
                                let q = choose|q: int| 0 <= q < i + 1 && #[trigger] path@.take(i + 1)[q] == p;
                                assert(path@.take(i as int)[q] == p);
                            }
                        }
                        assert(path@.take(i as int).contains(p) ==> path@.take(i + 1).contains(p)) by {
                            if path@.take(i as int).contains(p) {
                                let q = choose|q: int| 0 <= q < i && #[trigger] path@.take(i as int)[q] == p;
                                assert(path@.take(i + 1)[q] == p);
                            }
                        }
                    }
                }
            }
            i += 1;
        }
        proof {
            assert(path@.take(path@.len() as int) =~= path@);
            if start.supplement_ready() {
                lemma_room_ids_by_index(start, start.rooms_info().len());
                assert forall|p: Vec2i|
                    #![trigger self.tile(p)]
                    Self::in_grid(p) implies (self.tile(p) matches Some(Tile::Room(r)) ==> r
                        < self.rooms_info().len()) by {
                    assert(start.tile(p) matches Some(Tile::Room(r)) ==> r < start.rooms_info().len());
                }
                lemma_room_ids_by_position(*self, self.rooms_info().len());
                assert forall|r: int|
                    #![trigger self.rooms_info()[r]]
                    0 <= r < self.rooms_info().len() implies {
                        let room = self.rooms_info()[r];
                        &&& -2000 <= room.area.x <= 2000 && -2000 <= room.area.y <= 2000
                        &&& 0 <= room.area.w <= 1000 && 0 <= room.area.h <= 1000
                        &&& room.pillars is Some ==> room.pillars.unwrap() > 0
                    } by {
                    assert(self.rooms_info()[r] == start.rooms_info()[r]);
                }
            }
        }
    }

    /// The point of the tile in direction `k` from the tile holding `rpos`
    /// that is nearest to `rpos`, when that tile is off the floor or cannot
    /// be walked through.
    pub open spec fn wall_candidate(&self, rpos: Vec2i, k: int) -> Option<Vec2i> {
        let t = Vec2i {
            x: (tile_of(rpos.x as int) + dir(k).x) as i32,
            y: (tile_of(rpos.y as int) + dir(k).y) as i32,
        };
        let open = match self.tile(t) {
            Some(tile) => !(tile is Solid),
            None => false,
        };
        if open {
            None
        } else {
            Some(
                Vec2i {
                    x: clamp_i(rpos.x as int, t.x * TILE_SIZE, (t.x + 1) * TILE_SIZE - 1) as i32,
                    y: clamp_i(rpos.y as int, t.y * TILE_SIZE, (t.y + 1) * TILE_SIZE - 1) as i32,
                },
            )
        }
    }

    /// `wall_candidate` for direction `k`, with its squared distance to
    /// `rpos`.
    fn wall_candidate_exec(&self, rpos: Vec2i, tx: i32, ty: i32, k: usize) -> (r: Option<(Vec2i, i64)>)
        requires
            self.wf(),
            k < 8,
            -COORD_LIMIT <= rpos.x <= COORD_LIMIT,
            -COORD_LIMIT <= rpos.y <= COORD_LIMIT,
            tx == tile_of(rpos.x as int),
            ty == tile_of(rpos.y as int),
        ensures
            r is None <==> self.wall_candidate(rpos, k as int) is None,
            r is Some ==> self.wall_candidate(rpos, k as int) == Some(r.unwrap().0) && r.unwrap().1 == dist2(
                r.unwrap().0,
                rpos,
            ),
    {
        let d = dir_exec(k);
        let t = Vec2i { x: tx + d.x, y: ty + d.y };
        let open = match self.get(t) {
            Some(tile) => tile.is_passable(),
            None => false,
        };
        if open {
            return None;
        }
        let lo_x = t.x * TILE_SIZE;
        let hi_x = (t.x + 1) * TILE_SIZE - 1;
        let lo_y = t.y * TILE_SIZE;
        let hi_y = (t.y + 1) * TILE_SIZE - 1;
        let cx = if rpos.x < lo_x {
            lo_x
        } else if rpos.x > hi_x {
            hi_x
        } else {
            rpos.x
        };
        let cy = if rpos.y < lo_y {
            lo_y
        } else if rpos.y > hi_y {
            hi_y
        } else {
            rpos.y
        };
        let c = Vec2i { x: cx, y: cy };
        let dx = (cx - rpos.x) as i64;
        let dy = (cy - rpos.y) as i64;
        proof {
            assert(-30 <= dx <= 30);
            assert(-30 <= dy <= 30);
            assert(dx * dx <= 900 && dy * dy <= 900 && 0 <= dx * dx && 0 <= dy * dy) by (nonlinear_arith)
                requires
                    -30 <= dx <= 30,
                    -30 <= dy <= 30,
            ;
        }
        Some((c, dx * dx + dy * dy))
    }

    /// The nearest point of a wall around the tile holding `rpos`: among the
    /// neighbouring tiles (in the order of `dir`) that are off the floor or
    /// solid, the point nearest to `rpos`; the first such on a tie.
    pub fn nearest_wall(&self, rpos: Vec2i) -> (r: Option<Vec2i>)
        requires
            self.wf(),
            -COORD_LIMIT <= rpos.x <= COORD_LIMIT,
            -COORD_LIMIT <= rpos.y <= COORD_LIMIT,
        ensures
            r is None <==> forall|k: int| 0 <= k < 8 ==> #[trigger] self.wall_candidate(rpos, k) is None,
            r is Some ==> exists|k: int|
                0 <= k < 8 && #[trigger] self.wall_candidate(rpos, k) == r && (forall|k2: int|
                    0 <= k2 < 8 && (#[trigger] self.wall_candidate(rpos, k2)) is Some ==> dist2(r.unwrap(), rpos)
                        <= dist2(self.wall_candidate(rpos, k2).unwrap(), rpos) && (k2 < k ==> dist2(r.unwrap(), rpos)
                        < dist2(self.wall_candidate(rpos, k2).unwrap(), rpos))),
    {
        let tx = tile_of_exec(rpos.x);
        let ty = tile_of_exec(rpos.y);
        let mut best: Option<Vec2i> = None;
        let mut best_d: i64 = 0;
        let ghost mut best_k: int = 0;
        let mut k: usize = 0;
        while k < 8
            invariant
                self.wf(),
                k <= 8,
                -COORD_LIMIT <= rpos.x <= COORD_LIMIT,
                -COORD_LIMIT <= rpos.y <= COORD_LIMIT,
                tx == tile_of(rpos.x as int),
                ty == tile_of(rpos.y as int),
                best is None <==> forall|q: int| 0 <= q < k ==> #[trigger] self.wall_candidate(rpos, q) is None,
                best is Some ==> {
                    &&& 0 <= best_k < k
                    &&& self.wall_candidate(rpos, best_k) == best
                    &&& best_d == dist2(best.unwrap(), rpos)
                    &&& forall|q: int|
                        0 <= q < k && (#[trigger] self.wall_candidate(rpos, q)) is Some ==> best_d <= dist2(
                            self.wall_candidate(rpos, q).unwrap(),
                            rpos,
                        ) && (q < best_k ==> best_d < dist2(self.wall_candidate(rpos, q).unwrap(), rpos))
                },
            decreases 8 - k,
        {
            match self.wall_candidate_exec(rpos, tx, ty, k) {
                Some((c, dist)) => {
                    let better = match best {
                        Some(_) => dist < best_d,
                        None => true,
                    };
                    if better {
                        best = Some(c);
                        best_d = dist;
                        proof {
                            best_k = k as int;
                        }
                    }
                },
                None => {},
            }
            k += 1;
        }
        best
    }

    /// Which way `pos1` lies from `pos2`, as a wall orientation: along the
    /// axis on which they are further apart, 2 or 6 across x, 4 or 8 across y.
    pub fn relative_ori(pos1: Vec2i, pos2: Vec2i) -> (r: u8)
        requires
            -COORD_LIMIT <= pos1.x <= COORD_LIMIT,
            -COORD_LIMIT <= pos1.y <= COORD_LIMIT,
            -COORD_LIMIT <= pos2.x <= COORD_LIMIT,
            -COORD_LIMIT <= pos2.y <= COORD_LIMIT,
        ensures
            r == if abs_i(pos1.x - pos2.x) < abs_i(pos1.y - pos2.y) {
                if pos1.y > pos2.y {
                    4u8
                } else {
                    8u8
                }
            } else {
                if pos1.x > pos2.x {
                    2u8
                } else {
                    6u8
                }
            },
    {
        let dx = pos1.x - pos2.x;
        let dy = pos1.y - pos2.y;
        let adx = if dx < 0 {
            -dx
        } else {
            dx
        };
        let ady = if dy < 0 {
            -dy
        } else {
            dy
        };
        if adx < ady {
            if pos1.y > pos2.y {
                4
            } else {
                8
            }
        } else {
            if pos1.x > pos2.x {
                2
            } else {
                6
            }
        }
    }

    /// Depth of the floor: solid rock above the hollow part.
    pub fn total_depth(&self) -> (d: i32)
        requires
            self.solid_depth + self.hollow_depth <= i32::MAX,
            self.solid_depth + self.hollow_depth >= i32::MIN,
        ensures
            d == self.solid_depth + self.hollow_depth,
    {
        self.solid_depth + self.hollow_depth
    }

    /// Whether a tile position lies in a rectangle.
    pub open spec fn in_rect(area: Rect, p: Vec2i) -> bool {
        area.x <= p.x < area.x + area.w && area.y <= p.y < area.y + area.h
    }

    /// What a stair room holds: no loot, no enemies, no pillars, and a
    /// ceiling `STAIR_ROOM_HEIGHT` blocks up.
    pub open spec fn stair_room_kind(room: Room, difficulty: u32) -> bool {
        &&& !room.has_loot && !room.has_enemies && !room.miniboss && !room.boss
        &&& room.height == STAIR_ROOM_HEIGHT && room.pillars is None && room.difficulty == difficulty
    }

    /// What the boss room holds: the boss and enemies, no loot, pillars two
    /// tiles apart, and a ceiling as high as `boss_room_size` says.
    pub open spec fn boss_room_kind(room: Room, difficulty: u32) -> bool {
        &&& !room.has_loot && room.has_enemies && !room.miniboss && room.boss
        &&& room.height == (if 15 + difficulty * 3 < 30 { 15 + difficulty * 3 } else { 30 })
        &&& room.pillars == Some(2i32) && room.difficulty == difficulty
    }

    /// The three-by-three room around a stair tile (a position on the floor).
    pub open spec fn stair_room(t: Vec2i) -> Rect {
        Rect { x: (t.x - 1) as i32, y: (t.y - 1) as i32, w: 3, h: 3 }
    }

    /// The boss room around the tile `t` of a dungeon of a difficulty.
    pub open spec fn boss_room(t: Vec2i, difficulty: u32) -> Rect {
        let half = if 2 + difficulty / 2 < MAX_WIDTH {
            2 + difficulty / 2
        } else {
            MAX_WIDTH as int
        };
        Rect {
            x: (t.x - MAX_WIDTH - 1) as i32,
            y: (t.y - MAX_WIDTH - 1) as i32,
            w: (half * 2 + 1) as i32,
            h: (half * 2 + 1) as i32,
        }
    }

    /// A new floor at `level` of a dungeon of a difficulty, reached by the
    /// stairs at tile `stair_tile` (relative to the floor's centre), with its
    /// stair rooms: the room of the stairs up, and either the boss room (on
    /// the last floor, around the centre) or the room of the stairs down at
    /// `next_stair`. The stair rooms hold neither loot nor enemies; the boss
    /// room holds enemies, with pillars two tiles apart. The rooms' seeds are
    /// drawn from `rng`. Gives the floor and the tile of the stairs down (the
    /// centre on the last floor).
    pub fn with_stair_rooms(
        rng: &mut StdRng,
        stair_tile: Vec2i,
        next_stair: Vec2i,
        level: i32,
        difficulty: u32,
    ) -> (r: (Floor, Vec2i))
        requires
            difficulty < 1000,
            -1000 <= stair_tile.x <= 1000,
            -1000 <= stair_tile.y <= 1000,
            -1000 <= next_stair.x <= 1000,
            -1000 <= next_stair.y <= 1000,
        ensures
            ({
                let (f, down) = r;
                let offset = Vec2i { x: -9i32, y: -9i32 };
                let last = level == 3 + difficulty / 2 - 1;
                let up = Vec2i { x: (stair_tile.x - offset.x) as i32, y: (stair_tile.y - offset.y) as i32 };
                let down_pos = Vec2i { x: (down.x - offset.x) as i32, y: (down.y - offset.y) as i32 };
                let second = if last {
                    Self::boss_room(down_pos, difficulty)
                } else {
                    Self::stair_room(down_pos)
                };
                &&& f.wf()
                &&& down == if last { Vec2i { x: 0, y: 0 } } else { next_stair }
                &&& f.tile_offset == offset
                &&& f.solid_depth == if level == 0 { 80i32 } else { 32i32 }
                &&& f.hollow_depth == 30
                &&& f.stair_tile == down_pos
                &&& f.final_level == last
                &&& f.difficulty == difficulty
                &&& f.rooms_view() == seq![Self::stair_room(up), second]
                &&& f.rooms_info().len() == 2
                &&& f.supplement_ready()
                &&& Self::stair_room_kind(f.rooms_info()[0], difficulty)
                &&& if last {
                    Self::boss_room_kind(f.rooms_info()[1], difficulty)
                } else {
                    Self::stair_room_kind(f.rooms_info()[1], difficulty)
                }
                &&& forall|p: Vec2i|
                    #[trigger] f.tile(p) == if !Self::in_grid(p) {
                        None
                    } else if p == up {
                        Some(Tile::UpStair(0))
                    } else if !last && p == down_pos {
                        Some(Tile::DownStair(1))
                    } else if Self::in_rect(second, p) {
                        Some(Tile::Room(1))
                    } else if Self::in_rect(Self::stair_room(up), p) {
                        Some(Tile::Room(0))
                    } else {
                        Some(Tile::Solid)
                    }
            }),
    {
        let last = is_final_level(level, difficulty);
        let (half, height) = boss_room_size(difficulty);
        let down = if last {
            Vec2i { x: 0, y: 0 }
        } else {
            next_stair
        };
        let offset = Vec2i { x: -FLOOR_WIDTH / 2, y: -FLOOR_HEIGHT / 2 };
        let up = Vec2i { x: stair_tile.x - offset.x, y: stair_tile.y - offset.y };
        let down_pos = Vec2i { x: down.x - offset.x, y: down.y - offset.y };
        let solid_depth = if level == 0 {
            80
        } else {
            32
        };
        let mut f = Floor::new(offset, solid_depth, 30, down_pos, last, difficulty);
        let ghost f0 = f;
        let up_room = Rect { x: up.x - 1, y: up.y - 1, w: 3, h: 3 };
        let up_id = f.create_room(
            Room {
                seed: gen_u32(rng),
                has_loot: false,
                has_enemies: false,
                miniboss: false,
                boss: false,
                area: up_room,
                height: STAIR_ROOM_HEIGHT,
                pillars: None,
                difficulty,
            },
        );
        let ghost f1 = f;
        let second = if last {
            let side = (half * 2 + 1) as i32;
            let m = MAX_WIDTH as i32;
            Rect { x: down_pos.x - m - 1, y: down_pos.y - m - 1, w: side, h: side }
        } else {
            Rect { x: down_pos.x - 1, y: down_pos.y - 1, w: 3, h: 3 }
        };
        let second_room = if last {
            Room {
                seed: gen_u32(rng),
                has_loot: false,
                has_enemies: true,
                miniboss: false,
                boss: true,
                area: second,
                height: height as i32,
                pillars: Some(2),
                difficulty,
            }
        } else {
            Room {
                seed: gen_u32(rng),
                has_loot: false,
                has_enemies: false,
                miniboss: false,
                boss: false,
                area: second,
                height: STAIR_ROOM_HEIGHT,
                pillars: None,
                difficulty,
            }
        };
        let second_id = f.create_room(second_room);
        let ghost f2 = f;
        if !last {
            let _ = f.set(down_pos, Tile::DownStair(second_id));
        }
        let ghost f3 = f;
        let _ = f.set(up, Tile::UpStair(up_id));
        proof {
            assert(f.rooms_view() =~= seq![up_room, second]);
            assert forall|p: Vec2i|
                #[trigger] f.tile(p) == if !Self::in_grid(p) {
                    None
                } else if p == up {
                    Some(Tile::UpStair(0))
                } else if !last && p == down_pos {
                    Some(Tile::DownStair(1))
                } else if Self::in_rect(second, p) {
                    Some(Tile::Room(1))
                } else if Self::in_rect(up_room, p) {
                    Some(Tile::Room(0))
                } else {
                    Some(Tile::Solid)
                } by {
                assert(f.tile(p) == f3.tile(p) || p == up);
                assert(f3.tile(p) == f2.tile(p) || p == down_pos);
                assert(f2.tile(p) == f1.tile(p) || Self::in_rect(second, p));
                assert(f1.tile(p) == f0.tile(p) || Self::in_rect(up_room, p));
                if !Self::in_grid(p) {
                    assert(f.tile(p) is None);
                } else {
                    assert(f0.tile(p) == Some(Tile::Solid));
                }
            }
            lemma_room_ids_by_position(f, 2);
            assert forall|r: int|
                #![trigger f.rooms_info()[r]]
                0 <= r < f.rooms_info().len() implies {
                    let room = f.rooms_info()[r];
                    &&& -2000 <= room.area.x <= 2000 && -2000 <= room.area.y <= 2000
                    &&& 0 <= room.area.w <= 1000 && 0 <= room.area.h <= 1000
                    &&& room.pillars is Some ==> room.pillars.unwrap() > 0
                } by {
                assert(f.rooms_view()[r] == f.rooms_info()[r].area);
            }
        }
        (f, down)
    }
}

/// A room placed where its one-tile margin overlaps no room overlaps no
/// room either, whichever of the two is asked about.
pub proof fn placed_room_overlaps_none(rooms: Seq<Rect>, pos: Vec2i, size: Vec2i)
    requires
        0 <= size.x,
        0 <= size.y,
        forall|k: int|
            0 <= k < rooms.len() ==> !collides(
                #[trigger] rooms[k],
                Rect { x: (pos.x - 1) as i32, y: (pos.y - 1) as i32, w: (size.x + 2) as i32, h: (size.y + 2) as i32 },
            ),
        -COORD_LIMIT + 1 <= pos.x <= COORD_LIMIT - 1,
        -COORD_LIMIT + 1 <= pos.y <= COORD_LIMIT - 1,
        size.x <= COORD_LIMIT - 2,
        size.y <= COORD_LIMIT - 2,
    ensures
        forall|k: int|
            0 <= k < rooms.len() ==> !collides(#[trigger] rooms[k], Rect { x: pos.x, y: pos.y, w: size.x, h: size.y })
                && !collides(Rect { x: pos.x, y: pos.y, w: size.x, h: size.y }, rooms[k]),
{
}

/// Widest a boss room may grow, in tiles from its centre.
pub const MAX_WIDTH: u32 = 4;

/// Calls `rand::Rng::gen_range` on the half-open range `low..high` of
/// `u32`: rand documents a value in the range, and a panic on an empty
/// range. Which value comes depends on the generator's state, and is left
/// unsaid.
#[verifier::external_body]
fn gen_range_u32(rng: &mut StdRng, low: u32, high: u32) -> (r: u32)
    requires
        low < high,
    ensures
        low <= r < high,
{
    rng.gen_range(low..high)
}

/// The difficulty of a new dungeon: a random number below six.
pub fn random_difficulty(rng: &mut StdRng) -> (d: u32)
    ensures
        d < 6,
{
    gen_range_u32(rng, 0, 6)
}

/// The number of floors of a dungeon of a difficulty.
pub fn floor_count(difficulty: u32) -> (n: u32)
    ensures
        n == 3 + difficulty / 2,
{
    3 + difficulty / 2
}

/// Whether `level` is the last floor of a dungeon of a difficulty.
pub fn is_final_level(level: i32, difficulty: u32) -> (b: bool)
    requires
        difficulty < 1000,
    ensures
        b == (level == 3 + difficulty / 2 - 1),
{
    let floors = floor_count(difficulty);
    level == floors as i32 - 1
}

/// The half width and the height of the boss room of a dungeon of a
/// difficulty: `2 + difficulty / 2` capped at `MAX_WIDTH`, and
/// `15 + 3 * difficulty` capped at 30.
pub fn boss_room_size(difficulty: u32) -> (r: (u32, u32))
    requires
        difficulty < 1000,
    ensures
        r.0 == if 2 + difficulty / 2 < MAX_WIDTH {
            2 + difficulty / 2
        } else {
            MAX_WIDTH as int
        },
        r.1 == if 15 + difficulty * 3 < 30 {
            15 + difficulty * 3
        } else {
            30
        },
{
    let w = 2 + difficulty / 2;
    let h = 15 + difficulty * 3;
    (
        if w < MAX_WIDTH {
            w
        } else {
            MAX_WIDTH
        },
        if h < 30 {
            h
        } else {
            30
        },
    )
}

/// Manhattan distance between two tile positions.
pub open spec fn manhattan(a: Vec2i, b: Vec2i) -> int {
    abs_i(a.x - b.x) + abs_i(a.y - b.y)
}

/// Walking the candidates for the next stair tile: how many were taken (at
/// most eight, skipping those equal to `stair_tile`), and the farthest taken
/// from `stair_tile`, the later one on a tie.
pub open spec fn stair_scan(stair_tile: Vec2i, candidates: Seq<Vec2i>) -> (nat, Option<Vec2i>)
    decreases candidates.len(),
{
    if candidates.len() == 0 {
        (0, None)
    } else {
        let prev = stair_scan(stair_tile, candidates.drop_last());
        let c = candidates.last();
        if c == stair_tile || prev.0 >= 8 {
            prev
        } else {
            (prev.0 + 1, match prev.1 {
                None => Some(c),
                Some(b) => if manhattan(c, stair_tile) >= manhattan(b, stair_tile) {
                    Some(c)
                } else {
                    Some(b)
                },
            })
        }
    }
}

/// The stair tile of the next floor, out of random candidate positions:
/// among the first eight candidates other than `stair_tile`, the farthest
/// from it; `None` when no candidate differs from `stair_tile`.
pub fn farthest_stair_tile(stair_tile: Vec2i, candidates: &Vec<Vec2i>) -> (r: Option<Vec2i>)
    requires
        -COORD_LIMIT <= stair_tile.x <= COORD_LIMIT,
        -COORD_LIMIT <= stair_tile.y <= COORD_LIMIT,
        forall|i: int|
            0 <= i < candidates@.len() ==> -COORD_LIMIT <= (#[trigger] candidates@[i]).x <= COORD_LIMIT && -COORD_LIMIT
                <= candidates@[i].y <= COORD_LIMIT,
    ensures
        r == stair_scan(stair_tile, candidates@).1,
{
    let mut taken: usize = 0;
    let mut best: Option<Vec2i> = None;
    let mut best_d: i64 = 0;
    let mut i: usize = 0;
    while i < candidates.len()
        invariant
            i <= candidates@.len(),
            -COORD_LIMIT <= stair_tile.x <= COORD_LIMIT,
            -COORD_LIMIT <= stair_tile.y <= COORD_LIMIT,
            forall|q: int|
                0 <= q < candidates@.len() ==> -COORD_LIMIT <= (#[trigger] candidates@[q]).x <= COORD_LIMIT && -COORD_LIMIT
                    <= candidates@[q].y <= COORD_LIMIT,
            (taken as nat, best) == stair_scan(stair_tile, candidates@.take(i as int)),
            best is Some ==> best_d == manhattan(best.unwrap(), stair_tile),
        decreases candidates@.len() - i,
    {
        let c = candidates[i];
        proof {
            assert(candidates@.take(i + 1).drop_last() =~= candidates@.take(i as int));
            assert(candidates@.take(i + 1).last() == c);
        }
        if !(c == stair_tile) && taken < 8 {
            let dx = (c.x as i64) - (stair_tile.x as i64);
            let dy = (c.y as i64) - (stair_tile.y as i64);
            let d = (if dx < 0 {
                -dx
            } else {
                dx
            }) + (if dy < 0 {
                -dy
            } else {
                dy
            });
            let replace = match best {
                None => true,
                Some(_) => d >= best_d,
            };
            if replace {
                best = Some(c);
                best_d = d;
            }
            taken += 1;
        }
        i += 1;
    }
    proof {
        assert(candidates@.take(candidates@.len() as int) =~= candidates@);
    }
    best
}

/// A tile of a room with pillars every `pillars` tiles holds a pillar when
/// both its coordinates are multiples of the spacing.
pub open spec fn is_pillar(tile_pos: Vec2i, pillars: Option<i32>) -> bool {
    match pillars {
        Some(space) => (tile_pos.x as int) % (space as int) == 0 && (tile_pos.y as int) % (space as int) == 0,
        None => false,
    }
}

/// Whether a tile of a room with pillars every `pillars` tiles holds a
/// pillar.
pub fn tile_is_pillar(tile_pos: Vec2i, pillars: Option<i32>) -> (b: bool)
    requires
        pillars is Some ==> pillars.unwrap() > 0,
        -COORD_LIMIT <= tile_pos.x <= COORD_LIMIT,
        -COORD_LIMIT <= tile_pos.y <= COORD_LIMIT,
    ensures
        b == is_pillar(tile_pos, pillars),
{
    match pillars {
        Some(space) => {
            let ax = if tile_pos.x < 0 {
                -tile_pos.x
            } else {
                tile_pos.x
            };
            let ay = if tile_pos.y < 0 {
                -tile_pos.y
            } else {
                tile_pos.y
            };
            proof {
                lemma_divisible_abs(tile_pos.x as int, space as int);
                lemma_divisible_abs(tile_pos.y as int, space as int);
            }
            ax % space == 0 && ay % space == 0
        },
        None => false,
    }
}

/// A number and its negation have the same multiples.
proof fn lemma_divisible_abs(v: int, s: int)
    requires
        s > 0,
    ensures
        (v % s == 0) <==> (abs_i(v) % s == 0),
{
    if v < 0 {
        if v % s == 0 {
            vstd::arithmetic::div_mod::lemma_fundamental_div_mod(v, s);
            let q = v / s;
            assert(-v == (-q) * s) by (nonlinear_arith)
                requires
                    v == s * q + 0,
            ;
            vstd::arithmetic::div_mod::lemma_mod_multiples_basic(-q, s);
        }
        if (-v) % s == 0 {
            vstd::arithmetic::div_mod::lemma_fundamental_div_mod(-v, s);
            let q = (-v) / s;
            assert(v == (-q) * s) by (nonlinear_arith)
                requires
                    -v == s * q + 0,
            ;
            vstd::arithmetic::div_mod::lemma_mod_multiples_basic(-q, s);
        }
    }
}

/// How many outcomes the roll for an enemy's loot table has at a
/// difficulty; `None` when the table does not depend on a roll.
pub fn enemy_loot_roll_range(difficulty: u32) -> (r: Option<u32>)
    ensures
        r == match difficulty {
            0 | 1 | 2 => Some(4u32),
            3 => Some(10u32),
            4 => Some(6u32),
            5 => Some(5u32),
            _ => None::<u32>,
        },
{
    match difficulty {
        0 | 1 | 2 => Some(4),
        3 => Some(10),
        4 => Some(6),
        5 => Some(5),
        _ => None,
    }
}

/// The loot table of an enemy in a room of a difficulty, from a roll below
/// `enemy_loot_roll_range(difficulty)`.
pub open spec fn enemy_loot_table_spec(difficulty: u32, roll: u32) -> Seq<char> {
    if difficulty <= 5 && roll == 0 {
        "common.loot_tables.loot_table_humanoids"@
    } else if difficulty == 0 {
        if roll == 1 { "common.loot_tables.loot_table_armor_cloth"@ } else { "common.loot_tables.loot_table_weapon_common"@ }
    } else if difficulty == 1 {
        if roll == 1 { "common.loot_tables.loot_table_armor_light"@ } else { "common.loot_tables.loot_table_weapon_uncommon"@ }
    } else if difficulty == 2 {
        if roll == 1 { "common.loot_tables.loot_table_armor_heavy"@ } else { "common.loot_tables.loot_table_weapon_rare"@ }
    } else if difficulty == 3 {
        if roll == 1 {
            "common.loot_tables.loot_table_armor_heavy"@
        } else if roll == 2 {
            "common.loot_tables.loot_table_weapon_rare"@
        } else {
            "common.loot_tables.loot_table_cultists"@
        }
    } else if difficulty == 4 || difficulty == 5 {
        if roll == 1 {
            "common.loot_tables.loot_table_armor_misc"@
        } else if roll == 2 {
            "common.loot_tables.loot_table_weapon_rare"@
        } else {
            "common.loot_tables.loot_table_cultists"@
        }
    } else {
        "common.loot_tables.loot_table_armor_misc"@
    }
}

/// The loot table of an enemy in a room of a difficulty, from a roll below
/// `enemy_loot_roll_range(difficulty)` (any roll where there is no range).
pub fn enemy_loot_table(difficulty: u32, roll: u32) -> (r: &'static str)
    ensures
        r@ == enemy_loot_table_spec(difficulty, roll),
{
    match difficulty {
        0 => match roll {
            0 => "common.loot_tables.loot_table_humanoids",
            1 => "common.loot_tables.loot_table_armor_cloth",
            _ => "common.loot_tables.loot_table_weapon_common",
        },
        1 => match roll {
            0 => "common.loot_tables.loot_table_humanoids",
            1 => "common.loot_tables.loot_table_armor_light",
            _ => "common.loot_tables.loot_table_weapon_uncommon",
        },
        2 => match roll {
            0 => "common.loot_tables.loot_table_humanoids",
            1 => "common.loot_tables.loot_table_armor_heavy",
            _ => "common.loot_tables.loot_table_weapon_rare",
        },
        3 => match roll {
            0 => "common.loot_tables.loot_table_humanoids",
            1 => "common.loot_tables.loot_table_armor_heavy",
            2 => "common.loot_tables.loot_table_weapon_rare",
            _ => "common.loot_tables.loot_table_cultists",
        },
        4 | 5 => match roll {
            0 => "common.loot_tables.loot_table_humanoids",
            1 => "common.loot_tables.loot_table_armor_misc",
            2 => "common.loot_tables.loot_table_weapon_rare",
            _ => "common.loot_tables.loot_table_cultists",
        },
        _ => "common.loot_tables.loot_table_armor_misc",
    }
}

pub open spec fn abs_i(v: int) -> int {
    if v < 0 {
        -v
    } else {
        v
    }
}

proof fn lemma_grid_index(pos: Vec2i)
    requires
        Floor::in_grid(pos),
    ensures
        0 <= pos.y * FLOOR_WIDTH + pos.x < FLOOR_TILES,
{
    assert(0 <= pos.y * 18 + pos.x < 324) by (nonlinear_arith)
        requires
            0 <= pos.x < 18,
            0 <= pos.y < 18,
    ;
}

proof fn lemma_grid_distinct(p: Vec2i, q: Vec2i)
    requires
        Floor::in_grid(p),
        Floor::in_grid(q),
        p != q,
    ensures
        p.y * FLOOR_WIDTH + p.x != q.y * FLOOR_WIDTH + q.x,
{
    assert(p.y * 18 + p.x != q.y * 18 + q.x) by (nonlinear_arith)
        requires
            0 <= p.x < 18,
            0 <= p.y < 18,
            0 <= q.x < 18,
            0 <= q.y < 18,
            p.x != q.x || p.y != q.y,
    ;
}

/// Where a column lies on a floor whose tiles start at tile `tile_offset`:
/// its block position relative to the floor, the tile holding it, and its
/// offset from the centre of that tile.
#[derive(Clone, Copy, Debug, PartialEq, Eq, Structural)]
pub struct ColumnPos {
    pub rpos: Vec2i,
    pub tile_pos: Vec2i,
    pub rtile_pos: Vec2i,
}

/// The `ColumnPos` of the column at block `pos`.
pub open spec fn column_pos_spec(pos: Vec2i, tile_offset: Vec2i) -> ColumnPos {
    let rx = pos.x - tile_offset.x * TILE_SIZE;
    let ry = pos.y - tile_offset.y * TILE_SIZE;
    ColumnPos {
        rpos: Vec2i { x: rx as i32, y: ry as i32 },
        tile_pos: Vec2i { x: tile_of(rx) as i32, y: tile_of(ry) as i32 },
        rtile_pos: Vec2i {
            x: (rx - (tile_of(rx) * TILE_SIZE + TILE_SIZE / 2)) as i32,
            y: (ry - (tile_of(ry) * TILE_SIZE + TILE_SIZE / 2)) as i32,
        },
    }
}

/// Where the column at block `pos` lies on a floor whose tiles start at tile
/// `tile_offset`.
pub fn column_pos(pos: Vec2i, tile_offset: Vec2i) -> (r: ColumnPos)
    requires
        -COORD_LIMIT / 2 <= pos.x <= COORD_LIMIT / 2,
        -COORD_LIMIT / 2 <= pos.y <= COORD_LIMIT / 2,
        -COORD_LIMIT / 2 <= tile_offset.x * TILE_SIZE <= COORD_LIMIT / 2,
        -COORD_LIMIT / 2 <= tile_offset.y * TILE_SIZE <= COORD_LIMIT / 2,
    ensures
        r == column_pos_spec(pos, tile_offset),
{
    let rx = pos.x - tile_offset.x * TILE_SIZE;
    let ry = pos.y - tile_offset.y * TILE_SIZE;
    let tx = tile_of_exec(rx);
    let ty = tile_of_exec(ry);
    ColumnPos {
        rpos: Vec2i { x: rx, y: ry },
        tile_pos: Vec2i { x: tx, y: ty },
        rtile_pos: Vec2i { x: rx - (tx * TILE_SIZE + TILE_SIZE / 2), y: ry - (ty * TILE_SIZE + TILE_SIZE / 2) },
    }
}

/// How far the rim of a pillar lies from the centre of its tile, in blocks.
pub const PILLAR_THICKNESS: i32 = 4;

/// Whether a column, `rtile_pos` off the centre of a tunnel or room tile,
/// is a spot where a wall light may hang: exactly one of its offsets is a
/// multiple of seven.
pub fn light_spot(rtile_pos: Vec2i) -> (r: bool)
    requires
        -COORD_LIMIT <= rtile_pos.x <= COORD_LIMIT,
        -COORD_LIMIT <= rtile_pos.y <= COORD_LIMIT,
    ensures
        r == ((rtile_pos.x as int % 7 == 0) != (rtile_pos.y as int % 7 == 0)),
{
    let ax = if rtile_pos.x < 0 {
        -rtile_pos.x
    } else {
        rtile_pos.x
    };
    let ay = if rtile_pos.y < 0 {
        -rtile_pos.y
    } else {
        rtile_pos.y
    };
    proof {
        lemma_divisible_abs(rtile_pos.x as int, 7);
        lemma_divisible_abs(rtile_pos.y as int, 7);
    }
    (ax % 7 == 0) != (ay % 7 == 0)
}

/// The orientation of the light a pillar carries at the column `rtile_pos`
/// off the centre of its tile, on layer `z`: there is one on the first layer
/// above the floor, where the column meets the pillar's rim on an axis; it
/// faces away from the pillar.
pub fn pillar_light(rtile_pos: Vec2i, z: i32) -> (r: Option<u8>)
    requires
        -COORD_LIMIT / 2 <= rtile_pos.x <= COORD_LIMIT / 2,
        -COORD_LIMIT / 2 <= rtile_pos.y <= COORD_LIMIT / 2,
    ensures
        r == if z == 1 && (rtile_pos.x == 0 || rtile_pos.y == 0) && abs_i(rtile_pos.x + rtile_pos.y)
            == PILLAR_THICKNESS {
            Some(
                if abs_i(rtile_pos.x as int) < abs_i(rtile_pos.y as int) {
                    if rtile_pos.y > 0 {
                        4u8
                    } else {
                        8u8
                    }
                } else {
                    if rtile_pos.x > 0 {
                        2u8
                    } else {
                        6u8
                    }
                },
            )
        } else {
            None
        },
{
    let s = rtile_pos.x + rtile_pos.y;
    let on_axis = rtile_pos.x == 0 || rtile_pos.y == 0;
    if z == 1 && on_axis && (s == PILLAR_THICKNESS || s == -PILLAR_THICKNESS) {
        Some(Floor::relative_ori(rtile_pos, Vec2i { x: 0, y: 0 }))
    } else {
        None
    }
}

/// How far below a dungeon's altitude its entrance sits, in blocks.
pub const ALT_OFFSET: i32 = -2;

/// The total depth of a sequence of floors.
pub open spec fn depth_sum(floors: Seq<Floor>) -> int
    decreases floors.len(),
{
    if floors.len() == 0 {
        0
    } else {
        depth_sum(floors.drop_last()) + floors.last().solid_depth + floors.last().hollow_depth
    }
}

/// The height at which each floor of a dungeon at altitude `alt` starts:
/// the floors are stacked downwards from just below the entrance, each as
/// deep as its rock and its hollow together.
pub fn floor_bases(alt: i32, floors: &Vec<Floor>) -> (r: Vec<i32>)
    requires
        -COORD_LIMIT <= alt <= COORD_LIMIT,
        floors@.len() <= 100,
        forall|i: int|
            0 <= i < floors@.len() ==> 0 <= (#[trigger] floors@[i]).solid_depth && 0 <= floors@[i].hollow_depth
                && floors@[i].solid_depth + floors@[i].hollow_depth <= 1000000,
    ensures
        r@.len() == floors@.len(),
        forall|i: int| 0 <= i < r@.len() ==> #[trigger] r@[i] == alt + ALT_OFFSET - depth_sum(floors@.take(i + 1)),
{
    let mut r: Vec<i32> = Vec::new();
    let mut z: i32 = alt + ALT_OFFSET;
    let mut i: usize = 0;
    while i < floors.len()
        invariant
            -COORD_LIMIT <= alt <= COORD_LIMIT,
            floors@.len() <= 100,
            forall|k: int|
                0 <= k < floors@.len() ==> 0 <= (#[trigger] floors@[k]).solid_depth && 0 <= floors@[k].hollow_depth
                    && floors@[k].solid_depth + floors@[k].hollow_depth <= 1000000,
            i <= floors@.len(),
            r@.len() == i,
            0 <= depth_sum(floors@.take(i as int)) <= i * 1000000,
            z == alt + ALT_OFFSET - depth_sum(floors@.take(i as int)),
            forall|k: int| 0 <= k < i ==> #[trigger] r@[k] == alt + ALT_OFFSET - depth_sum(floors@.take(k + 1)),
        decreases floors@.len() - i,
    {
        proof {
            assert(floors@.take(i + 1).drop_last() =~= floors@.take(i as int));
            assert(floors@.take(i + 1).last() == floors@[i as int]);
        }
        z = z - floors[i].total_depth();
        r.push(z);
        i += 1;
    }
    r
}

/// Whether trees may grow at `wpos` near a dungeon entered at `origin`:
/// only further than 64 blocks away.
pub fn trees_allowed(wpos: Vec2i, origin: Vec2i) -> (r: bool)
    requires
        dist2(wpos, origin) <= i32::MAX,
    ensures
        r == (dist2(wpos, origin) > 64 * 64),
{
    let dx = wpos.x as i64 - origin.x as i64;
    let dy = wpos.y as i64 - origin.y as i64;
    proof {
        assert(dx * dx >= 0 && dy * dy >= 0) by (nonlinear_arith);
        assert(dx * dx + dy * dy == dist2(wpos, origin));
    }
    dx * dx + dy * dy > 64 * 64
}

/// The word that follows a dungeon's name, from a roll below five.
pub open spec fn name_suffix_spec(roll: u32) -> Seq<char> {
    if roll == 0 {
        "Dungeon"@
    } else if roll == 1 {
        "Lair"@
    } else if roll == 2 {
        "Crib"@
    } else if roll == 3 {
        "Catacombs"@
    } else {
        "Pit"@
    }
}

/// The word that follows a dungeon's name, from a roll below five.
pub fn name_suffix(roll: u32) -> (r: &'static str)
    ensures
        r@ == name_suffix_spec(roll),
{
    match roll {
        0 => "Dungeon",
        1 => "Lair",
        2 => "Crib",
        3 => "Catacombs",
        _ => "Pit",
    }
}

/// Whether the waypoint of a dungeon, half a floor's width and depth from
/// its origin, lies in the chunk that starts at `rpos` (relative to the
/// origin) and spans `chunk_size` blocks, its far edges included.
pub fn waypoint_in_chunk(rpos: Vec2i, chunk_size: Vec2i) -> (r: bool)
    requires
        -COORD_LIMIT <= rpos.x <= COORD_LIMIT,
        -COORD_LIMIT <= rpos.y <= COORD_LIMIT,
        0 <= chunk_size.x <= COORD_LIMIT,
        0 <= chunk_size.y <= COORD_LIMIT,
    ensures
        r == (rpos.x <= FLOOR_WIDTH / 2 <= rpos.x + chunk_size.x && rpos.y <= FLOOR_HEIGHT / 2 <= rpos.y
            + chunk_size.y),
{
    let wx = FLOOR_WIDTH / 2;
    let wy = FLOOR_HEIGHT / 2;
    rpos.x <= wx && wx <= rpos.x + chunk_size.x && rpos.y <= wy && wy <= rpos.y + chunk_size.y
}

/// A dungeon: its name, where it is entered, its altitude, the seed that
/// picks its entrance, its floors from the top down, and its difficulty.
pub struct Dungeon {
    name: String,
    origin: Vec2i,
    alt: i32,
    seed: u32,
    floors: Vec<Floor>,
    difficulty: u32,
}

impl Dungeon {
    /// A dungeon from its parts.
    pub fn new(name: String, origin: Vec2i, alt: i32, seed: u32, floors: Vec<Floor>, difficulty: u32) -> (r: Dungeon)
        ensures
            r.name_view() == name@,
            r.get_origin_spec() == origin,
            r.alt_spec() == alt,
            r.seed_spec() == seed,
            r.floors_view() == floors@,
            r.difficulty_spec() == difficulty,
    {
        Dungeon { name, origin, alt, seed, floors, difficulty }
    }

    pub closed spec fn name_view(&self) -> Seq<char> {
        self.name@
    }

    pub closed spec fn get_origin_spec(&self) -> Vec2i {
        self.origin
    }

    pub closed spec fn alt_spec(&self) -> i32 {
        self.alt
    }

    pub closed spec fn seed_spec(&self) -> u32 {
        self.seed
    }

    pub closed spec fn floors_view(&self) -> Seq<Floor> {
        self.floors@
    }

    pub closed spec fn difficulty_spec(&self) -> u32 {
        self.difficulty
    }

    /// The dungeon's name.
    pub fn name(&self) -> (r: &str)
        ensures
            r@ == self.name_view(),
    {
        self.name.as_str()
    }

    /// Where the dungeon is entered.
    pub fn get_origin(&self) -> (r: Vec2i)
        ensures
            r == self.get_origin_spec(),
    {
        self.origin
    }

    /// The dungeon's difficulty.
    pub fn difficulty(&self) -> (r: u32)
        ensures
            r == self.difficulty_spec(),
    {
        self.difficulty
    }

    /// The floors, from the top down.
    pub fn floors(&self) -> (r: &Vec<Floor>)
        ensures
            r@ == self.floors_view(),
    {
        &self.floors
    }

    /// Whether trees may grow at `wpos`: only further than 64 blocks from
    /// the entrance.
    pub fn trees_allowed_at(&self, wpos: Vec2i) -> (r: bool)
        requires
            dist2(wpos, self.get_origin_spec()) <= i32::MAX,
        ensures
            r == (dist2(wpos, self.get_origin_spec()) > 64 * 64),
    {
        trees_allowed(wpos, self.origin)
    }

    /// Which of `count` entrance structures the dungeon is entered by.
    pub fn entrance_index(&self, count: usize) -> (r: usize)
        requires
            count > 0,
        ensures
            r == self.seed_spec() as int % count as int,
            r < count,
    {
        (self.seed as usize) % count
    }

    /// The height at which each floor starts, from the top down.
    pub fn floor_bases(&self) -> (r: Vec<i32>)
        requires
            -COORD_LIMIT <= self.alt_spec() <= COORD_LIMIT,
            self.floors_view().len() <= 100,
            forall|i: int|
                0 <= i < self.floors_view().len() ==> 0 <= (#[trigger] self.floors_view()[i]).solid_depth && 0
                    <= self.floors_view()[i].hollow_depth && self.floors_view()[i].solid_depth
                    + self.floors_view()[i].hollow_depth <= 1000000,
        ensures
            r@.len() == self.floors_view().len(),
            forall|i: int|
                0 <= i < r@.len() ==> #[trigger] r@[i] == self.alt_spec() + ALT_OFFSET - depth_sum(
                    self.floors_view().take(i + 1),
                ),
    {
        floor_bases(self.alt, &self.floors)
    }
}

/// What populating a chunk brings about on one floor: the height the floor
/// starts at, and the events of its columns.
pub struct FloorPlan {
    pub base: i32,
    pub events: Vec<PlannedEvent>,
}

impl Dungeon {
    /// What populating the chunk at `wpos2d` (spanning `chunk_size` blocks)
    /// brings about: whether it holds the dungeon's waypoint, and for each
    /// floor, from the top down, where it starts and the events of the
    /// chunk's columns on it.
    pub fn supplement_plan(&self, wpos2d: Vec2i, chunk_size: Vec2i) -> (r: (bool, Vec<FloorPlan>))
        requires
            -COORD_LIMIT / 8 <= wpos2d.x <= COORD_LIMIT / 8,
            -COORD_LIMIT / 8 <= wpos2d.y <= COORD_LIMIT / 8,
            -COORD_LIMIT / 8 <= self.get_origin_spec().x <= COORD_LIMIT / 8,
            -COORD_LIMIT / 8 <= self.get_origin_spec().y <= COORD_LIMIT / 8,
            0 <= chunk_size.x <= 1000,
            0 <= chunk_size.y <= 1000,
            -COORD_LIMIT <= self.alt_spec() <= COORD_LIMIT,
            self.floors_view().len() <= 100,
            forall|i: int|
                0 <= i < self.floors_view().len() ==> (#[trigger] self.floors_view()[i]).supplement_ready() && 0
                    <= self.floors_view()[i].solid_depth && 0 <= self.floors_view()[i].hollow_depth
                    && self.floors_view()[i].solid_depth + self.floors_view()[i].hollow_depth <= 1000000,
        ensures
            ({
                let rx = wpos2d.x - self.get_origin_spec().x;
                let ry = wpos2d.y - self.get_origin_spec().y;
                &&& r.0 == (rx <= FLOOR_WIDTH / 2 <= rx + chunk_size.x && ry <= FLOOR_HEIGHT / 2 <= ry + chunk_size.y)
                &&& r.1@.len() == self.floors_view().len()
                &&& forall|i: int|
                    0 <= i < r.1@.len() ==> {
                        &&& (#[trigger] r.1@[i]).base == self.alt_spec() + ALT_OFFSET - depth_sum(
                            self.floors_view().take(i + 1),
                        )
                        &&& r.1@[i].events@ == self.floors_view()[i].area_events(
                            rx,
                            rx + chunk_size.x,
                            ry,
                            ry + chunk_size.y,
                        )
                        &&& forall|j: int|
                            0 <= j < r.1@[i].events@.len() ==> (#[trigger] r.1@[i].events@[j]).alignment
                                == Alignment::Enemy
                    }
            }),
    {
        let rpos = Vec2i { x: wpos2d.x - self.origin.x, y: wpos2d.y - self.origin.y };
        let waypoint = waypoint_in_chunk(rpos, chunk_size);
        let area_max = Vec2i { x: rpos.x + chunk_size.x, y: rpos.y + chunk_size.y };
        let bases = floor_bases(self.alt, &self.floors);
        let mut plans: Vec<FloorPlan> = Vec::new();
        let mut i: usize = 0;
        while i < self.floors.len()
            invariant
                i <= self.floors_view().len(),
                bases@.len() == self.floors_view().len(),
                forall|k: int|
                    0 <= k < bases@.len() ==> #[trigger] bases@[k] == self.alt_spec() + ALT_OFFSET - depth_sum(
                        self.floors_view().take(k + 1),
                    ),
                forall|k: int|
                    0 <= k < self.floors_view().len() ==> (#[trigger] self.floors_view()[k]).supplement_ready(),
                -COORD_LIMIT / 2 <= rpos.x && area_max.x <= COORD_LIMIT / 2,
                -COORD_LIMIT / 2 <= rpos.y && area_max.y <= COORD_LIMIT / 2,
                area_max.x == rpos.x + chunk_size.x,
                area_max.y == rpos.y + chunk_size.y,
                plans@.len() == i,
                forall|k: int|
                    0 <= k < i ==> {
                        &&& (#[trigger] plans@[k]).base == bases@[k]
                        &&& plans@[k].events@ == self.floors_view()[k].area_events(
                            rpos.x as int,
                            area_max.x as int,
                            rpos.y as int,
                            area_max.y as int,
                        )
                        &&& forall|j: int|
                            0 <= j < plans@[k].events@.len() ==> (#[trigger] plans@[k].events@[j]).alignment
                                == Alignment::Enemy
                    },
            decreases self.floors_view().len() - i,
        {
            let events = self.floors[i].supplement_plan(rpos, area_max);
            plans.push(FloorPlan { base: bases[i], events });
            i += 1;
        }
        (waypoint, plans)
    }
}

/// The position on the floor of the tile with index `i`.
proof fn lemma_grid_position(i: int)
    requires
        0 <= i < FLOOR_TILES,
    ensures
        Floor::in_grid(Vec2i { x: (i % 18) as i32, y: (i / 18) as i32 }),
        (i / 18) * FLOOR_WIDTH + i % 18 == i,
{
}

/// Room tiles name rooms with ids below `n` at every index of the grid
/// when they do so at every position on the floor.
proof fn lemma_room_ids_by_position(f: Floor, n: nat)
    requires
        f.wf(),
        forall|p: Vec2i|
            #![trigger f.tile(p)]
            Floor::in_grid(p) ==> (f.tile(p) matches Some(Tile::Room(r)) ==> r < n),
    ensures
        forall|i: int|
            #![trigger f.tiles_view()[i]]
            0 <= i < f.tiles_view().len() ==> (f.tiles_view()[i] matches Tile::Room(r) ==> r < n),
{
    assert forall|i: int|
        #![trigger f.tiles_view()[i]]
        0 <= i < f.tiles_view().len() implies (f.tiles_view()[i] matches Tile::Room(r) ==> r < n) by {
        lemma_grid_position(i);
        let p = Vec2i { x: (i % 18) as i32, y: (i / 18) as i32 };
        assert(f.tile(p) == Some(f.tiles_view()[i]));
    }
}

/// Room tiles name rooms with ids below `n` at every position on the floor
/// when they do so at every index of the grid.
proof fn lemma_room_ids_by_index(f: Floor, n: nat)
    requires
        f.wf(),
        forall|i: int|
            #![trigger f.tiles_view()[i]]
            0 <= i < f.tiles_view().len() ==> (f.tiles_view()[i] matches Tile::Room(r) ==> r < n),
    ensures
        forall|p: Vec2i|
            #![trigger f.tile(p)]
            Floor::in_grid(p) ==> (f.tile(p) matches Some(Tile::Room(r)) ==> r < n),
{
    assert forall|p: Vec2i|
        #![trigger f.tile(p)]
        Floor::in_grid(p) implies (f.tile(p) matches Some(Tile::Room(r)) ==> r < n) by {
        lemma_grid_index(p);
        assert(f.tile(p) == Some(f.tiles_view()[p.y * FLOOR_WIDTH + p.x]));
    }
}

/// The loot an enemy drops, by difficulty: up to the sixth difficulty a
/// roll of zero gives humanoid loot; the other rolls give, from the easiest,
/// cloth armour or common weapons, light armour or uncommon weapons, heavy
/// armour or rare weapons (a roll of one gives the armour), then heavy
/// armour, rare weapons or cultist loot, and at the two hardest
/// miscellaneous armour, rare weapons or cultist loot (by rolls one, two,
/// and above); past the sixth difficulty, miscellaneous armour.
pub proof fn enemy_loot_by_difficulty(difficulty: u32, roll: u32)
    ensures
        difficulty <= 5 && roll == 0 ==> enemy_loot_table_spec(difficulty, roll)
            == "common.loot_tables.loot_table_humanoids"@,
        difficulty <= 2 && roll == 1 ==> enemy_loot_table_spec(difficulty, roll) == seq![
            "common.loot_tables.loot_table_armor_cloth"@,
            "common.loot_tables.loot_table_armor_light"@,
            "common.loot_tables.loot_table_armor_heavy"@,
        ][difficulty as int],
        difficulty <= 2 && roll >= 2 ==> enemy_loot_table_spec(difficulty, roll) == seq![
            "common.loot_tables.loot_table_weapon_common"@,
            "common.loot_tables.loot_table_weapon_uncommon"@,
            "common.loot_tables.loot_table_weapon_rare"@,
        ][difficulty as int],
        3 <= difficulty <= 5 && roll == 1 ==> enemy_loot_table_spec(difficulty, roll) == if difficulty == 3 {
            "common.loot_tables.loot_table_armor_heavy"@
        } else {
            "common.loot_tables.loot_table_armor_misc"@
        },
        3 <= difficulty <= 5 && roll == 2 ==> enemy_loot_table_spec(difficulty, roll)
            == "common.loot_tables.loot_table_weapon_rare"@,
        3 <= difficulty <= 5 && roll >= 3 ==> enemy_loot_table_spec(difficulty, roll)
            == "common.loot_tables.loot_table_cultists"@,
        difficulty > 5 ==> enemy_loot_table_spec(difficulty, roll) == "common.loot_tables.loot_table_armor_misc"@,
{
}

/// The five words a dungeon's name may end with, by roll: Dungeon, Lair,
/// Crib, Catacombs, and Pit for every roll from four on.
pub proof fn dungeon_name_suffixes(roll: u32)
    ensures
        name_suffix_spec(roll) == if roll < 4 {
            seq!["Dungeon"@, "Lair"@, "Crib"@, "Catacombs"@][roll as int]
        } else {
            "Pit"@
        },
{
}
/// Pillars stand on a grid with the room's pillar spacing: a tile holds a
/// pillar exactly when both its coordinates are whole multiples of the
/// spacing (negative ones included); rooms without pillars have none.
pub proof fn pillars_stand_on_the_spacing_grid(tile_pos: Vec2i, space: i32)
    requires
        space > 0,
    ensures
        is_pillar(tile_pos, Some(space)) <==> exists|a: int, b: int|
            #[trigger] (a * space) == tile_pos.x && #[trigger] (b * space) == tile_pos.y,
        !is_pillar(tile_pos, None),
{
    let s = space as int;
    let x = tile_pos.x as int;
    let y = tile_pos.y as int;
    vstd::arithmetic::div_mod::lemma_fundamental_div_mod(x, s);
    vstd::arithmetic::div_mod::lemma_fundamental_div_mod(y, s);
    if is_pillar(tile_pos, Some(space)) {
        let a = x / s;
        let b = y / s;
        vstd::arithmetic::mul::lemma_mul_is_commutative(s, a);
        vstd::arithmetic::mul::lemma_mul_is_commutative(s, b);
        assert(a * space == tile_pos.x && b * space == tile_pos.y);
    }
    if exists|a: int, b: int| #[trigger] (a * space) == tile_pos.x && #[trigger] (b * space) == tile_pos.y {
        let (a, b) = choose|a: int, b: int| #[trigger] (a * space) == tile_pos.x && #[trigger] (b * space) == tile_pos.y;
        vstd::arithmetic::div_mod::lemma_mod_multiples_basic(a, s);
        vstd::arithmetic::div_mod::lemma_mod_multiples_basic(b, s);
    }
}

/// A column lies in the tile it is counted in: the tile's first block is at
/// most the column, and the next tile's first block lies past it; its offset
/// from the tile's centre block is between -6 and 6. Block positions are
/// taken relative to the floor's first tile.
pub proof fn columns_lie_in_their_tiles(pos: Vec2i, tile_offset: Vec2i)
    requires
        -COORD_LIMIT / 2 <= pos.x <= COORD_LIMIT / 2,
        -COORD_LIMIT / 2 <= pos.y <= COORD_LIMIT / 2,
        -COORD_LIMIT / 2 <= tile_offset.x * TILE_SIZE <= COORD_LIMIT / 2,
        -COORD_LIMIT / 2 <= tile_offset.y * TILE_SIZE <= COORD_LIMIT / 2,
    ensures
        ({
            let c = column_pos_spec(pos, tile_offset);
            &&& c.rpos.x == pos.x - tile_offset.x * 13 && c.rpos.y == pos.y - tile_offset.y * 13
            &&& c.tile_pos.x * 13 <= c.rpos.x < c.tile_pos.x * 13 + 13
            &&& c.tile_pos.y * 13 <= c.rpos.y < c.tile_pos.y * 13 + 13
            &&& c.rtile_pos.x == c.rpos.x - (c.tile_pos.x * 13 + 6) && -6 <= c.rtile_pos.x <= 6
            &&& c.rtile_pos.y == c.rpos.y - (c.tile_pos.y * 13 + 6) && -6 <= c.rtile_pos.y <= 6
        }),
{
    let rx = pos.x - tile_offset.x * TILE_SIZE;
    let ry = pos.y - tile_offset.y * TILE_SIZE;
    vstd::arithmetic::div_mod::lemma_fundamental_div_mod(rx, 13);
    vstd::arithmetic::div_mod::lemma_fundamental_div_mod(ry, 13);
    vstd::arithmetic::div_mod::lemma_mod_bound(rx, 13);
    vstd::arithmetic::div_mod::lemma_mod_bound(ry, 13);
}

} // verus!
