//! Structures of a site as trees of primitive shapes: boxes and pyramids
//! combined by intersection, union and symmetric difference. A tree is kept
//! in a store where every combinator refers to shapes stored before it.
use vstd::prelude::*;

verus! {

/// A point of the voxel grid.
#[derive(Clone, Copy, Debug, PartialEq, Eq, Structural)]
pub struct Vec3i {
    pub x: i32,
    pub y: i32,
    pub z: i32,
}

/// An axis-aligned box of voxels, from `min` up to `max`.
#[derive(Clone, Copy, Debug, PartialEq, Eq, Structural)]
pub struct Aabb {
    pub min: Vec3i,
    pub max: Vec3i,
}

/// A shape, or a combination of two shapes of the store it lives in,
/// referred to by their ids.
#[derive(Clone, Copy, Debug, PartialEq, Eq, Structural)]
pub enum Primitive {
    Empty,
    Aabb(Aabb),
    Pyramid { aabb: Aabb, inset: i32 },
    And(usize, usize),
    Or(usize, usize),
    Xor(usize, usize),
}

/// A colour.
#[derive(Clone, Copy, Debug, PartialEq, Eq, Structural)]
pub struct Rgb {
    pub r: u8,
    pub g: u8,
    pub b: u8,
}

/// The kind of a block, by its number.
#[derive(Clone, Copy, Debug, PartialEq, Eq, Structural)]
pub struct BlockKind(pub u8);

/// A block of terrain: its kind and colour.
#[derive(Clone, Copy, Debug, PartialEq, Eq, Structural)]
pub struct Block {
    pub kind: BlockKind,
    pub color: Rgb,
}

/// What a shape is filled with: one block, or bricks whose colour varies
/// from `Rgb` by less than the given range.
#[derive(Clone, Copy, Debug, PartialEq, Eq, Structural)]
pub enum Fill {
    Block(Block),
    Brick(BlockKind, Rgb, u8),
}

/// A store of values, each found again by the id it was inserted under.
pub struct Store<T> {
    items: Vec<T>,
}

impl<T> View for Store<T> {
    type V = Seq<T>;

    closed spec fn view(&self) -> Seq<T> {
        self.items@
    }
}

impl<T> Store<T> {
    pub fn new() -> (r: Self)
        ensures
            r@ == Seq::<T>::empty(),
    {
        Store { items: Vec::new() }
    }

    /// Adds a value; its id is the number of values stored before it.
    pub fn insert(&mut self, item: T) -> (id: usize)
        requires
            old(self)@.len() < usize::MAX,
        ensures
            id == old(self)@.len(),
            final(self)@ == old(self)@.push(item),
    {
        let id = self.items.len();
        self.items.push(item);
        id
    }

    /// The value stored under `id`.
    pub fn get(&self, id: usize) -> (r: &T)
        requires
            id < self@.len(),
        ensures
            *r == self@[id as int],
    {
        &self.items[id]
    }

    pub fn len(&self) -> (n: usize)
        ensures
            n == self@.len(),
    {
        self.items.len()
    }
}

/// Every combinator of the tree refers to shapes stored before it.
pub open spec fn tree_wf(tree: Seq<Primitive>) -> bool {
    forall|k: int|
        0 <= k < tree.len() ==> match #[trigger] tree[k] {
            Primitive::And(a, b) => a < k && b < k,
            Primitive::Or(a, b) => a < k && b < k,
            Primitive::Xor(a, b) => a < k && b < k,
            _ => true,
        }
}

pub open spec fn min_i32(a: i32, b: i32) -> i32 {
    if a < b {
        a
    } else {
        b
    }
}

pub open spec fn max_i32(a: i32, b: i32) -> i32 {
    if a > b {
        a
    } else {
        b
    }
}

/// The smallest box holding both boxes.
pub open spec fn union_spec(a: Aabb, b: Aabb) -> Aabb {
    Aabb {
        min: Vec3i { x: min_i32(a.min.x, b.min.x), y: min_i32(a.min.y, b.min.y), z: min_i32(a.min.z, b.min.z) },
        max: Vec3i { x: max_i32(a.max.x, b.max.x), y: max_i32(a.max.y, b.max.y), z: max_i32(a.max.z, b.max.z) },
    }
}

/// The box both boxes hold.
pub open spec fn intersection_spec(a: Aabb, b: Aabb) -> Aabb {
    Aabb {
        min: Vec3i { x: max_i32(a.min.x, b.min.x), y: max_i32(a.min.y, b.min.y), z: max_i32(a.min.z, b.min.z) },
        max: Vec3i { x: min_i32(a.max.x, b.max.x), y: min_i32(a.max.y, b.max.y), z: min_i32(a.max.z, b.max.z) },
    }
}

/// Combines two optional boxes: both present gives their combination,
/// one present gives that one.
pub open spec fn or_zip(a: Option<Aabb>, b: Option<Aabb>, intersect: bool) -> Option<Aabb> {
    match (a, b) {
        (Some(x), Some(y)) => Some(if intersect { intersection_spec(x, y) } else { union_spec(x, y) }),
        (Some(x), None) => Some(x),
        (None, y) => y,
    }
}

/// The bounding box of the shape `prim` of the tree, if it has one.
pub open spec fn bounds_spec(tree: Seq<Primitive>, prim: int) -> Option<Aabb>
    decreases prim,
{
    if 0 <= prim < tree.len() {
        match tree[prim] {
            Primitive::Empty => None,
            Primitive::Aabb(aabb) => Some(aabb),
            Primitive::Pyramid { aabb, .. } => Some(aabb),
            Primitive::And(a, b) => if a < prim && b < prim {
                or_zip(bounds_spec(tree, a as int), bounds_spec(tree, b as int), true)
            } else {
                None
            },
            Primitive::Or(a, b) => if a < prim && b < prim {
                or_zip(bounds_spec(tree, a as int), bounds_spec(tree, b as int), false)
            } else {
                None
            },
            Primitive::Xor(a, b) => if a < prim && b < prim {
                or_zip(bounds_spec(tree, a as int), bounds_spec(tree, b as int), false)
            } else {
                None
            },
        }
    } else {
        None
    }
}

/// A point lies in a box when it is at least `min` and below `max` on every
/// axis.
pub open spec fn aabb_contains(aabb: Aabb, pos: Vec3i) -> bool {
    &&& aabb.min.x <= pos.x < aabb.max.x
    &&& aabb.min.y <= pos.y < aabb.max.y
    &&& aabb.min.z <= pos.z < aabb.max.z
}

/// Whether the shape `prim` of the tree holds `pos`, where `pyramid_hits`
/// tells for each pyramid of the tree, by its id, whether the sloped part of
/// the pyramid holds `pos`.
pub open spec fn contains_spec(tree: Seq<Primitive>, prim: int, pos: Vec3i, pyramid_hits: Seq<bool>) -> bool
    decreases prim,
{
    if 0 <= prim < tree.len() {
        match tree[prim] {
            Primitive::Empty => false,
            Primitive::Aabb(aabb) => aabb_contains(aabb, pos),
            Primitive::Pyramid { aabb, .. } => aabb_contains(aabb, pos) && pyramid_hits[prim],
            Primitive::And(a, b) => a < prim && b < prim && contains_spec(tree, a as int, pos, pyramid_hits)
                && contains_spec(tree, b as int, pos, pyramid_hits),
            Primitive::Or(a, b) => a < prim && b < prim && (contains_spec(tree, a as int, pos, pyramid_hits)
                || contains_spec(tree, b as int, pos, pyramid_hits)),
            Primitive::Xor(a, b) => a < prim && b < prim && (contains_spec(tree, a as int, pos, pyramid_hits)
                != contains_spec(tree, b as int, pos, pyramid_hits)),
        }
    } else {
        false
    }
}

/// Shapes combine as sets of points: a box holds the points at least its
/// `min` and below its `max` on every axis, a pyramid the points of its box
/// that its sloped part holds, `Empty` no point, and `And`, `Or` and `Xor`
/// the points both, either, or exactly one of their two parts hold.
pub proof fn shapes_combine_as_sets(tree: Seq<Primitive>, prim: int, pos: Vec3i, pyramid_hits: Seq<bool>)
    requires
        tree_wf(tree),
        0 <= prim < tree.len(),
    ensures
        tree[prim] is Empty ==> !contains_spec(tree, prim, pos, pyramid_hits),
        tree[prim] matches Primitive::Aabb(b) ==> (contains_spec(tree, prim, pos, pyramid_hits) <==> (b.min.x <= pos.x
            < b.max.x && b.min.y <= pos.y < b.max.y && b.min.z <= pos.z < b.max.z)),
        tree[prim] matches Primitive::Pyramid { aabb: b, .. } ==> (contains_spec(tree, prim, pos, pyramid_hits) <==> (
        b.min.x <= pos.x < b.max.x && b.min.y <= pos.y < b.max.y && b.min.z <= pos.z < b.max.z && pyramid_hits[prim])),
        tree[prim] matches Primitive::And(a, b) ==> (contains_spec(tree, prim, pos, pyramid_hits) <==> (contains_spec(
            tree,
            a as int,
            pos,
            pyramid_hits,
        ) && contains_spec(tree, b as int, pos, pyramid_hits))),
        tree[prim] matches Primitive::Or(a, b) ==> (contains_spec(tree, prim, pos, pyramid_hits) <==> (contains_spec(
            tree,
            a as int,
            pos,
            pyramid_hits,
        ) || contains_spec(tree, b as int, pos, pyramid_hits))),
        tree[prim] matches Primitive::Xor(a, b) ==> (contains_spec(tree, prim, pos, pyramid_hits) <==> (contains_spec(
            tree,
            a as int,
            pos,
            pyramid_hits,
        ) != contains_spec(tree, b as int, pos, pyramid_hits))),
{
    assert(match tree[prim] {
        Primitive::And(a, b) => a < prim && b < prim,
        Primitive::Or(a, b) => a < prim && b < prim,
        Primitive::Xor(a, b) => a < prim && b < prim,
        _ => true,
    });
}

/// The bounds of a shape: a box or pyramid is bounded by its own box,
/// `Empty` by nothing; when both parts of a combination have bounds, an
/// `And` is bounded by where their bounds overlap and an `Or` or `Xor` by
/// the smallest box holding both; when only one part has bounds, the
/// combination takes them.
pub proof fn shape_bounds_combine(tree: Seq<Primitive>, prim: int)
    requires
        tree_wf(tree),
        0 <= prim < tree.len(),
    ensures
        tree[prim] is Empty ==> bounds_spec(tree, prim) is None,
        tree[prim] matches Primitive::Aabb(b) ==> bounds_spec(tree, prim) == Some(b),
        tree[prim] matches Primitive::Pyramid { aabb: b, .. } ==> bounds_spec(tree, prim) == Some(b),
        tree[prim] matches Primitive::And(a, b) ==> (bounds_spec(tree, a as int) matches Some(x) ==> (bounds_spec(
            tree,
            b as int,
        ) matches Some(y) ==> bounds_spec(tree, prim) == Some(
            Aabb {
                min: Vec3i { x: max_i32(x.min.x, y.min.x), y: max_i32(x.min.y, y.min.y), z: max_i32(x.min.z, y.min.z) },
                max: Vec3i { x: min_i32(x.max.x, y.max.x), y: min_i32(x.max.y, y.max.y), z: min_i32(x.max.z, y.max.z) },
            },
        ))),
        tree[prim] matches Primitive::Or(a, b) ==> (bounds_spec(tree, a as int) matches Some(x) ==> (bounds_spec(
            tree,
            b as int,
        ) matches Some(y) ==> bounds_spec(tree, prim) == Some(
            Aabb {
                min: Vec3i { x: min_i32(x.min.x, y.min.x), y: min_i32(x.min.y, y.min.y), z: min_i32(x.min.z, y.min.z) },
                max: Vec3i { x: max_i32(x.max.x, y.max.x), y: max_i32(x.max.y, y.max.y), z: max_i32(x.max.z, y.max.z) },
            },
        ))),
        tree[prim] matches Primitive::Xor(a, b) ==> (bounds_spec(tree, a as int) matches Some(x) ==> (bounds_spec(
            tree,
            b as int,
        ) matches Some(y) ==> bounds_spec(tree, prim) == Some(
            Aabb {
                min: Vec3i { x: min_i32(x.min.x, y.min.x), y: min_i32(x.min.y, y.min.y), z: min_i32(x.min.z, y.min.z) },
                max: Vec3i { x: max_i32(x.max.x, y.max.x), y: max_i32(x.max.y, y.max.y), z: max_i32(x.max.z, y.max.z) },
            },
        ))),
        (tree[prim] is And || tree[prim] is Or || tree[prim] is Xor) ==> ({
            let (a, b) = match tree[prim] {
                Primitive::And(a, b) => (a, b),
                Primitive::Or(a, b) => (a, b),
                Primitive::Xor(a, b) => (a, b),
                _ => (0usize, 0usize),
            };
            &&& bounds_spec(tree, a as int) is None ==> bounds_spec(tree, prim) == bounds_spec(tree, b as int)
            &&& bounds_spec(tree, b as int) is None ==> bounds_spec(tree, prim) == bounds_spec(tree, a as int)
        }),
{
    match tree[prim] {
        Primitive::And(a, b) => {
            assert(a < prim && b < prim);
            assert(bounds_spec(tree, prim) == or_zip(bounds_spec(tree, a as int), bounds_spec(tree, b as int), true));
        },
        Primitive::Or(a, b) => {
            assert(a < prim && b < prim);
            assert(bounds_spec(tree, prim) == or_zip(bounds_spec(tree, a as int), bounds_spec(tree, b as int), false));
        },
        Primitive::Xor(a, b) => {
            assert(a < prim && b < prim);
            assert(bounds_spec(tree, prim) == or_zip(bounds_spec(tree, a as int), bounds_spec(tree, b as int), false));
        },
        _ => {},
    }
}

/// The union of two boxes holds every point either box holds; their
/// intersection holds exactly the points both hold.
pub proof fn box_union_and_intersection(a: Aabb, b: Aabb, pos: Vec3i)
    ensures
        aabb_contains(a, pos) || aabb_contains(b, pos) ==> aabb_contains(union_spec(a, b), pos),
        aabb_contains(intersection_spec(a, b), pos) <==> (aabb_contains(a, pos) && aabb_contains(b, pos)),
        union_spec(a, b).min.x <= a.min.x && union_spec(a, b).min.x <= b.min.x,
        union_spec(a, b).max.x >= a.max.x && union_spec(a, b).max.x >= b.max.x,
        union_spec(a, b).min.x == a.min.x || union_spec(a, b).min.x == b.min.x,
        union_spec(a, b).max.x == a.max.x || union_spec(a, b).max.x == b.max.x,
{
}

/// The bounds of a shape hold every point the shape holds.
pub proof fn bounds_hold_shape(tree: Seq<Primitive>, prim: int, pos: Vec3i, pyramid_hits: Seq<bool>)
    requires
        tree_wf(tree),
        0 <= prim < tree.len(),
        contains_spec(tree, prim, pos, pyramid_hits),
    ensures
        bounds_spec(tree, prim) is Some,
        aabb_contains(bounds_spec(tree, prim).unwrap(), pos),
    decreases prim,
{
    match tree[prim] {
        Primitive::And(a, b) => {
            bounds_hold_shape(tree, a as int, pos, pyramid_hits);
            bounds_hold_shape(tree, b as int, pos, pyramid_hits);
        },
        Primitive::Or(a, b) => {
            if contains_spec(tree, a as int, pos, pyramid_hits) {
                bounds_hold_shape(tree, a as int, pos, pyramid_hits);
            } else {
                bounds_hold_shape(tree, b as int, pos, pyramid_hits);
            }
        },
        Primitive::Xor(a, b) => {
            if contains_spec(tree, a as int, pos, pyramid_hits) {
                bounds_hold_shape(tree, a as int, pos, pyramid_hits);
            } else {
                bounds_hold_shape(tree, b as int, pos, pyramid_hits);
            }
        },
        _ => {},
    }
}

fn min_of(a: i32, b: i32) -> (r: i32)
    ensures
        r == min_i32(a, b),
{
    if a < b {
        a
    } else {
        b
    }
}

fn max_of(a: i32, b: i32) -> (r: i32)
    ensures
        r == max_i32(a, b),
{
    if a > b {
        a
    } else {
        b
    }
}

impl Aabb {
    /// The smallest box holding both boxes.
    pub fn union(self, other: Aabb) -> (r: Aabb)
        ensures
            r == union_spec(self, other),
    {
        Aabb {
            min: Vec3i {
                x: min_of(self.min.x, other.min.x),
                y: min_of(self.min.y, other.min.y),
                z: min_of(self.min.z, other.min.z),
            },
            max: Vec3i {
                x: max_of(self.max.x, other.max.x),
                y: max_of(self.max.y, other.max.y),
                z: max_of(self.max.z, other.max.z),
            },
        }
    }

    /// The box both boxes hold.
    pub fn intersection(self, other: Aabb) -> (r: Aabb)
        ensures
            r == intersection_spec(self, other),
    {
        Aabb {
            min: Vec3i {
                x: max_of(self.min.x, other.min.x),
                y: max_of(self.min.y, other.min.y),
                z: max_of(self.min.z, other.min.z),
            },
            max: Vec3i {
                x: min_of(self.max.x, other.max.x),
                y: min_of(self.max.y, other.max.y),
                z: min_of(self.max.z, other.max.z),
            },
        }
    }

    /// The empty box at a point.
    pub fn new_empty(p: Vec3i) -> (r: Aabb)
        ensures
            r == (Aabb { min: p, max: p }),
    {
        Aabb { min: p, max: p }
    }
}

fn or_zip_with(a: Option<Aabb>, b: Option<Aabb>, intersect: bool) -> (r: Option<Aabb>)
    ensures
        r == or_zip(a, b, intersect),
{
    match (a, b) {
        (Some(x), Some(y)) => Some(
            if intersect {
                x.intersection(y)
            } else {
                x.union(y)
            },
        ),
        (Some(x), None) => Some(x),
        (None, y) => y,
    }
}

fn aabb_contains_exec(aabb: Aabb, pos: Vec3i) -> (b: bool)
    ensures
        b == aabb_contains(aabb, pos),
{
    aabb.min.x <= pos.x && pos.x < aabb.max.x && aabb.min.y <= pos.y && pos.y < aabb.max.y && aabb.min.z <= pos.z
        && pos.z < aabb.max.z
}

impl Fill {
    /// Whether the shape `prim` holds `pos`; `pyramid_hits` tells for each
    /// pyramid of the tree, by its id, whether its sloped part holds `pos`.
    pub fn contains_at(&self, tree: &Store<Primitive>, prim: usize, pos: Vec3i, pyramid_hits: &Vec<bool>) -> (b: bool)
        requires
            tree_wf(tree@),
            prim < tree@.len(),
            pyramid_hits@.len() == tree@.len(),
        ensures
            b == contains_spec(tree@, prim as int, pos, pyramid_hits@),
        decreases prim,
    {
        match tree.get(prim) {
            Primitive::Empty => false,
            Primitive::Aabb(aabb) => aabb_contains_exec(*aabb, pos),
            Primitive::Pyramid { aabb, .. } => aabb_contains_exec(*aabb, pos) && pyramid_hits[prim],
            Primitive::And(a, b) => {
                self.contains_at(tree, *a, pos, pyramid_hits) && self.contains_at(tree, *b, pos, pyramid_hits)
            },
            Primitive::Or(a, b) => {
                self.contains_at(tree, *a, pos, pyramid_hits) || self.contains_at(tree, *b, pos, pyramid_hits)
            },
            Primitive::Xor(a, b) => {
                self.contains_at(tree, *a, pos, pyramid_hits) != self.contains_at(tree, *b, pos, pyramid_hits)
            },
        }
    }

    /// The block this fill puts at `pos` when the shape `prim` holds it:
    /// the fill's block, or a brick whose colour is raised on every channel
    /// by `brick_noise` modulo the brick's range, where `brick_noise` is the
    /// noise value of the brick that `pos` belongs to.
    pub fn sample_at(
        &self,
        tree: &Store<Primitive>,
        prim: usize,
        pos: Vec3i,
        pyramid_hits: &Vec<bool>,
        brick_noise: u32,
    ) -> (r: Option<Block>)
        requires
            tree_wf(tree@),
            prim < tree@.len(),
            pyramid_hits@.len() == tree@.len(),
            match *self {
                Fill::Brick(_, col, range) => range > 0 && col.r + range <= 256 && col.g + range <= 256 && col.b
                    + range <= 256,
                _ => true,
            },
        ensures
            !contains_spec(tree@, prim as int, pos, pyramid_hits@) ==> r is None,
            contains_spec(tree@, prim as int, pos, pyramid_hits@) ==> r == Some(
                match *self {
                    Fill::Block(block) => block,
                    Fill::Brick(bk, col, range) => {
                        let n = (brick_noise % (range as u32)) as u8;
                        Block { kind: bk, color: Rgb { r: (col.r + n) as u8, g: (col.g + n) as u8, b: (col.b + n) as u8 } }
                    },
                },
            ),
    {
        if self.contains_at(tree, prim, pos, pyramid_hits) {
            match self {
                Fill::Block(block) => Some(*block),
                Fill::Brick(bk, col, range) => {
                    let n = (brick_noise % (*range as u32)) as u8;
                    Some(Block { kind: *bk, color: Rgb { r: col.r + n, g: col.g + n, b: col.b + n } })
                },
            }
        } else {
            None
        }
    }

    fn get_bounds_inner(&self, tree: &Store<Primitive>, prim: usize) -> (r: Option<Aabb>)
        requires
            tree_wf(tree@),
            prim < tree@.len(),
        ensures
            r == bounds_spec(tree@, prim as int),
        decreases prim,
    {
        match tree.get(prim) {
            Primitive::Empty => None,
            Primitive::Aabb(aabb) => Some(*aabb),
            Primitive::Pyramid { aabb, .. } => Some(*aabb),
            Primitive::And(a, b) => or_zip_with(self.get_bounds_inner(tree, *a), self.get_bounds_inner(tree, *b), true),
            Primitive::Or(a, b) => or_zip_with(self.get_bounds_inner(tree, *a), self.get_bounds_inner(tree, *b), false),
            Primitive::Xor(a, b) => or_zip_with(self.get_bounds_inner(tree, *a), self.get_bounds_inner(tree, *b), false),
        }
    }

    /// The bounding box of the shape `prim`; an empty box at the origin when
    /// the shape has none.
    pub fn get_bounds(&self, tree: &Store<Primitive>, prim: usize) -> (r: Aabb)
        requires
            tree_wf(tree@),
            prim < tree@.len(),
        ensures
            r == match bounds_spec(tree@, prim as int) {
                Some(aabb) => aabb,
                None => Aabb { min: Vec3i { x: 0, y: 0, z: 0 }, max: Vec3i { x: 0, y: 0, z: 0 } },
            },
    {
        match self.get_bounds_inner(tree, prim) {
            Some(aabb) => aabb,
            None => Aabb::new_empty(Vec3i { x: 0, y: 0, z: 0 }),
        }
    }
}

} // verus!
