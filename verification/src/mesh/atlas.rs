//! Placing the rectangles of a greedy mesh in a texture atlas that grows,
//! up to a maximum size, when a rectangle does not fit.
use guillotiere::{AllocatorOptions, SimpleAtlasAllocator, Size};
use vstd::prelude::*;

use super::greedy::{atlas_settings, min_i, next_atlas_size};

verus! {

/// The texture atlas allocator.
#[verifier::external_type_specification]
#[verifier::external_body]
pub struct ExSimpleAtlasAllocator(SimpleAtlasAllocator);

/// The size an atlas has: its width and height.
pub uninterp spec fn atlas_size(a: SimpleAtlasAllocator) -> (int, int);

/// The alignment an atlas was made with: allocated sizes are rounded up to
/// multiples of it.
pub uninterp spec fn atlas_alignment(a: SimpleAtlasAllocator) -> (int, int);

/// The free rectangles of an atlas, each as its `min` and `max` corners:
/// where the allocator looks for room.
pub uninterp spec fn atlas_free(a: SimpleAtlasAllocator) -> Set<(int, int, int, int)>;

/// The texels of the rectangles an atlas has handed out.
pub uninterp spec fn atlas_used(a: SimpleAtlasAllocator) -> Set<(int, int)>;

/// Whether a free rectangle is at least `width` by `height`.
pub open spec fn free_fits(f: (int, int, int, int), width: int, height: int) -> bool {
    f.2 - f.0 >= width && f.3 - f.1 >= height
}

/// Some free rectangle of the atlas is at least `width` by `height`.
pub open spec fn some_free_fits(a: SimpleAtlasAllocator, width: int, height: int) -> bool {
    exists|f: (int, int, int, int)| #[trigger] atlas_free(a).contains(f) && free_fits(f, width, height)
}

/// Some free rectangle of the atlas at least `width` by `height` has its
/// `min` corner at `(x, y)`.
pub open spec fn free_fits_at(a: SimpleAtlasAllocator, width: int, height: int, x: int, y: int) -> bool {
    exists|f: (int, int, int, int)|
        #[trigger] atlas_free(a).contains(f) && free_fits(f, width, height) && f.0 == x && f.1 == y
}

/// A rectangle of the atlas, from its `min` corner up to its `max` corner.
#[derive(Clone, Copy, Debug, PartialEq, Eq, Structural)]
pub struct AtlasRect {
    pub min_x: i32,
    pub min_y: i32,
    pub max_x: i32,
    pub max_y: i32,
}

/// Calls `SimpleAtlasAllocator::with_options`: the atlas it makes has the
/// given size and alignment, has handed out nothing, and its one free
/// rectangle is the whole atlas. Sizes and alignments are at least one, so
/// that later allocations and growth measure rectangles without overflow.
#[verifier::external_body]
fn new_atlas(
    width: i32,
    height: i32,
    align_width: i32,
    align_height: i32,
    small_size_threshold: i32,
    large_size_threshold: i32,
) -> (a: SimpleAtlasAllocator)
    requires
        width >= 1,
        height >= 1,
        align_width >= 1,
        align_height >= 1,
    ensures
        atlas_size(a) == (width as int, height as int),
        atlas_alignment(a) == (align_width as int, align_height as int),
        atlas_used(a) == Set::<(int, int)>::empty(),
        atlas_free(a) == set![(0int, 0int, width as int, height as int)],
{
    SimpleAtlasAllocator::with_options(
        Size::new(width, height),
        &AllocatorOptions { alignment: Size::new(align_width, align_height), small_size_threshold, large_size_threshold },
    )
}

/// Calls `SimpleAtlasAllocator::size`, which gives the atlas's size.
#[verifier::external_body]
fn size_of_atlas(a: &SimpleAtlasAllocator) -> (r: (i32, i32))
    ensures
        (r.0 as int, r.1 as int) == atlas_size(*a),
{
    let s = a.size();
    (s.width, s.height)
}

/// Calls `SimpleAtlasAllocator::allocate`. With an alignment of one, a
/// non-empty request is met exactly when some free rectangle is large
/// enough (every such rectangle lies in a bucket the search visits): the
/// rectangle given has the requested size at the corner of such a free
/// rectangle, so it lies in the atlas and shares no texel with what was
/// handed out before, and from then on it counts as handed out. An empty
/// request gets none. When nothing is given the allocator is left as it
/// was; the atlas keeps its size and alignment in any case. Which large
/// enough free rectangle is taken is left unsaid.
#[verifier::external_body]
fn allocate_in_atlas(a: &mut SimpleAtlasAllocator, width: i32, height: i32) -> (r: Option<AtlasRect>)
    requires
        atlas_alignment(*old(a)) == (1int, 1int),
        atlas_size(*old(a)).0 >= 1,
        atlas_size(*old(a)).1 >= 1,
    ensures
        atlas_size(*final(a)) == atlas_size(*old(a)),
        atlas_alignment(*final(a)) == atlas_alignment(*old(a)),
        r is Some <==> (width > 0 && height > 0 && some_free_fits(*old(a), width as int, height as int)),
        r is Some ==> r.unwrap().max_x - r.unwrap().min_x == width && r.unwrap().max_y - r.unwrap().min_y == height,
        r is Some ==> 0 <= r.unwrap().min_x && r.unwrap().max_x <= atlas_size(*final(a)).0 && 0 <= r.unwrap().min_y
            && r.unwrap().max_y <= atlas_size(*final(a)).1,
        r is Some ==> free_fits_at(*old(a), width as int, height as int, r.unwrap().min_x as int, r.unwrap().min_y as int),
        r is Some ==> rect_texels(r.unwrap()).disjoint(atlas_used(*old(a))) && atlas_used(*final(a))
            == atlas_used(*old(a)).union(rect_texels(r.unwrap())),
        r is None ==> *final(a) == *old(a),
{
    match a.allocate(Size::new(width, height)) {
        Some(rect) => Some(AtlasRect { min_x: rect.min.x, min_y: rect.min.y, max_x: rect.max.x, max_y: rect.max.y }),
        None => None,
    }
}

/// Calls `SimpleAtlasAllocator::grow`, which asserts that the atlas does not
/// shrink and then gives it the new size without moving what was handed
/// out; the alignment stays.
#[verifier::external_body]
fn grow_atlas(a: &mut SimpleAtlasAllocator, width: i32, height: i32)
    requires
        atlas_size(*old(a)).0 >= 1,
        atlas_size(*old(a)).1 >= 1,
        width >= atlas_size(*old(a)).0,
        height >= atlas_size(*old(a)).1,
    ensures
        atlas_size(*final(a)) == (width as int, height as int),
        atlas_alignment(*final(a)) == atlas_alignment(*old(a)),
        atlas_used(*final(a)) == atlas_used(*old(a)),
{
    a.grow(Size::new(width, height))
}

/// The atlas a greedy mesher starts with for a maximum size: at most 32 by
/// 32, with the size thresholds of `atlas_settings` and an alignment of
/// one.
pub fn new_mesh_atlas(max_width: i32, max_height: i32) -> (a: SimpleAtlasAllocator)
    requires
        min_i(max_width as int, max_height as int) >= 4,
    ensures
        atlas_size(a) == (min_i(32, max_width as int), min_i(32, max_height as int)),
        atlas_alignment(a) == (1int, 1int),
        atlas_used(a) == Set::<(int, int)>::empty(),
        atlas_free(a) == set![(0int, 0int, min_i(32, max_width as int), min_i(32, max_height as int))],
{
    let (small, large, width, height) = atlas_settings(max_width, max_height);
    new_atlas(width, height, 1, 1, small, large)
}

/// The texels a rectangle of the atlas covers.
pub open spec fn rect_texels(r: AtlasRect) -> Set<(int, int)> {
    Set::new(|p: (int, int)| r.min_x <= p.0 < r.max_x && r.min_y <= p.1 < r.max_y)
}

/// Doubling a side, saturated to the range of `i32`.
pub open spec fn doubled(v: int) -> int {
    if 2 * v > i32::MAX {
        i32::MAX as int
    } else if 2 * v < i32::MIN {
        i32::MIN as int
    } else {
        2 * v
    }
}

/// One growth of an atlas of size `s` towards the largest size `m`: each
/// side doubles, capped at `m`; an atlas that has reached `m` stays.
pub open spec fn atlas_step(s: (int, int), m: (int, int)) -> (int, int) {
    if s == m {
        s
    } else {
        (min_i(m.0, doubled(s.0)), min_i(m.1, doubled(s.1)))
    }
}

/// The size of an atlas of size `s` after `n` growths towards `m`.
pub open spec fn atlas_after(s: (int, int), m: (int, int), n: nat) -> (int, int)
    decreases n,
{
    if n == 0 {
        s
    } else {
        atlas_step(atlas_after(s, m, (n - 1) as nat), m)
    }
}

/// The size `t` is one an atlas of size `s` reaches by growing towards `m`.
pub open spec fn grows_to(s: (int, int), m: (int, int), t: (int, int)) -> bool {
    exists|n: nat| #[trigger] atlas_after(s, m, n) == t
}

/// The atlas `p` was the last one tried before growing to the size of `f`:
/// it lay on the chain of doublings from the size of `o`, had no free
/// rectangle of `w` by `h`, and one more doubling gives the size of `f`.
pub open spec fn grew_for_want_of_room(
    o: SimpleAtlasAllocator,
    p: SimpleAtlasAllocator,
    f: SimpleAtlasAllocator,
    m: (int, int),
    w: int,
    h: int,
) -> bool {
    &&& grows_to(atlas_size(o), m, atlas_size(p))
    &&& atlas_size(p) != m
    &&& !some_free_fits(p, w, h)
    &&& atlas_step(atlas_size(p), m) == atlas_size(f)
}

/// A rectangle placed in the atlas, waiting for its colours: the position
/// its texels are read from, its two axes, its place in the atlas, and the
/// direction its light comes from.
#[derive(Clone, Copy, Debug, PartialEq, Eq)]
pub struct TodoRect {
    pub pos: (i32, i32, i32),
    pub uv: ((u16, u16, u16), (u16, u16, u16)),
    pub rect: AtlasRect,
    pub delta: (i32, i32, i32),
}

/// The atlas was already as large as allowed and the rectangle still did not
/// fit.
#[derive(Clone, Copy, Debug, PartialEq, Eq, Structural)]
pub struct AtlasFull;

pub open spec fn max_u16(a: u16, b: u16) -> u16 {
    if a >= b {
        a
    } else {
        b
    }
}

/// The rectangle to colour for a face: the position is moved back along
/// the normal for faces looking forward, and the light comes from the side
/// the face looks to.
pub open spec fn todo_for(
    pos: (usize, usize, usize),
    uv: ((u16, u16, u16), (u16, u16, u16)),
    norm: (i16, i16, i16),
    faces_forward: bool,
    rect: AtlasRect,
) -> TodoRect {
    TodoRect {
        pos: if faces_forward {
            ((pos.0 - norm.0) as i32, (pos.1 - norm.1) as i32, (pos.2 - norm.2) as i32)
        } else {
            (pos.0 as i32, pos.1 as i32, pos.2 as i32)
        },
        uv,
        rect,
        delta: if faces_forward {
            (norm.0 as i32, norm.1 as i32, norm.2 as i32)
        } else {
            (-norm.0 as i32, -norm.1 as i32, -norm.2 as i32)
        },
    }
}

/// Places a face rectangle of `dim` in the atlas, with a border of one texel
/// on its far sides: the atlas doubles in each direction, up to
/// `max_size`, until the rectangle fits, so its final size lies on the
/// chain of doublings from the size it had. On success the rectangle is queued
/// for colouring and `cur_size` grows to cover it, and it overlaps no
/// rectangle handed out before; when the atlas is already as large as
/// allowed and no free part of it is large enough, nothing is queued and
/// `AtlasFull` comes back.
pub fn add_to_atlas(
    atlas: &mut SimpleAtlasAllocator,
    todo_rects: &mut Vec<TodoRect>,
    pos: (usize, usize, usize),
    uv: ((u16, u16, u16), (u16, u16, u16)),
    dim: (usize, usize),
    norm: (i16, i16, i16),
    faces_forward: bool,
    max_size: (i32, i32),
    cur_size: &mut (u16, u16),
) -> (r: Result<AtlasRect, AtlasFull>)
    requires
        atlas_alignment(*old(atlas)) == (1int, 1int),
        1 <= atlas_size(*old(atlas)).0 <= max_size.0,
        1 <= atlas_size(*old(atlas)).1 <= max_size.1,
        dim.0 < i32::MAX,
        dim.1 < i32::MAX,
        pos.0 <= i32::MAX - 32768,
        pos.1 <= i32::MAX - 32768,
        pos.2 <= i32::MAX - 32768,
    ensures
        atlas_alignment(*final(atlas)) == (1int, 1int),
        atlas_size(*old(atlas)).0 <= atlas_size(*final(atlas)).0 <= max_size.0,
        atlas_size(*old(atlas)).1 <= atlas_size(*final(atlas)).1 <= max_size.1,
        grows_to(atlas_size(*old(atlas)), (max_size.0 as int, max_size.1 as int), atlas_size(*final(atlas))),
        atlas_size(*final(atlas)) == atlas_size(*old(atlas)) || exists|p: SimpleAtlasAllocator|
            #[trigger] grew_for_want_of_room(
                *old(atlas),
                p,
                *final(atlas),
                (max_size.0 as int, max_size.1 as int),
                dim.0 + 1,
                dim.1 + 1,
            ),
        match r {
            Ok(rect) => {
                &&& rect.max_x - rect.min_x == dim.0 + 1
                &&& rect.max_y - rect.min_y == dim.1 + 1
                &&& 0 <= rect.min_x && rect.max_x <= atlas_size(*final(atlas)).0
                &&& 0 <= rect.min_y && rect.max_y <= atlas_size(*final(atlas)).1
                &&& rect_texels(rect).disjoint(atlas_used(*old(atlas)))
                &&& atlas_used(*final(atlas)) == atlas_used(*old(atlas)).union(rect_texels(rect))
                &&& final(todo_rects)@ == old(todo_rects)@.push(todo_for(pos, uv, norm, faces_forward, rect))
                &&& *final(cur_size) == (max_u16(old(cur_size).0, rect.max_x as u16), max_u16(
                    old(cur_size).1,
                    rect.max_y as u16,
                ))
            },
            Err(_) => {
                &&& atlas_size(*final(atlas)) == (max_size.0 as int, max_size.1 as int)
                &&& !some_free_fits(*final(atlas), dim.0 + 1, dim.1 + 1)
                &&& atlas_used(*final(atlas)) == atlas_used(*old(atlas))
                &&& final(todo_rects)@ == old(todo_rects)@
                &&& *final(cur_size) == *old(cur_size)
            },
        },
{
    let w = dim.0 as i32 + 1;
    let h = dim.1 as i32 + 1;
    let mut placed: Option<AtlasRect> = None;
    let ghost mut last: Option<SimpleAtlasAllocator> = None;
    proof {
        assert(atlas_after(atlas_size(*atlas), (max_size.0 as int, max_size.1 as int), 0) == atlas_size(*atlas));
    }
    loop
        invariant_except_break
            placed is None,
            atlas_used(*atlas) == atlas_used(*old(atlas)),
        invariant
            atlas_alignment(*atlas) == (1int, 1int),
            atlas_size(*old(atlas)).0 <= atlas_size(*atlas).0 <= max_size.0,
            atlas_size(*old(atlas)).1 <= atlas_size(*atlas).1 <= max_size.1,
            1 <= atlas_size(*atlas).0,
            1 <= atlas_size(*atlas).1,
            *todo_rects == *old(todo_rects),
            *cur_size == *old(cur_size),
            w == dim.0 + 1,
            h == dim.1 + 1,
            grows_to(atlas_size(*old(atlas)), (max_size.0 as int, max_size.1 as int), atlas_size(*atlas)),
            last is None ==> atlas_size(*atlas) == atlas_size(*old(atlas)),
            last is Some ==> grew_for_want_of_room(
                *old(atlas),
                last.unwrap(),
                *atlas,
                (max_size.0 as int, max_size.1 as int),
                w as int,
                h as int,
            ),
        ensures
            placed is Some,
            placed.unwrap().max_x - placed.unwrap().min_x == w,
            placed.unwrap().max_y - placed.unwrap().min_y == h,
            rect_texels(placed.unwrap()).disjoint(atlas_used(*old(atlas))),
            atlas_used(*atlas) == atlas_used(*old(atlas)).union(rect_texels(placed.unwrap())),
            0 <= placed.unwrap().min_x && placed.unwrap().max_x <= atlas_size(*atlas).0,
            0 <= placed.unwrap().min_y && placed.unwrap().max_y <= atlas_size(*atlas).1,
        decreases (max_size.0 - atlas_size(*atlas).0) + (max_size.1 - atlas_size(*atlas).1),
    {
        match allocate_in_atlas(atlas, w, h) {
            Some(found) => {
                placed = Some(found);
                break;
            },
            None => {},
        }
        let (cw, ch) = size_of_atlas(atlas);
        match next_atlas_size(cw, ch, max_size.0, max_size.1) {
            Some((nw, nh)) => {
                let ghost m = (max_size.0 as int, max_size.1 as int);
                let ghost n = choose|n: nat| #[trigger] atlas_after(atlas_size(*old(atlas)), m, n) == atlas_size(*atlas);
                let ghost tried = *atlas;
                grow_atlas(atlas, nw, nh);
                proof {
                    assert(atlas_after(atlas_size(*old(atlas)), m, n + 1) == atlas_size(*atlas));
                    last = Some(tried);
                    assert(grew_for_want_of_room(*old(atlas), tried, *atlas, m, w as int, h as int));
                }
            },
            None => {
                return Err(AtlasFull);
            },
        }
    }
    let atlas_rect = match placed {
        Some(found) => found,
        None => AtlasRect { min_x: 0, min_y: 0, max_x: 0, max_y: 0 },
    };
    let mx = atlas_rect.max_x as u16;
    let my = atlas_rect.max_y as u16;
    *cur_size = (if cur_size.0 >= mx {
        cur_size.0
    } else {
        mx
    }, if cur_size.1 >= my {
        cur_size.1
    } else {
        my
    });
    let todo = if faces_forward {
        TodoRect {
            pos: (pos.0 as i32 - norm.0 as i32, pos.1 as i32 - norm.1 as i32, pos.2 as i32 - norm.2 as i32),
            uv,
            rect: atlas_rect,
            delta: (norm.0 as i32, norm.1 as i32, norm.2 as i32),
        }
    } else {
        TodoRect {
            pos: (pos.0 as i32, pos.1 as i32, pos.2 as i32),
            uv,
            rect: atlas_rect,
            delta: (-(norm.0 as i32), -(norm.1 as i32), -(norm.2 as i32)),
        }
    };
    todo_rects.push(todo);
    Ok(atlas_rect)
}

/// The shared state of a greedy mesher: the texture atlas its rectangles
/// are placed in, the part of the atlas they cover so far, and the largest
/// the atlas may grow. (The colouring steps each meshed model leaves behind
/// are kept by the caller.)
pub struct GreedyMesh {
    atlas: SimpleAtlasAllocator,
    col_lights_size: (u16, u16),
    max_size: (i32, i32),
}

impl GreedyMesh {
    /// The atlas, as the allocator sees it.
    pub closed spec fn atlas_view(&self) -> SimpleAtlasAllocator {
        self.atlas
    }

    /// The part of the atlas covered so far.
    pub closed spec fn covered(&self) -> (u16, u16) {
        self.col_lights_size
    }

    /// The largest the atlas may grow.
    pub closed spec fn max_size_spec(&self) -> (i32, i32) {
        self.max_size
    }

    /// The atlas keeps the alignment it was made with and stays between one
    /// texel and the largest size allowed.
    pub closed spec fn wf(&self) -> bool {
        &&& atlas_alignment(self.atlas) == (1int, 1int)
        &&& 1 <= atlas_size(self.atlas).0 <= self.max_size.0
        &&& 1 <= atlas_size(self.atlas).1 <= self.max_size.1
    }

    /// A new greedy mesher whose atlas may grow up to `max_size` (each side
    /// at least 4 and at most `u16::MAX`): the atlas starts at the settings of
    /// `atlas_settings`, and one texel is covered.
    pub fn new(max_size: (i32, i32)) -> (r: GreedyMesh)
        requires
            min_i(max_size.0 as int, max_size.1 as int) >= 4,
            max_size.0 <= u16::MAX,
            max_size.1 <= u16::MAX,
        ensures
            r.wf(),
            atlas_size(r.atlas_view()) == (min_i(32, max_size.0 as int), min_i(32, max_size.1 as int)),
            atlas_used(r.atlas_view()) == Set::<(int, int)>::empty(),
            r.covered() == (1u16, 1u16),
            r.max_size_spec() == max_size,
    {
        GreedyMesh { atlas: new_mesh_atlas(max_size.0, max_size.1), col_lights_size: (1, 1), max_size }
    }

    /// The largest the atlas may grow.
    pub fn max_size(&self) -> (r: (i32, i32))
        ensures
            r == self.max_size_spec(),
    {
        self.max_size
    }

    /// The part of the atlas covered so far.
    pub fn col_lights_size(&self) -> (r: (u16, u16))
        ensures
            r == self.covered(),
    {
        self.col_lights_size
    }

    /// Places a face rectangle of `dim` in the atlas, as `add_to_atlas`
    /// does, growing the atlas up to the largest size allowed and the
    /// covered part to hold the rectangle: it overlaps no rectangle placed
    /// before, and it is refused only when the atlas has its largest size
    /// and no free part of it is large enough.
    pub fn add_rect(
        &mut self,
        todo_rects: &mut Vec<TodoRect>,
        pos: (usize, usize, usize),
        uv: ((u16, u16, u16), (u16, u16, u16)),
        dim: (usize, usize),
        norm: (i16, i16, i16),
        faces_forward: bool,
    ) -> (r: Result<AtlasRect, AtlasFull>)
        requires
            old(self).wf(),
            dim.0 < i32::MAX,
            dim.1 < i32::MAX,
            pos.0 <= i32::MAX - 32768,
            pos.1 <= i32::MAX - 32768,
            pos.2 <= i32::MAX - 32768,
        ensures
            final(self).wf(),
            final(self).max_size_spec() == old(self).max_size_spec(),
            atlas_size(old(self).atlas_view()).0 <= atlas_size(final(self).atlas_view()).0,
            atlas_size(old(self).atlas_view()).1 <= atlas_size(final(self).atlas_view()).1,
            grows_to(
                atlas_size(old(self).atlas_view()),
                (old(self).max_size_spec().0 as int, old(self).max_size_spec().1 as int),
                atlas_size(final(self).atlas_view()),
            ),
            atlas_size(final(self).atlas_view()) == atlas_size(old(self).atlas_view()) || exists|
                p: SimpleAtlasAllocator,
            |
                #[trigger] grew_for_want_of_room(
                    old(self).atlas_view(),
                    p,
                    final(self).atlas_view(),
                    (old(self).max_size_spec().0 as int, old(self).max_size_spec().1 as int),
                    dim.0 + 1,
                    dim.1 + 1,
                ),
            match r {
                Ok(rect) => {
                    &&& rect.max_x - rect.min_x == dim.0 + 1
                    &&& rect.max_y - rect.min_y == dim.1 + 1
                    &&& 0 <= rect.min_x && rect.max_x <= atlas_size(final(self).atlas_view()).0
                    &&& 0 <= rect.min_y && rect.max_y <= atlas_size(final(self).atlas_view()).1
                    &&& rect_texels(rect).disjoint(atlas_used(old(self).atlas_view()))
                    &&& atlas_used(final(self).atlas_view()) == atlas_used(old(self).atlas_view()).union(
                        rect_texels(rect),
                    )
                    &&& final(todo_rects)@ == old(todo_rects)@.push(todo_for(pos, uv, norm, faces_forward, rect))
                    &&& final(self).covered() == (max_u16(old(self).covered().0, rect.max_x as u16), max_u16(
                        old(self).covered().1,
                        rect.max_y as u16,
                    ))
                },
                Err(_) => {
                    &&& atlas_size(final(self).atlas_view()) == (
                        old(self).max_size_spec().0 as int,
                        old(self).max_size_spec().1 as int,
                    )
                    &&& !some_free_fits(final(self).atlas_view(), dim.0 + 1, dim.1 + 1)
                    &&& atlas_used(final(self).atlas_view()) == atlas_used(old(self).atlas_view())
                    &&& final(todo_rects)@ == old(todo_rects)@
                    &&& final(self).covered() == old(self).covered()
                },
            },
    {
        let max_size = self.max_size;
        add_to_atlas(
            &mut self.atlas,
            todo_rects,
            pos,
            uv,
            dim,
            norm,
            faces_forward,
            max_size,
            &mut self.col_lights_size,
        )
    }
}

} // verus!
