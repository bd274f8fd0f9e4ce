//! Greedy meshing of voxel faces: each cross-section of a volume is a grid
//! of faces to draw, and the faces are merged into as few rectangles as the
//! greedy strategy finds.
use vstd::prelude::*;

verus! {

/// A rectangle of faces of one cross-section: its corner, its extent, and
/// the meta information shared by all its faces.
#[derive(Clone, Copy, Debug, PartialEq, Eq, Structural)]
pub struct GreedyQuad {
    pub x: usize,
    pub y: usize,
    pub width: usize,
    pub height: usize,
    pub meta: u64,
}

/// The face at column `i`, row `j` of a mask laid out row by row with `w`
/// columns.
pub open spec fn cell(mask: Seq<Option<u64>>, w: int, i: int, j: int) -> Option<u64> {
    mask[j * w + i]
}

/// Whether the rectangle `q` contains column `i`, row `j`.
pub open spec fn covers(q: GreedyQuad, i: int, j: int) -> bool {
    q.x <= i < q.x + q.width && q.y <= j < q.y + q.height
}

/// Whether one of `quads` contains column `i`, row `j`.
pub open spec fn covered_by_any(quads: Seq<GreedyQuad>, i: int, j: int) -> bool {
    exists|t: int| 0 <= t < quads.len() && #[trigger] covers(quads[t], i, j)
}

/// What is left of the face at column `i`, row `j` once `quads` are drawn.
pub open spec fn remaining(mask: Seq<Option<u64>>, w: int, quads: Seq<GreedyQuad>, i: int, j: int) -> Option<u64> {
    if covered_by_any(quads, i, j) {
        None
    } else {
        cell(mask, w, i, j)
    }
}

/// Column `i`, row `j` comes before column `x`, row `y` in row order.
pub open spec fn before(i: int, j: int, x: int, y: int) -> bool {
    j < y || (j == y && i < x)
}

/// `q` is the rectangle the greedy strategy draws once `done` are drawn:
/// it starts at the first face left, in row order; all its faces are left
/// and share its meta; it is as wide as the run of such faces in its first
/// row, and as tall as the run of rows that are such faces across its whole
/// width.
pub open spec fn greedy_step(mask: Seq<Option<u64>>, w: int, h: int, done: Seq<GreedyQuad>, q: GreedyQuad) -> bool {
    &&& 1 <= q.width && q.x + q.width <= w
    &&& 1 <= q.height && q.y + q.height <= h
    &&& forall|i: int, j: int|
        0 <= i < w && 0 <= j < h && before(i, j, q.x as int, q.y as int) ==> #[trigger] remaining(mask, w, done, i, j) is None
    &&& forall|i: int, j: int| #[trigger] covers(q, i, j) ==> remaining(mask, w, done, i, j) == Some(q.meta)
    &&& q.x + q.width == w || remaining(mask, w, done, q.x + q.width, q.y as int) != Some(q.meta)
    &&& q.y + q.height == h || exists|i: int|
        q.x <= i < q.x + q.width && #[trigger] remaining(mask, w, done, i, q.y + q.height) != Some(q.meta)
}

/// `quads` are the rectangles the greedy strategy draws for the mask, in
/// order, and together they leave no face undrawn.
pub open spec fn greedy_layer(mask: Seq<Option<u64>>, w: int, h: int, quads: Seq<GreedyQuad>) -> bool {
    &&& forall|t: int| 0 <= t < quads.len() ==> greedy_step(mask, w, h, quads.take(t), #[trigger] quads[t])
    &&& forall|i: int, j: int| 0 <= i < w && 0 <= j < h ==> #[trigger] remaining(mask, w, quads, i, j) is None
}

/// Positions of a grid laid out row by row.
proof fn lemma_cell_index(w: int, h: int, i: int, j: int)
    by (nonlinear_arith)
    requires
        0 <= i < w,
        0 <= j < h,
    ensures
        0 <= j * w + i < w * h,
        j * w + i < (j + 1) * w,
        (j + 1) * w <= w * h,
{
}

/// Distinct grid positions have distinct places in the layout.
proof fn lemma_cell_distinct(w: int, i: int, j: int, i2: int, j2: int)
    requires
        0 <= i < w,
        0 <= i2 < w,
        0 <= j,
        0 <= j2,
        i != i2 || j != j2,
    ensures
        j * w + i != j2 * w + i2,
{
    if j < j2 {
        assert((j + 1) * w <= j2 * w) by (nonlinear_arith)
            requires
                j + 1 <= j2,
                0 <= w,
        ;
        assert((j + 1) * w == j * w + w) by (nonlinear_arith);
    } else if j2 < j {
        assert((j2 + 1) * w <= j * w) by (nonlinear_arith)
            requires
                j2 + 1 <= j,
                0 <= w,
        ;
        assert((j2 + 1) * w == j2 * w + w) by (nonlinear_arith);
    }
}

/// Drawing one more rectangle covers its faces and keeps the others.
proof fn lemma_covered_push(quads: Seq<GreedyQuad>, q: GreedyQuad, i: int, j: int)
    ensures
        covered_by_any(quads.push(q), i, j) <==> (covered_by_any(quads, i, j) || covers(q, i, j)),
{
    let qs = quads.push(q);
    if covered_by_any(quads, i, j) {
        let t = choose|t: int| 0 <= t < quads.len() && #[trigger] covers(quads[t], i, j);
        assert(covers(qs[t], i, j));
    }
    if covers(q, i, j) {
        assert(covers(qs[quads.len() as int], i, j));
    }
    if covered_by_any(qs, i, j) {
        let t = choose|t: int| 0 <= t < qs.len() && #[trigger] covers(qs[t], i, j);
        if t < quads.len() {
            assert(covers(quads[t], i, j));
        }
    }
}

/// Merges the faces of one cross-section, given as a mask of `width`
/// columns and `height` rows where a face to draw carries its meta
/// information, into rectangles of faces with equal meta. Each rectangle
/// starts at the first face not yet drawn, in row order, grows as wide as
/// the faces of its first row allow and then as tall as whole rows allow.
pub fn greedy_mesh_layer(width: usize, height: usize, mask: Vec<Option<u64>>) -> (quads: Vec<GreedyQuad>)
    requires
        mask@.len() == width * height,
    ensures
        greedy_layer(mask@, width as int, height as int, quads@),
{
    let ghost orig = mask@;
    let ghost w = width as int;
    let ghost h = height as int;
    let mut m = mask;
    let n = m.len();
    let mut quads: Vec<GreedyQuad> = Vec::new();
    let mut j: usize = 0;
    while j < height
        invariant
            n == w * h,
            orig.len() == w * h,
            m@.len() == w * h,
            w == width,
            h == height,
            j <= height,
            forall|i: int, jj: int|
                0 <= i < w && 0 <= jj < h ==> #[trigger] cell(m@, w, i, jj) == remaining(orig, w, quads@, i, jj),
            forall|i: int, jj: int| 0 <= i < w && 0 <= jj < j ==> #[trigger] remaining(orig, w, quads@, i, jj) is None,
            forall|t: int| 0 <= t < quads@.len() ==> greedy_step(orig, w, h, quads@.take(t), #[trigger] quads@[t]),
        decreases height - j,
    {
        let mut i: usize = 0;
        while i < width
            invariant
                n == w * h,
                orig.len() == w * h,
                m@.len() == w * h,
                w == width,
                h == height,
                j < height,
                i <= width,
                forall|ii: int, jj: int|
                    0 <= ii < w && 0 <= jj < h ==> #[trigger] cell(m@, w, ii, jj) == remaining(orig, w, quads@, ii, jj),
                forall|ii: int, jj: int|
                    0 <= ii < w && 0 <= jj < h && before(ii, jj, i as int, j as int) ==> #[trigger] remaining(
                        orig,
                        w,
                        quads@,
                        ii,
                        jj,
                    ) is None,
                forall|t: int| 0 <= t < quads@.len() ==> greedy_step(orig, w, h, quads@.take(t), #[trigger] quads@[t]),
            decreases width - i,
        {
            proof {
                lemma_cell_index(w, h, i as int, j as int);
            }
            let row = j * width;
            match m[row + i] {
                Some(ori) => {
                    proof {
                        assert(cell(m@, w, i as int, j as int) == Some(ori));
                    }
                    // Width: the run of faces with this meta in this row.
                    let mut k: usize = i + 1;
                    loop
                        invariant
                            n == w * h,
                            m@.len() == w * h,
                            w == width,
                            h == height,
                            j < height,
                            row == j * w,
                            i < k <= width,
                            forall|ii: int| i <= ii < k ==> #[trigger] cell(m@, w, ii, j as int) == Some(ori),
                        ensures
                            i < k <= width,
                            forall|ii: int| i <= ii < k ==> #[trigger] cell(m@, w, ii, j as int) == Some(ori),
                            k == width || cell(m@, w, k as int, j as int) != Some(ori),
                        decreases width - k,
                    {
                        if k >= width {
                            break;
                        }
                        proof {
                            lemma_cell_index(w, h, k as int, j as int);
                        }
                        let same = match m[row + k] {
                            Some(o) => o == ori,
                            None => false,
                        };
                        if !same {
                            break;
                        }
                        k += 1;
                    }
                    let max_x = k;
                    // Height: the run of following rows whose faces across
                    // the whole width carry this meta.
                    let mut r: usize = j + 1;
                    loop
                        invariant
                            n == w * h,
                            m@.len() == w * h,
                            w == width,
                            h == height,
                            j < r <= height,
                            i < max_x <= width,
                            forall|ii: int, jj: int|
                                i <= ii < max_x && j <= jj < r ==> #[trigger] cell(m@, w, ii, jj) == Some(ori),
                        ensures
                            j < r <= height,
                            forall|ii: int, jj: int|
                                i <= ii < max_x && j <= jj < r ==> #[trigger] cell(m@, w, ii, jj) == Some(ori),
                            r == height || exists|ii: int| i <= ii < max_x && #[trigger] cell(m@, w, ii, r as int) != Some(ori),
                        decreases height - r,
                    {
                        if r >= height {
                            break;
                        }
                        let mut c: usize = i;
                        let mut all_same = true;
                        while c < max_x
                            invariant
                                n == w * h,
                                m@.len() == w * h,
                                w == width,
                                h == height,
                                r < height,
                                i <= c <= max_x,
                                max_x <= width,
                                all_same ==> forall|ii: int| i <= ii < c ==> #[trigger] cell(m@, w, ii, r as int) == Some(ori),
                                !all_same ==> exists|ii: int| i <= ii < max_x && #[trigger] cell(m@, w, ii, r as int) != Some(ori),
                            decreases max_x - c,
                        {
                            proof {
                                lemma_cell_index(w, h, c as int, r as int);
                            }
                            let same = match m[r * width + c] {
                                Some(o) => o == ori,
                                None => false,
                            };
                            if !same {
                                all_same = false;
                                proof {
                                    assert(cell(m@, w, c as int, r as int) != Some(ori));
                                }
                            }
                            c += 1;
                        }
                        if !all_same {
                            break;
                        }
                        r += 1;
                    }
                    let max_y = r;
                    let q = GreedyQuad { x: i, y: j, width: max_x - i, height: max_y - j, meta: ori };
                    proof {
                        assert forall|ii: int, jj: int| #[trigger] covers(q, ii, jj) implies remaining(
                            orig,
                            w,
                            quads@,
                            ii,
                            jj,
                        ) == Some(q.meta) by {
                            assert(cell(m@, w, ii, jj) == Some(ori));
                        }
                        assert(q.x + q.width == w || remaining(orig, w, quads@, q.x + q.width, q.y as int) != Some(q.meta)) by {
                            if q.x + q.width != w {
                                assert(cell(m@, w, max_x as int, j as int) != Some(ori));
                            }
                        }
                        if q.y + q.height != h {
                            let ii = choose|ii: int| i <= ii < max_x && #[trigger] cell(m@, w, ii, max_y as int) != Some(ori);
                            assert(remaining(orig, w, quads@, ii, q.y + q.height) != Some(q.meta));
                        }
                        assert(greedy_step(orig, w, h, quads@, q));
                    }
                    // Clear the drawn faces.
                    let ghost m_before = m@;
                    let mut l: usize = j;
                    while l < max_y
                        invariant
                            n == w * h,
                            q.x == i && q.width == max_x - i && q.y == j && q.height == max_y - j,
                            m@.len() == w * h,
                            m_before.len() == w * h,
                            w == width,
                            h == height,
                            j <= l <= max_y,
                            max_y <= height,
                            i < max_x <= width,
                            forall|ii: int, jj: int|
                                0 <= ii < w && 0 <= jj < h ==> #[trigger] cell(m@, w, ii, jj) == if covers(q, ii, jj) && jj < l {
                                    None
                                } else {
                                    cell(m_before, w, ii, jj)
                                },
                        decreases max_y - l,
                    {
                        let mut c: usize = i;
                        while c < max_x
                            invariant
                                n == w * h,
                                q.x == i && q.width == max_x - i && q.y == j && q.height == max_y - j,
                                m@.len() == w * h,
                                m_before.len() == w * h,
                                w == width,
                                h == height,
                                j <= l < max_y,
                                max_y <= height,
                                i <= c <= max_x,
                                max_x <= width,
                                forall|ii: int, jj: int|
                                    0 <= ii < w && 0 <= jj < h ==> #[trigger] cell(m@, w, ii, jj) == if covers(q, ii, jj) && (jj
                                        < l || (jj == l && ii < c)) {
                                        None
                                    } else {
                                        cell(m_before, w, ii, jj)
                                    },
                            decreases max_x - c,
                        {
                            proof {
                                lemma_cell_index(w, h, c as int, l as int);
                            }
                            let ghost m_prev = m@;
                            m.set(l * width + c, None);
                            proof {
                                assert forall|ii: int, jj: int| 0 <= ii < w && 0 <= jj < h implies #[trigger] cell(m@, w, ii, jj)
                                    == if covers(q, ii, jj) && (jj < l || (jj == l && ii < c + 1)) {
                                    None
                                } else {
                                    cell(m_before, w, ii, jj)
                                } by {
                                    if ii != c || jj != l {
                                        lemma_cell_distinct(w, ii, jj, c as int, l as int);
                                    }
                                    lemma_cell_index(w, h, ii, jj);
                                    assert(cell(m_prev, w, ii, jj) == m_prev[jj * w + ii]);
                                }
                            }
                            c += 1;
                        }
                        l += 1;
                    }
                    let ghost old_quads = quads@;
                    quads.push(q);
                    proof {
                        assert forall|ii: int, jj: int|
                            0 <= ii < w && 0 <= jj < h implies #[trigger] cell(m@, w, ii, jj) == remaining(
                            orig,
                            w,
                            quads@,
                            ii,
                            jj,
                        ) by {
                            lemma_covered_push(old_quads, q, ii, jj);
                            assert(cell(m_before, w, ii, jj) == remaining(orig, w, old_quads, ii, jj));
                        }
                        assert forall|ii: int, jj: int|
                            0 <= ii < w && 0 <= jj < h && before(ii, jj, max_x as int, j as int) implies #[trigger] remaining(
                            orig,
                            w,
                            quads@,
                            ii,
                            jj,
                        ) is None by {
                            lemma_covered_push(old_quads, q, ii, jj);
                            if before(ii, jj, i as int, j as int) {
                                assert(remaining(orig, w, old_quads, ii, jj) is None);
                            } else {
                                assert(covers(q, ii, jj));
                            }
                        }
                        assert forall|t: int| 0 <= t < quads@.len() implies greedy_step(
                            orig,
                            w,
                            h,
                            quads@.take(t),
                            #[trigger] quads@[t],
                        ) by {
                            if t < old_quads.len() {
                                assert(quads@.take(t) =~= old_quads.take(t));
                            } else {
                                assert(quads@.take(t) =~= old_quads);
                            }
                        }
                    }
                    i = max_x;
                },
                None => {
                    proof {
                        assert forall|ii: int, jj: int|
                            0 <= ii < w && 0 <= jj < h && before(ii, jj, i + 1, j as int) implies #[trigger] remaining(
                            orig,
                            w,
                            quads@,
                            ii,
                            jj,
                        ) is None by {
                            if !before(ii, jj, i as int, j as int) {
                                assert(cell(m@, w, ii, jj) is None);
                            }
                        }
                    }
                    i += 1;
                },
            }
        }
        proof {
            assert forall|ii: int, jj: int| 0 <= ii < w && 0 <= jj < j + 1 implies #[trigger] remaining(
                orig,
                w,
                quads@,
                ii,
                jj,
            ) is None by {
                assert(before(ii, jj, i as int, j as int) || jj < j);
            }
        }
        j += 1;
    }
    quads
}

pub open spec fn min_i(a: int, b: int) -> int {
    if a <= b {
        a
    } else {
        b
    }
}

/// The texture atlas settings a greedy mesher starts with, for an atlas of
/// at most `max_width` by `max_height`: the small and the large size
/// thresholds of the allocator, and the initial width and height (at most
/// 32 by 32).
pub fn atlas_settings(max_width: i32, max_height: i32) -> (r: (i32, i32, i32, i32))
    requires
        min_i(max_width as int, max_height as int) >= 4,
    ensures
        ({
            let min_max_dim = min_i(max_width as int, max_height as int);
            let large = min_i(256, min_max_dim / 2 + 1);
            let small = min_i(33, large / 2 + 1);
            r == (small as i32, large as i32, min_i(32, max_width as int) as i32, min_i(32, max_height as int) as i32)
        }),
{
    let min_max_dim = if max_width <= max_height {
        max_width
    } else {
        max_height
    };
    let half = min_max_dim / 2 + 1;
    let large_size_threshold = if 256 <= half {
        256
    } else {
        half
    };
    let half_large = large_size_threshold / 2 + 1;
    let small_size_threshold = if 33 <= half_large {
        33
    } else {
        half_large
    };
    let width = if 32 <= max_width {
        32
    } else {
        max_width
    };
    let height = if 32 <= max_height {
        32
    } else {
        max_height
    };
    (small_size_threshold, large_size_threshold, width, height)
}

/// Twice `x`, saturated at the bounds of `i32`.
fn saturating_double(x: i32) -> (r: i32)
    ensures
        r == if 2 * x > i32::MAX {
            i32::MAX as int
        } else if 2 * x < i32::MIN {
            i32::MIN as int
        } else {
            2 * x
        },
{
    if x > i32::MAX / 2 {
        i32::MAX
    } else if x < i32::MIN / 2 {
        i32::MIN
    } else {
        x * 2
    }
}

/// The size a texture atlas grows to when an allocation fails: each side
/// doubles, capped at the maximum; `None` when the atlas already has the
/// maximum size and cannot grow.
pub fn next_atlas_size(width: i32, height: i32, max_width: i32, max_height: i32) -> (r: Option<(i32, i32)>)
    ensures
        width == max_width && height == max_height ==> r is None,
        !(width == max_width && height == max_height) ==> r == Some(
            (
                min_i(max_width as int, if 2 * width > i32::MAX { i32::MAX as int } else if 2 * width < i32::MIN {
                    i32::MIN as int
                } else {
                    2 * width
                }) as i32,
                min_i(max_height as int, if 2 * height > i32::MAX { i32::MAX as int } else if 2 * height < i32::MIN {
                    i32::MIN as int
                } else {
                    2 * height
                }) as i32,
            ),
        ),
{
    if width == max_width && height == max_height {
        return None;
    }
    let w2 = saturating_double(width);
    let h2 = saturating_double(height);
    let new_width = if max_width <= w2 {
        max_width
    } else {
        w2
    };
    let new_height = if max_height <= h2 {
        max_height
    } else {
        h2
    };
    Some((new_width, new_height))
}

/// The greedy rectangles of a cross-section draw every face exactly once:
/// no two rectangles share a face, every face to draw lies in a rectangle,
/// and every face of a rectangle is one to draw, with the rectangle's meta.
pub proof fn greedy_layer_partitions(mask: Seq<Option<u64>>, w: int, h: int, quads: Seq<GreedyQuad>)
    requires
        greedy_layer(mask, w, h, quads),
    ensures
        forall|t1: int, t2: int, i: int, j: int|
            0 <= t1 < t2 < quads.len() && #[trigger] covers(quads[t1], i, j) ==> !#[trigger] covers(quads[t2], i, j),
        forall|i: int, j: int|
            0 <= i < w && 0 <= j < h && (#[trigger] cell(mask, w, i, j)) is Some ==> covered_by_any(quads, i, j),
        forall|t: int, i: int, j: int|
            0 <= t < quads.len() && #[trigger] covers(quads[t], i, j) ==> 0 <= i < w && 0 <= j < h && cell(mask, w, i, j) == Some(
                quads[t].meta,
            ),
{
    assert forall|t1: int, t2: int, i: int, j: int|
        0 <= t1 < t2 < quads.len() && #[trigger] covers(quads[t1], i, j) implies !#[trigger] covers(quads[t2], i, j) by {
        let done = quads.take(t2);
        assert(greedy_step(mask, w, h, done, quads[t2]));
        assert(covers(done[t1], i, j));
        assert(covered_by_any(done, i, j));
    }
    assert forall|i: int, j: int|
        0 <= i < w && 0 <= j < h && (#[trigger] cell(mask, w, i, j)) is Some implies covered_by_any(quads, i, j) by {
        assert(remaining(mask, w, quads, i, j) is None);
    }
    assert forall|t: int, i: int, j: int|
        0 <= t < quads.len() && #[trigger] covers(quads[t], i, j) implies 0 <= i < w && 0 <= j < h && cell(mask, w, i, j)
        == Some(quads[t].meta) by {
        let done = quads.take(t);
        assert(greedy_step(mask, w, h, done, quads[t]));
        assert(remaining(mask, w, done, i, j) == Some(quads[t].meta));
    }
}

/// The three axes a volume's faces are meshed along.
#[derive(Clone, Copy, Debug, PartialEq, Eq, Structural)]
pub enum MeshAxis {
    X,
    Y,
    Z,
}

/// Meshing along `axis` a volume of `size` faces with `cross` cross-sections
/// per axis: the columns and rows of each cross-section (the two other
/// axes, in turn after `axis`), and the cross-sections' count.
pub open spec fn axis_dims_spec(axis: MeshAxis, size: (usize, usize, usize), cross: (usize, usize, usize)) -> (
    usize,
    usize,
    usize,
) {
    match axis {
        MeshAxis::X => (size.1, size.2, cross.0),
        MeshAxis::Y => (size.2, size.0, cross.1),
        MeshAxis::Z => (size.0, size.1, cross.2),
    }
}

/// The columns and rows of each cross-section, and the cross-sections'
/// count, for meshing along `axis`.
pub fn axis_dims(axis: MeshAxis, size: (usize, usize, usize), cross: (usize, usize, usize)) -> (r: (usize, usize, usize))
    ensures
        r == axis_dims_spec(axis, size, cross),
{
    match axis {
        MeshAxis::X => (size.1, size.2, cross.0),
        MeshAxis::Y => (size.2, size.0, cross.1),
        MeshAxis::Z => (size.0, size.1, cross.2),
    }
}

/// The position in the volume of column `p.0`, row `p.1` of cross-section
/// `p.2` when meshing along `axis`.
pub open spec fn axis_pos_spec(axis: MeshAxis, p: (usize, usize, usize)) -> (usize, usize, usize) {
    match axis {
        MeshAxis::X => (p.2, p.0, p.1),
        MeshAxis::Y => (p.1, p.2, p.0),
        MeshAxis::Z => p,
    }
}

/// The position in the volume of a face of a cross-section along `axis`.
pub fn axis_pos(axis: MeshAxis, p: (usize, usize, usize)) -> (r: (usize, usize, usize))
    ensures
        r == axis_pos_spec(axis, p),
{
    match axis {
        MeshAxis::X => (p.2, p.0, p.1),
        MeshAxis::Y => (p.1, p.2, p.0),
        MeshAxis::Z => p,
    }
}

/// The two axes a face of a cross-section along `axis` spans, and its
/// normal: the unit vectors of the two other axes, in turn after `axis`,
/// and the unit vector of `axis`.
pub open spec fn axis_frame_spec(axis: MeshAxis) -> (((u16, u16, u16), (u16, u16, u16)), (i16, i16, i16)) {
    match axis {
        MeshAxis::X => (((0, 1, 0), (0, 0, 1)), (1, 0, 0)),
        MeshAxis::Y => (((0, 0, 1), (1, 0, 0)), (0, 1, 0)),
        MeshAxis::Z => (((1, 0, 0), (0, 1, 0)), (0, 0, 1)),
    }
}

/// The axes a face of a cross-section along `axis` spans, and its normal.
pub fn axis_frame(axis: MeshAxis) -> (r: (((u16, u16, u16), (u16, u16, u16)), (i16, i16, i16)))
    ensures
        r == axis_frame_spec(axis),
{
    match axis {
        MeshAxis::X => (((0, 1, 0), (0, 0, 1)), (1, 0, 0)),
        MeshAxis::Y => (((0, 0, 1), (1, 0, 0)), (0, 1, 0)),
        MeshAxis::Z => (((1, 0, 0), (0, 1, 0)), (0, 0, 1)),
    }
}

/// Greedy meshing of every cross-section of a volume: `layers` holds, for
/// each cross-section in order, its mask of `width` columns and `height`
/// rows; the result holds the rectangles of each cross-section.
pub fn greedy_mesh_cross_section(width: usize, height: usize, layers: Vec<Vec<Option<u64>>>) -> (r: Vec<Vec<GreedyQuad>>)
    requires
        forall|d: int| 0 <= d < layers@.len() ==> (#[trigger] layers@[d])@.len() == width * height,
    ensures
        r@.len() == layers@.len(),
        forall|d: int|
            0 <= d < layers@.len() ==> greedy_layer(layers@[d]@, width as int, height as int, #[trigger] r@[d]@),
{
    let mut out: Vec<Vec<GreedyQuad>> = Vec::new();
    let ghost all = layers@;
    for layer in it: layers.into_iter()
        invariant
            it.seq() == all,
            forall|d: int| 0 <= d < all.len() ==> (#[trigger] all[d])@.len() == width * height,
            out@.len() == it.index(),
            forall|d: int| 0 <= d < out@.len() ==> greedy_layer(all[d]@, width as int, height as int, #[trigger] out@[d]@),
    {
        let quads = greedy_mesh_layer(width, height, layer);
        out.push(quads);
    }
    out
}

} // verus!
