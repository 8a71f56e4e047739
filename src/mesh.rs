//! The triangle index buffer of a square chunk grid.
//!
//! Vertices are numbered row by row: the vertex in column `x` of row `y` of a
//! grid `size` vertices wide is `y * size + x`. Each quad, named by its
//! top-left vertex, becomes two triangles with the fixed winding
//! `(v, v + size + 1, v + size)` and `(v + size + 1, v, v + 1)`.

use vstd::prelude::*;

verus! {

/// Corner `k` (from 0 to 5) of the two triangles of the quad whose top-left
/// vertex is at column `x`, row `y`.
pub open spec fn quad_corner(size: int, x: int, y: int, k: int) -> int {
    let v = y * size + x;
    if k == 0 {
        v
    } else if k == 1 {
        v + size + 1
    } else if k == 2 {
        v + size
    } else if k == 3 {
        v + size + 1
    } else if k == 4 {
        v
    } else {
        v + 1
    }
}

/// The position of corner `k` of quad `(x, y)` in the index buffer: quads
/// come row by row, six indices each.
pub open spec fn quad_slot(size: int, x: int, y: int, k: int) -> int {
    6 * (y * (size - 1) + x) + k
}

/// `r` is the index buffer of a grid of `size` by `size` vertices: six
/// indices per quad, quads row by row, each quad's corners as `quad_corner`
/// gives them.
pub open spec fn is_grid_index_buffer(size: int, r: Seq<u32>) -> bool {
    &&& r.len() == 6 * (size - 1) * (size - 1)
    &&& forall|x: int, y: int, k: int|
        0 <= x < size - 1 && 0 <= y < size - 1 && 0 <= k < 6 ==> r[#[trigger] quad_slot(
            size,
            x,
            y,
            k,
        )] == quad_corner(size, x, y, k)
}

/// Every position of the buffer is the slot of exactly one quad corner.
proof fn lemma_slot_of_position(size: int, p: int) -> (xyk: (int, int, int))
    requires
        1 <= size,
        0 <= p < 6 * (size - 1) * (size - 1),
    ensures
        0 <= xyk.0 < size - 1,
        0 <= xyk.1 < size - 1,
        0 <= xyk.2 < 6,
        p == quad_slot(size, xyk.0, xyk.1, xyk.2),
{
    let n = size - 1;
    let q = p / 6;
    let k = p % 6;
    assert(p == 6 * q + k && 0 <= k < 6) by (nonlinear_arith)
        requires
            q == p / 6,
            k == p % 6,
            0 <= p,
    ;
    assert(q < n * n) by (nonlinear_arith)
        requires
            p == 6 * q + k,
            0 <= k < 6,
            p < 6 * n * n,
    ;
    assert(n > 0) by (nonlinear_arith)
        requires
            0 <= q < n * n,
            n >= 0,
    ;
    let y = q / n;
    let x = q % n;
    assert(q == y * n + x && 0 <= x < n) by (nonlinear_arith)
        requires
            y == q / n,
            x == q % n,
            n > 0,
    ;
    assert(0 <= y < n) by (nonlinear_arith)
        requires
            q == y * n + x,
            0 <= x < n,
            0 <= q < n * n,
    ;
    (x, y, k)
}

/// Building the index buffer twice from the same grid size gives the same
/// buffer: the contract of `grid_indices` admits one buffer only.
pub proof fn lemma_grid_index_buffer_unique(size: int, r1: Seq<u32>, r2: Seq<u32>)
    requires
        1 <= size,
        is_grid_index_buffer(size, r1),
        is_grid_index_buffer(size, r2),
    ensures
        r1 == r2,
{
    assert forall|p: int| 0 <= p < r1.len() implies r1[p] == r2[p] by {
        let (x, y, k) = lemma_slot_of_position(size, p);
        assert(r1[quad_slot(size, x, y, k)] == r2[quad_slot(size, x, y, k)]);
    }
    assert(r1 =~= r2);
}

proof fn lemma_quad_before(size: int, x1: int, y1: int, x2: int, y2: int)
    requires
        0 <= x1 < size - 1,
        0 <= x2 < size - 1,
        0 <= y1,
        0 <= y2,
        y1 < y2 || (y1 == y2 && x1 < x2),
    ensures
        y1 * (size - 1) + x1 < y2 * (size - 1) + x2,
{
    if y1 < y2 {
        assert((y1 + 1) * (size - 1) <= y2 * (size - 1)) by (nonlinear_arith)
            requires
                y1 + 1 <= y2,
                size - 1 > 0,
        ;
        assert((y1 + 1) * (size - 1) == y1 * (size - 1) + (size - 1)) by (nonlinear_arith);
    }
}

proof fn lemma_corner_bound(size: int, x: int, y: int)
    requires
        0 <= x < size - 1,
        0 <= y < size - 1,
    ensures
        0 <= y * size + x,
        y * size + x + size + 1 < size * size,
{
    assert(0 <= y * size) by (nonlinear_arith)
        requires
            0 <= y,
            0 <= size,
    ;
    assert(y * size + size <= (size - 1) * size) by (nonlinear_arith)
        requires
            y + 1 <= size - 1,
            0 <= size,
    ;
    assert((size - 1) * size == size * size - size) by (nonlinear_arith);
}

/// The index buffer of a grid of `size` by `size` vertices: six indices per
/// quad, quads row by row, each quad's corners as `quad_corner` gives them.
pub fn grid_indices(size: usize) -> (r: Vec<u32>)
    requires
        1 <= size,
        size * size <= u32::MAX + 1,
        6 * size * size <= usize::MAX,
    ensures
        is_grid_index_buffer(size as int, r@),
{
    let ghost s = size as int;
    let mut indices: Vec<u32> = Vec::new();
    let mut y: usize = 0;
    while y < size - 1
        invariant
            1 <= size,
            s == size,
            size * size <= u32::MAX + 1,
            6 * size * size <= usize::MAX,
            y <= size - 1,
            indices@.len() == 6 * (y * (s - 1)),
            forall|xx: int, yy: int, k: int|
                0 <= xx < s - 1 && 0 <= yy < y && 0 <= k < 6 ==> indices@[#[trigger] quad_slot(
                    s,
                    xx,
                    yy,
                    k,
                )] == quad_corner(s, xx, yy, k),
        decreases size - 1 - y,
    {
        let mut x: usize = 0;
        while x < size - 1
            invariant
                1 <= size,
                s == size,
                size * size <= u32::MAX + 1,
                6 * size * size <= usize::MAX,
                y < size - 1,
                x <= size - 1,
                indices@.len() == 6 * (y * (s - 1) + x),
                forall|xx: int, yy: int, k: int|
                    0 <= xx < s - 1 && 0 <= yy <= y && (yy < y || xx < x) && 0 <= k < 6
                        ==> indices@[#[trigger] quad_slot(s, xx, yy, k)] == quad_corner(
                        s,
                        xx,
                        yy,
                        k,
                    ),
            decreases size - 1 - x,
        {
            proof {
                lemma_corner_bound(s, x as int, y as int);
            }
            let v = y * size + x;
            let ghost before = indices@;
            indices.push(v as u32);
            indices.push((v + size + 1) as u32);
            indices.push((v + size) as u32);
            indices.push((v + size + 1) as u32);
            indices.push(v as u32);
            indices.push((v + 1) as u32);
            assert forall|xx: int, yy: int, k: int|
                0 <= xx < s - 1 && 0 <= yy <= y && (yy < y || xx < x + 1) && 0 <= k < 6
                    implies indices@[#[trigger] quad_slot(s, xx, yy, k)] == quad_corner(
                    s,
                    xx,
                    yy,
                    k,
                ) by {
                if yy < y || xx < x {
                    lemma_quad_before(s, xx, yy, x as int, y as int);
                    assert(indices@[quad_slot(s, xx, yy, k)] == before[quad_slot(s, xx, yy, k)]);
                }
            }
            x = x + 1;
        }
        assert(6 * (y * (s - 1) + (s - 1)) == 6 * ((y + 1) * (s - 1))) by (nonlinear_arith);
        y = y + 1;
    }
    assert(6 * ((s - 1) * (s - 1)) == 6 * (s - 1) * (s - 1)) by (nonlinear_arith);
    indices
}

/// Where the vertex at column `x`, row `y` stands among the vertices that a
/// chunk does not share with its neighbours (all but the last row and the last
/// column), counted row by row.
pub open spec fn interior_slot(width: int, x: int, y: int) -> int {
    y * (width - 1) + x
}

/// The indices of the vertices of a `width` by `width` grid that are not on
/// its last row or last column, row by row. Those on the last row or column
/// coincide with the first row or column of the next chunk.
pub fn interior_vertex_indices(width: usize) -> (r: Vec<usize>)
    requires
        1 <= width,
        width * width <= usize::MAX,
    ensures
        r@.len() == (width - 1) * (width - 1),
        forall|x: int, y: int|
            0 <= x < width - 1 && 0 <= y < width - 1 ==> r@[#[trigger] interior_slot(
                width as int,
                x,
                y,
            )] == y * width + x,
{
    let ghost w = width as int;
    let mut out: Vec<usize> = Vec::new();
    let mut y: usize = 0;
    while y < width - 1
        invariant
            1 <= width,
            w == width,
            width * width <= usize::MAX,
            y <= width - 1,
            out@.len() == y * (w - 1),
            forall|xx: int, yy: int|
                0 <= xx < w - 1 && 0 <= yy < y ==> out@[#[trigger] interior_slot(w, xx, yy)] == yy
                    * w + xx,
        decreases width - 1 - y,
    {
        let mut x: usize = 0;
        while x < width - 1
            invariant
                1 <= width,
                w == width,
                width * width <= usize::MAX,
                y < width - 1,
                x <= width - 1,
                out@.len() == y * (w - 1) + x,
                forall|xx: int, yy: int|
                    0 <= xx < w - 1 && 0 <= yy <= y && (yy < y || xx < x) ==> out@[
                    #[trigger] interior_slot(w, xx, yy)] == yy * w + xx,
            decreases width - 1 - x,
        {
            proof {
                lemma_corner_bound(w, x as int, y as int);
            }
            let ghost before = out@;
            out.push(y * width + x);
            assert forall|xx: int, yy: int|
                0 <= xx < w - 1 && 0 <= yy <= y && (yy < y || xx < x + 1) implies out@[
                #[trigger] interior_slot(w, xx, yy)] == yy * w + xx by {
                if yy < y || xx < x {
                    lemma_quad_before(w, xx, yy, x as int, y as int);
                    assert(out@[interior_slot(w, xx, yy)] == before[interior_slot(w, xx, yy)]);
                }
            }
            x = x + 1;
        }
        assert(y * (w - 1) + (w - 1) == (y + 1) * (w - 1)) by (nonlinear_arith);
        y = y + 1;
    }
    out
}

} // verus!
