//! The chunks that should exist around the observer: every coordinate within
//! a Chebyshev distance of the observer's chunk.

use vstd::prelude::*;
use vstd::set_lib::*;
use crate::chunk_set::{ChunkCoord, ChunkSet};

verus! {

/// `c` lies within Chebyshev distance `d` of `center`.
pub open spec fn in_chunk_ball(c: ChunkCoord, center: ChunkCoord, d: int) -> bool {
    &&& center.0 - d <= c.0 <= center.0 + d
    &&& center.1 - d <= c.1 <= center.1 + d
}

/// All coordinates within Chebyshev distance `d` of `center`.
pub open spec fn chunk_ball(center: ChunkCoord, d: int) -> Set<ChunkCoord> {
    Set::new(|c: ChunkCoord| in_chunk_ball(c, center, d))
}

/// Every coordinate of the ball around `center` is representable: the ball's
/// bounds stay within `i32`.
pub open spec fn chunk_ball_fits(center: ChunkCoord, d: int) -> bool {
    &&& i32::MIN <= center.0 - d <= i32::MAX
    &&& i32::MIN <= center.0 + d <= i32::MAX
    &&& i32::MIN <= center.1 - d <= i32::MAX
    &&& i32::MIN <= center.1 + d <= i32::MAX
}

/// The part of the ball whose first coordinate is below `center.0 - d + rows`.
spec fn ball_rows(center: ChunkCoord, d: int, rows: int) -> Set<ChunkCoord> {
    Set::new(|c: ChunkCoord| in_chunk_ball(c, center, d) && c.0 < center.0 - d + rows)
}

/// One column of the ball: first coordinate `x`, second within `d` of `center.1`.
spec fn ball_column(center: ChunkCoord, d: int, x: int) -> Set<ChunkCoord> {
    Set::new(|c: ChunkCoord| c.0 == x && center.1 - d <= c.1 <= center.1 + d)
}

proof fn lemma_ball_column_len(center: ChunkCoord, d: int, x: int)
    requires
        0 <= d,
        chunk_ball_fits(center, d),
        i32::MIN <= x <= i32::MAX,
    ensures
        ball_column(center, d, x).finite(),
        ball_column(center, d, x).len() == 2 * d + 1,
{
    let lo = center.1 - d;
    let hi = center.1 + d + 1;
    let f = |y: int| (x as i32, y as i32);
    let ys = set_int_range(lo, hi);
    lemma_int_range(lo, hi);
    assert forall|a: int, b: int| ys.contains(a) && ys.contains(b) && #[trigger] f(a) == #[trigger] f(b)
        implies a == b by {}
    lemma_map_size(ys, ys.map(f), f);
    assert(ys.map(f) =~= ball_column(center, d, x)) by {
        assert forall|c: ChunkCoord| ball_column(center, d, x).contains(c) implies ys.map(f).contains(c) by {
            assert(ys.contains(c.1 as int) && f(c.1 as int) == c);
        }
    }
}

proof fn lemma_ball_rows_len(center: ChunkCoord, d: int, rows: int)
    requires
        0 <= d,
        0 <= rows <= 2 * d + 1,
        chunk_ball_fits(center, d),
    ensures
        ball_rows(center, d, rows).finite(),
        ball_rows(center, d, rows).len() == rows * (2 * d + 1),
    decreases rows,
{
    if rows == 0 {
        assert(ball_rows(center, d, rows) =~= Set::<ChunkCoord>::empty());
    } else {
        let x = center.0 - d + rows - 1;
        lemma_ball_rows_len(center, d, rows - 1);
        lemma_ball_column_len(center, d, x);
        let prev = ball_rows(center, d, rows - 1);
        let col = ball_column(center, d, x);
        assert(prev.disjoint(col));
        lemma_set_disjoint_lens(prev, col);
        assert(ball_rows(center, d, rows) =~= prev + col);
        assert((rows - 1) * (2 * d + 1) + (2 * d + 1) == rows * (2 * d + 1)) by (nonlinear_arith);
    }
}

/// The neighbourhood of chunk distance `d` around a chunk is finite and holds
/// exactly `(2d + 1)^2` coordinates.
pub proof fn lemma_chunk_ball_len(center: ChunkCoord, d: int)
    requires
        0 <= d,
        chunk_ball_fits(center, d),
    ensures
        chunk_ball(center, d).finite(),
        chunk_ball(center, d).len() == (2 * d + 1) * (2 * d + 1),
{
    lemma_ball_rows_len(center, d, 2 * d + 1);
    assert(ball_rows(center, d, 2 * d + 1) =~= chunk_ball(center, d));
}

/// Clears `pool` and fills it with every coordinate within Chebyshev distance
/// `dist` of `center`.
pub(crate) fn rebuild_chunk_pool(pool: &mut ChunkSet, center: ChunkCoord, dist: i32)
    requires
        chunk_ball_fits(center, dist as int),
    ensures
        final(pool)@ == chunk_ball(center, dist as int),
{
    pool.clear();
    let lo_x: i64 = center.0 as i64 - dist as i64;
    let hi_x: i64 = center.0 as i64 + dist as i64;
    let lo_y: i64 = center.1 as i64 - dist as i64;
    let hi_y: i64 = center.1 as i64 + dist as i64;
    let mut nx: i64 = lo_x;
    while nx <= hi_x
        invariant
            chunk_ball_fits(center, dist as int),
            lo_x == center.0 - dist,
            hi_x == center.0 + dist,
            lo_y == center.1 - dist,
            hi_y == center.1 + dist,
            lo_x <= nx,
            nx <= hi_x + 1 || hi_x < lo_x,
            pool@ == Set::new(
                |c: ChunkCoord| in_chunk_ball(c, center, dist as int) && c.0 < nx,
            ),
        decreases hi_x + 1 - nx,
    {
        let mut ny: i64 = lo_y;
        while ny <= hi_y
            invariant
                chunk_ball_fits(center, dist as int),
                lo_x == center.0 - dist,
                hi_x == center.0 + dist,
                lo_y == center.1 - dist,
                hi_y == center.1 + dist,
                lo_x <= nx <= hi_x,
                lo_y <= ny,
                ny <= hi_y + 1,
                pool@ == Set::new(
                    |c: ChunkCoord|
                        in_chunk_ball(c, center, dist as int) && (c.0 < nx || (c.0 == nx && c.1
                            < ny)),
                ),
            decreases hi_y + 1 - ny,
        {
            let c: ChunkCoord = (nx as i32, ny as i32);
            if !pool.contains(c) {
                pool.insert(c);
            }
            assert(pool@ =~= Set::new(
                |c: ChunkCoord|
                    in_chunk_ball(c, center, dist as int) && (c.0 < nx || (c.0 == nx && c.1 < ny
                        + 1)),
            ));
            ny = ny + 1;
        }
        assert(pool@ =~= Set::new(
            |c: ChunkCoord| in_chunk_ball(c, center, dist as int) && c.0 < nx + 1,
        ));
        nx = nx + 1;
    }
    assert(pool@ =~= chunk_ball(center, dist as int));
}

} // verus!
