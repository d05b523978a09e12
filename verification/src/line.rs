use vstd::prelude::*;

use crate::pos::Pos;
use vstd::math::abs;
use vstd::math::max;
use vstd::math::min;

verus! {

/// One step toward the target: +1 from below it, -1 from above it.
pub open spec fn step_toward(cur: int, target: int) -> int {
    if cur < target {
        1
    } else {
        -1
    }
}

/// The positions an integer incremental line walk plots, from the current
/// position (px, py) up to the target (tx, ty), the current position
/// included. `dx` and `dy` stay fixed over the whole walk: the absolute x
/// span and the negated absolute y span of the walk's original endpoints.
/// `err` is the running error accumulator, started at `dx + dy`. A doubled
/// error at or above `dy` advances x one step (stopping if x already reached
/// the target); a doubled error at or below `dx` advances y likewise; the
/// walk ends at the target.
pub open spec fn bres_points(
    px: int,
    py: int,
    tx: int,
    ty: int,
    dx: int,
    dy: int,
    err: int,
) -> Seq<(int, int)>
    decreases abs(tx - px) + abs(ty - py),
{
    seq![(px, py)] + if px == tx && py == ty {
        Seq::empty()
    } else {
        let e2 = 2 * err;
        if e2 >= dy {
            if px == tx {
                Seq::empty()
            } else {
                if e2 <= dx {
                    if py == ty {
                        Seq::empty()
                    } else {
                        bres_points(
                            px + step_toward(px, tx),
                            py + step_toward(py, ty),
                            tx,
                            ty,
                            dx,
                            dy,
                            err + dy + dx,
                        )
                    }
                } else {
                    bres_points(px + step_toward(px, tx), py, tx, ty, dx, dy, err + dy)
                }
            }
        } else {
            if e2 <= dx {
                if py == ty {
                    Seq::empty()
                } else {
                    bres_points(px, py + step_toward(py, ty), tx, ty, dx, dy, err + dx)
                }
            } else {
                Seq::empty()
            }
        }
    }
}

/// The pixels a line from `from` to `to` visits, in walk order: both
/// endpoints included, one new pixel per step, 8-connected.
pub open spec fn line_points(from: Pos, to: Pos) -> Seq<(int, int)> {
    let dx = abs(to.x - from.x) as int;
    let dy = -(abs(to.y - from.y) as int);
    bres_points(from.x as int, from.y as int, to.x as int, to.y as int, dx, dy, dx + dy)
}

/// Every position the walk plots stays inside the axis-aligned bounding box
/// of the current position and the target.
pub proof fn lemma_bres_points_in_box(
    px: int,
    py: int,
    tx: int,
    ty: int,
    dx: int,
    dy: int,
    err: int,
)
    ensures
        forall|i: int|
            0 <= i < bres_points(px, py, tx, ty, dx, dy, err).len() ==> {
                let p = #[trigger] bres_points(px, py, tx, ty, dx, dy, err)[i];
                min(px, tx) <= p.0 <= max(px, tx) && min(py, ty) <= p.1 <= max(py, ty)
            },
    decreases abs(tx - px) + abs(ty - py),
{
    let pts = bres_points(px, py, tx, ty, dx, dy, err);
    if !(px == tx && py == ty) {
        let e2 = 2 * err;
        if e2 >= dy {
            if px != tx {
                if e2 <= dx {
                    if py != ty {
                        let px2 = px + step_toward(px, tx);
                        let py2 = py + step_toward(py, ty);
                        lemma_bres_points_in_box(px2, py2, tx, ty, dx, dy, err + dy + dx);
                        let rest = bres_points(px2, py2, tx, ty, dx, dy, err + dy + dx);
                        assert forall|i: int| 0 <= i < pts.len() implies {
                            let p = #[trigger] pts[i];
                            min(px, tx) <= p.0 <= max(px, tx) && min(py, ty) <= p.1 <= max(
                                py,
                                ty,
                            )
                        } by {
                            if i > 0 {
                                assert(pts[i] == rest[i - 1]);
                            }
                        }
                    }
                } else {
                    let px2 = px + step_toward(px, tx);
                    lemma_bres_points_in_box(px2, py, tx, ty, dx, dy, err + dy);
                    let rest = bres_points(px2, py, tx, ty, dx, dy, err + dy);
                    assert forall|i: int| 0 <= i < pts.len() implies {
                        let p = #[trigger] pts[i];
                        min(px, tx) <= p.0 <= max(px, tx) && min(py, ty) <= p.1 <= max(py, ty)
                    } by {
                        if i > 0 {
                            assert(pts[i] == rest[i - 1]);
                        }
                    }
                }
            }
        } else {
            if e2 <= dx {
                if py != ty {
                    let py2 = py + step_toward(py, ty);
                    lemma_bres_points_in_box(px, py2, tx, ty, dx, dy, err + dx);
                    let rest = bres_points(px, py2, tx, ty, dx, dy, err + dx);
                    assert forall|i: int| 0 <= i < pts.len() implies {
                        let p = #[trigger] pts[i];
                        min(px, tx) <= p.0 <= max(px, tx) && min(py, ty) <= p.1 <= max(py, ty)
                    } by {
                        if i > 0 {
                            assert(pts[i] == rest[i - 1]);
                        }
                    }
                }
            }
        }
    }
}

/// The pixels a line visits stay inside the bounding box of its endpoints.
pub proof fn lemma_line_points_in_box(from: Pos, to: Pos)
    ensures
        forall|i: int|
            0 <= i < line_points(from, to).len() ==> {
                let p = #[trigger] line_points(from, to)[i];
                min(from.x as int, to.x as int) <= p.0 <= max(from.x as int, to.x as int) && min(
                    from.y as int,
                    to.y as int,
                ) <= p.1 <= max(from.y as int, to.y as int)
            },
{
    let dx = abs(to.x - from.x) as int;
    let dy = -(abs(to.y - from.y) as int);
    lemma_bres_points_in_box(
        from.x as int,
        from.y as int,
        to.x as int,
        to.y as int,
        dx,
        dy,
        dx + dy,
    );
}

} // verus!
