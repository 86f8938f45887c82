//! Symmetries of a simulation step: it depends on nothing but the state
//! (two equal lattices stay equal), and it treats every position of the
//! periodic lattice alike (it commutes with a cyclic shift of the lattice).
//!
//! Both hold for a collision operator whose outcome is a function of the
//! values it relaxes, as the BGK operator is.
use vstd::prelude::*;
use crate::lbm::constants::Q;
use crate::lbm::flags::flag_cells;
use crate::lbm::grid::{LatticeGrid, cell_at, slot_at, lemma_slot_in_range};
use crate::lbm::stream::{wrap, pull_source, lemma_pull_push_inverse, lemma_slot_decompose, slot_x, slot_y, slot_dir};
use crate::lbm::constants::{cx, cy, lemma_unit_velocities};
use crate::lbm::{Collision, collided, cell_collided, stream_step, ticked};

verus! {

/// `collide` gives the same distribution values and moments for the same
/// distribution values.
pub open spec fn deterministic<T, F: Fn([T; Q]) -> Collision<T>>(collide: F) -> bool {
    forall|i1: [T; Q], i2: [T; Q], o1: Collision<T>, o2: Collision<T>|
        #![trigger collide.ensures((i1,), o1), collide.ensures((i2,), o2)]
        collide.ensures((i1,), o1) && collide.ensures((i2,), o2) && i1@ == i2@
            ==> o1.f@ == o2.f@ && o1.rho == o2.rho && o1.ux == o2.ux && o1.uy == o2.uy
}

/// Coordinate `v` moved `d` steps forward on a periodic axis of length `n`.
pub open spec fn shift(v: int, d: int, n: int) -> int {
    if v + d >= n {
        v + d - n
    } else {
        v + d
    }
}

/// Cell `(x, y)` of `a` reappears, with all its values and its wall flag,
/// as cell `(x + dx, y + dy)` (taken periodically) of `b`.
pub open spec fn cell_shifted<T>(a: LatticeGrid<T>, b: LatticeGrid<T>, dx: int, dy: int, x: int, y: int) -> bool {
    let h = a.height as int;
    let ca = cell_at(h, x, y);
    let cb = cell_at(h, shift(x, dx, a.width as int), shift(y, dy, h));
    &&& forall|i: int| 0 <= i < Q ==> #[trigger] b.f@[cb * Q + i] == a.f@[ca * Q + i]
    &&& forall|i: int| 0 <= i < Q ==> #[trigger] b.f_new@[cb * Q + i] == a.f_new@[ca * Q + i]
    &&& b.rho@[cb] == a.rho@[ca]
    &&& b.ux@[cb] == a.ux@[ca]
    &&& b.uy@[cb] == a.uy@[ca]
    &&& b.dye@[cb] == a.dye@[ca]
    &&& b.solid_at(shift(x, dx, a.width as int), shift(y, dy, h)) == a.solid_at(x, y)
}

/// `b` is `a` shifted cyclically by `(dx, dy)`, in every array and flag.
pub open spec fn shifted<T>(a: LatticeGrid<T>, b: LatticeGrid<T>, dx: int, dy: int) -> bool {
    &&& a.wf()
    &&& b.wf()
    &&& b.width == a.width
    &&& b.height == a.height
    &&& forall|x: int, y: int|
        0 <= x < a.width && 0 <= y < a.height ==> #[trigger] cell_shifted(a, b, dx, dy, x, y)
}

/// `a` and `b` hold the same state: shape, values and walls.
pub open spec fn same_state<T>(a: LatticeGrid<T>, b: LatticeGrid<T>) -> bool {
    &&& a.width == b.width
    &&& a.height == b.height
    &&& a.f@ == b.f@
    &&& a.f_new@ == b.f_new@
    &&& a.rho@ == b.rho@
    &&& a.ux@ == b.ux@
    &&& a.uy@ == b.uy@
    &&& a.dye@ == b.dye@
    &&& flag_cells(a.solid) == flag_cells(b.solid)
}

/// A shifted step against a unit velocity is the step against it, shifted.
proof fn lemma_shift_wrap(v: int, c: int, d: int, n: int)
    requires
        0 <= v < n,
        0 <= d < n,
        -1 <= c <= 1,
    ensures
        0 <= shift(v, d, n) < n,
        shift(wrap(v - c, n), d, n) == wrap(shift(v, d, n) - c, n),
{
}

/// Pulling from a shifted lattice pulls from the shifted source.
proof fn lemma_pull_source_shift(
    sa: Map<(int, int), bool>,
    sb: Map<(int, int), bool>,
    w: int,
    h: int,
    dx: int,
    dy: int,
    x: int,
    y: int,
    i: int,
)
    requires
        0 <= x < w,
        0 <= y < h,
        0 <= i < Q,
        0 <= dx < w,
        0 <= dy < h,
        forall|x2: int, y2: int|
            0 <= x2 < w && 0 <= y2 < h ==> #[trigger] sb[(shift(x2, dx, w), shift(y2, dy, h))] == sa[(x2, y2)],
    ensures
        ({
            let s = pull_source(sa, w, h, x, y, i);
            pull_source(sb, w, h, shift(x, dx, w), shift(y, dy, h), i) == (shift(s.0, dx, w), shift(s.1, dy, h), s.2)
        }),
{
    lemma_unit_velocities(i);
    lemma_shift_wrap(x, cx(i), dx, w);
    lemma_shift_wrap(y, cy(i), dy, h);
    let ux = wrap(x - cx(i), w);
    let uy = wrap(y - cy(i), h);
    assert(sb[(shift(x, dx, w), shift(y, dy, h))] == sa[(x, y)]);
    assert(sb[(shift(ux, dx, w), shift(uy, dy, h))] == sa[(ux, uy)]);
}

/// A collision pass commutes with a cyclic shift.
proof fn lemma_collision_shift<T, F: Fn([T; Q]) -> Collision<T>>(
    a: LatticeGrid<T>,
    ma: LatticeGrid<T>,
    b: LatticeGrid<T>,
    mb: LatticeGrid<T>,
    collide: F,
    dx: int,
    dy: int,
)
    requires
        shifted(a, b, dx, dy),
        0 <= dx < a.width,
        0 <= dy < a.height,
        collided(a, ma, collide),
        collided(b, mb, collide),
        deterministic(collide),
    ensures
        shifted(ma, mb, dx, dy),
{
    let (w, h) = (a.width as int, a.height as int);
    assert forall|x: int, y: int| 0 <= x < w && 0 <= y < h implies #[trigger] cell_shifted(ma, mb, dx, dy, x, y) by {
        let (sx, sy) = (shift(x, dx, w), shift(y, dy, h));
        lemma_shift_wrap(x, 0, dx, w);
        lemma_shift_wrap(y, 0, dy, h);
        assert(cell_shifted(a, b, dx, dy, x, y));
        assert(cell_collided(a, ma, collide, x, y));
        assert(cell_collided(b, mb, collide, sx, sy));
        let ca = cell_at(h, x, y);
        let cb = cell_at(h, sx, sy);
        if !a.solid_at(x, y) {
            let (ia, oa) = choose|inp: [T; Q], out: Collision<T>|
                {
                    &&& #[trigger] collide.ensures((inp,), out)
                    &&& forall|i: int| 0 <= i < Q ==> #[trigger] inp@[i] == a.f@[ca * Q + i]
                    &&& forall|i: int| 0 <= i < Q ==> #[trigger] ma.f@[ca * Q + i] == out.f@[i]
                    &&& ma.rho@[ca] == out.rho
                    &&& ma.ux@[ca] == out.ux
                    &&& ma.uy@[ca] == out.uy
                };
            let (ib, ob) = choose|inp: [T; Q], out: Collision<T>|
                {
                    &&& #[trigger] collide.ensures((inp,), out)
                    &&& forall|i: int| 0 <= i < Q ==> #[trigger] inp@[i] == b.f@[cb * Q + i]
                    &&& forall|i: int| 0 <= i < Q ==> #[trigger] mb.f@[cb * Q + i] == out.f@[i]
                    &&& mb.rho@[cb] == out.rho
                    &&& mb.ux@[cb] == out.ux
                    &&& mb.uy@[cb] == out.uy
                };
            assert forall|i: int| 0 <= i < Q implies ia@[i] == ib@[i] by {
                assert(b.f@[cb * Q + i] == a.f@[ca * Q + i]);
            }
            assert(ia@ =~= ib@);
            assert(oa.f@ == ob.f@);
            assert forall|i: int| 0 <= i < Q implies #[trigger] mb.f@[cb * Q + i] == ma.f@[ca * Q + i] by {
                assert(mb.f@[cb * Q + i] == ob.f@[i] && ma.f@[ca * Q + i] == oa.f@[i]);
            }
        } else {
            assert forall|i: int| 0 <= i < Q implies #[trigger] mb.f@[cb * Q + i] == ma.f@[ca * Q + i] by {
                assert(mb.f@[cb * Q + i] == b.f@[cb * Q + i] && ma.f@[ca * Q + i] == a.f@[ca * Q + i]);
                assert(b.f@[cb * Q + i] == a.f@[ca * Q + i]);
            }
        }
        assert forall|i: int| 0 <= i < Q implies #[trigger] mb.f_new@[cb * Q + i] == ma.f_new@[ca * Q + i] by {
            assert(b.f_new@[cb * Q + i] == a.f_new@[ca * Q + i]);
        }
    }
}

/// A streaming pass commutes with a cyclic shift.
proof fn lemma_streaming_shift<T>(
    ma: LatticeGrid<T>,
    a2: LatticeGrid<T>,
    mb: LatticeGrid<T>,
    b2: LatticeGrid<T>,
    dx: int,
    dy: int,
)
    requires
        shifted(ma, mb, dx, dy),
        0 <= dx < ma.width,
        0 <= dy < ma.height,
        stream_step(ma, a2),
        stream_step(mb, b2),
    ensures
        shifted(a2, b2, dx, dy),
{
    let (w, h) = (ma.width as int, ma.height as int);
    let sa = flag_cells(ma.solid);
    let sb = flag_cells(mb.solid);
    assert forall|x2: int, y2: int|
        0 <= x2 < w && 0 <= y2 < h implies #[trigger] sb[(shift(x2, dx, w), shift(y2, dy, h))] == sa[(x2, y2)] by {
        assert(cell_shifted(ma, mb, dx, dy, x2, y2));
    }
    assert forall|x: int, y: int| 0 <= x < w && 0 <= y < h implies #[trigger] cell_shifted(a2, b2, dx, dy, x, y) by {
        let (sx, sy) = (shift(x, dx, w), shift(y, dy, h));
        lemma_shift_wrap(x, 0, dx, w);
        lemma_shift_wrap(y, 0, dy, h);
        assert(cell_shifted(ma, mb, dx, dy, x, y));
        let ca = cell_at(h, x, y);
        let cb = cell_at(h, sx, sy);
        assert forall|i: int| 0 <= i < Q implies #[trigger] b2.f@[cb * Q + i] == a2.f@[ca * Q + i] by {
            lemma_pull_source_shift(sa, sb, w, h, dx, dy, x, y, i);
            lemma_pull_push_inverse(sa, w, h, x, y, i);
            let s = pull_source(sa, w, h, x, y, i);
            assert(cell_shifted(ma, mb, dx, dy, s.0, s.1));
            assert(b2.f@[slot_at(h, sx, sy, i)] == mb.f@[slot_at(h, shift(s.0, dx, w), shift(s.1, dy, h), s.2)]);
            assert(a2.f@[slot_at(h, x, y, i)] == ma.f@[slot_at(h, s.0, s.1, s.2)]);
        }
        assert forall|i: int| 0 <= i < Q implies #[trigger] b2.f_new@[cb * Q + i] == a2.f_new@[ca * Q + i] by {
            assert(mb.f@[cb * Q + i] == ma.f@[ca * Q + i]);
        }
    }
}

/// A step commutes with a cyclic shift of the periodic lattice: shifting
/// the lattice and then stepping gives the same as stepping and then
/// shifting, for a collision operator that is a function of the values.
pub proof fn lemma_tick_commutes_with_shift<T, F: Fn([T; Q]) -> Collision<T>>(
    a: LatticeGrid<T>,
    a2: LatticeGrid<T>,
    b: LatticeGrid<T>,
    b2: LatticeGrid<T>,
    collide: F,
    dx: int,
    dy: int,
)
    requires
        0 <= dx < a.width,
        0 <= dy < a.height,
        shifted(a, b, dx, dy),
        ticked(a, a2, collide),
        ticked(b, b2, collide),
        deterministic(collide),
    ensures
        shifted(a2, b2, dx, dy),
{
    let ma = choose|mid: LatticeGrid<T>| collided(a, mid, collide) && #[trigger] stream_step(mid, a2);
    let mb = choose|mid: LatticeGrid<T>| collided(b, mid, collide) && #[trigger] stream_step(mid, b2);
    lemma_collision_shift(a, ma, b, mb, collide, dx, dy);
    lemma_streaming_shift(ma, a2, mb, b2, dx, dy);
}

/// A grid holds the same state as itself shifted by nothing.
proof fn lemma_same_state_is_zero_shift<T>(a: LatticeGrid<T>, b: LatticeGrid<T>)
    requires
        a.wf(),
        b.wf(),
        same_state(a, b),
    ensures
        shifted(a, b, 0, 0),
{
}

/// A grid that is another shifted by nothing holds the same state.
proof fn lemma_zero_shift_is_same_state<T>(a: LatticeGrid<T>, b: LatticeGrid<T>)
    requires
        shifted(a, b, 0, 0),
        flag_cells(a.solid) == flag_cells(b.solid),
    ensures
        same_state(a, b),
{
    let (w, h) = (a.width as int, a.height as int);
    assert forall|k: int| 0 <= k < a.f.len() implies a.f@[k] == b.f@[k] && a.f_new@[k] == b.f_new@[k] by {
        lemma_slot_decompose(w, h, k);
        let (x, y, i) = (slot_x(h, k), slot_y(h, k), slot_dir(k));
        assert(cell_shifted(a, b, 0, 0, x, y));
        assert(b.f@[cell_at(h, x, y) * Q + i] == a.f@[cell_at(h, x, y) * Q + i]);
        assert(b.f_new@[cell_at(h, x, y) * Q + i] == a.f_new@[cell_at(h, x, y) * Q + i]);
    }
    assert forall|c: int| 0 <= c < a.rho.len() implies a.rho@[c] == b.rho@[c] && a.ux@[c] == b.ux@[c]
        && a.uy@[c] == b.uy@[c] && a.dye@[c] == b.dye@[c] by {
        assert(0 <= c * Q < w * h * Q);
        lemma_slot_decompose(w, h, c * Q);
        let (x, y) = (slot_x(h, c * Q), slot_y(h, c * Q));
        assert(cell_at(h, x, y) == c);
        assert(cell_shifted(a, b, 0, 0, x, y));
    }
    assert(a.f@ =~= b.f@);
    assert(a.f_new@ =~= b.f_new@);
    assert(a.rho@ =~= b.rho@);
    assert(a.ux@ =~= b.ux@);
    assert(a.uy@ =~= b.uy@);
    assert(a.dye@ =~= b.dye@);
}

/// A step is determined by the state: two lattices with the same state stay
/// the same after a step, for a collision operator that is a function of
/// the values.
pub proof fn lemma_tick_is_deterministic<T, F: Fn([T; Q]) -> Collision<T>>(
    a: LatticeGrid<T>,
    a2: LatticeGrid<T>,
    b: LatticeGrid<T>,
    b2: LatticeGrid<T>,
    collide: F,
)
    requires
        a.wf(),
        b.wf(),
        same_state(a, b),
        ticked(a, a2, collide),
        ticked(b, b2, collide),
        deterministic(collide),
    ensures
        same_state(a2, b2),
{
    let ma = choose|mid: LatticeGrid<T>| collided(a, mid, collide) && #[trigger] stream_step(mid, a2);
    let mb = choose|mid: LatticeGrid<T>| collided(b, mid, collide) && #[trigger] stream_step(mid, b2);
    if a.width > 0 && a.height > 0 {
        lemma_same_state_is_zero_shift(a, b);
        lemma_tick_commutes_with_shift(a, a2, b, b2, collide, 0, 0);
        lemma_zero_shift_is_same_state(a2, b2);
    } else {
        assert(a.width * a.height == 0) by (nonlinear_arith)
            requires a.width == 0 || a.height == 0;
        assert(a2.f@ =~= b2.f@);
        assert(a2.f_new@ =~= b2.f_new@);
        assert(a2.rho@ =~= b2.rho@);
        assert(a2.ux@ =~= b2.ux@);
        assert(a2.uy@ =~= b2.uy@);
        assert(a2.dye@ =~= b2.dye@);
    }
}

} // verus!
