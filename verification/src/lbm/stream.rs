//! Streaming with bounce-back: where each distribution value of the next
//! step comes from, and why that move neither creates nor destroys mass.
//!
//! The lattice is periodic: a particle leaving one edge enters at the
//! opposite edge. Streaming is a pull: the value of direction `i` at a
//! fluid cell comes from its upstream neighbour (the cell at `-e_i`),
//! unless that neighbour is a wall, in which case the particle has bounced
//! back and the cell takes its own value of the opposite direction. A wall
//! cell reverses every direction of its own values.
use vstd::prelude::*;
use vstd::arithmetic::div_mod::{lemma_fundamental_div_mod, lemma_fundamental_div_mod_converse};
use crate::lbm::constants::{Q, C_X, C_Y, OPPOSITE, cx, cy, opp, lemma_opposite_involution, lemma_opposite_reverses, lemma_unit_velocities};
use crate::lbm::grid::{slot_at, cell_at, lemma_slot_in_range};
use crate::permutation::{inverse_maps, rearranged, total, weighted, indexed_total, lemma_rearrangement_keeps_values};

verus! {

/// Periodic wrap of a coordinate that lies at most one lattice length
/// outside `[0, n)`.
pub open spec fn wrap(v: int, n: int) -> int {
    if v < 0 {
        v + n
    } else if v >= n {
        v - n
    } else {
        v
    }
}

/// On the coordinates where it is used, `wrap` is the Euclidean remainder
/// (`rem_euclid`).
pub proof fn lemma_wrap_is_rem_euclid(v: int, n: int)
    requires
        n > 0,
        -n <= v < 2 * n,
    ensures
        wrap(v, n) == v % n,
        0 <= wrap(v, n) < n,
{
    if v < 0 {
        lemma_fundamental_div_mod_converse(v, n, -1, v + n);
    } else if v >= n {
        lemma_fundamental_div_mod_converse(v, n, 1, v - n);
    } else {
        lemma_fundamental_div_mod_converse(v, n, 0, v);
    }
}

/// The cell one step against direction `i` from `(x, y)`.
pub open spec fn upstream(width: int, height: int, x: int, y: int, i: int) -> (int, int) {
    (wrap(x - cx(i), width), wrap(y - cy(i), height))
}

/// The cell one step along direction `i` from `(x, y)`.
pub open spec fn downstream(width: int, height: int, x: int, y: int, i: int) -> (int, int) {
    (wrap(x + cx(i), width), wrap(y + cy(i), height))
}

/// Where the next value of direction `i` at cell `(x, y)` is pulled from:
/// a cell and a direction of the current values.
pub open spec fn pull_source(
    solid: Map<(int, int), bool>,
    width: int,
    height: int,
    x: int,
    y: int,
    i: int,
) -> (int, int, int) {
    if solid[(x, y)] {
        (x, y, opp(i))
    } else {
        let up = upstream(width, height, x, y, i);
        if solid[up] {
            (x, y, opp(i))
        } else {
            (up.0, up.1, i)
        }
    }
}

/// Where the current value of direction `i` at cell `(x, y)` goes in the
/// next step: the inverse of `pull_source`.
pub open spec fn push_target(
    solid: Map<(int, int), bool>,
    width: int,
    height: int,
    x: int,
    y: int,
    i: int,
) -> (int, int, int) {
    if solid[(x, y)] {
        (x, y, opp(i))
    } else {
        let down = downstream(width, height, x, y, i);
        if solid[down] {
            (x, y, opp(i))
        } else {
            (down.0, down.1, i)
        }
    }
}

/// `after` holds the values that one streaming pass over `before` produces.
pub open spec fn streamed<T>(
    solid: Map<(int, int), bool>,
    width: int,
    height: int,
    before: Seq<T>,
    after: Seq<T>,
) -> bool {
    &&& before.len() == width * height * Q
    &&& after.len() == before.len()
    &&& forall|x: int, y: int, i: int|
        0 <= x < width && 0 <= y < height && 0 <= i < Q
            ==> {
            let src = pull_source(solid, width, height, x, y, i);
            #[trigger] after[slot_at(height, x, y, i)] == before[slot_at(height, src.0, src.1, src.2)]
        }
}

/// A step along a direction and a step against it cancel on the torus.
pub proof fn lemma_wrap_round_trip(v: int, c: int, n: int)
    requires
        n > 0,
        0 <= v < n,
        -1 <= c <= 1,
    ensures
        0 <= wrap(v + c, n) < n,
        0 <= wrap(v - c, n) < n,
        wrap(wrap(v + c, n) - c, n) == v,
        wrap(wrap(v - c, n) + c, n) == v,
{
}

/// The source of every slot is a slot of the lattice, and pushing it back
/// along its direction returns the slot; likewise the other way round.
pub proof fn lemma_pull_push_inverse(
    solid: Map<(int, int), bool>,
    width: int,
    height: int,
    x: int,
    y: int,
    i: int,
)
    requires
        0 <= x < width,
        0 <= y < height,
        0 <= i < Q,
    ensures
        ({
            let s = pull_source(solid, width, height, x, y, i);
            &&& 0 <= s.0 < width && 0 <= s.1 < height && 0 <= s.2 < Q
            &&& push_target(solid, width, height, s.0, s.1, s.2) == (x, y, i)
        }),
        ({
            let t = push_target(solid, width, height, x, y, i);
            &&& 0 <= t.0 < width && 0 <= t.1 < height && 0 <= t.2 < Q
            &&& pull_source(solid, width, height, t.0, t.1, t.2) == (x, y, i)
        }),
{
    lemma_unit_velocities(i);
    lemma_opposite_involution(i);
    lemma_opposite_reverses(i);
    lemma_unit_velocities(opp(i));
    lemma_wrap_round_trip(x, cx(i), width);
    lemma_wrap_round_trip(y, cy(i), height);
}

/// The cell, row and direction of a slot index.
pub open spec fn slot_x(height: int, k: int) -> int {
    (k / Q as int) / height
}

pub open spec fn slot_y(height: int, k: int) -> int {
    (k / Q as int) % height
}

pub open spec fn slot_dir(k: int) -> int {
    k % Q as int
}

/// Slot indices and (cell, row, direction) triples correspond one to one.
pub proof fn lemma_slot_decompose(width: int, height: int, k: int)
    requires
        0 <= width,
        0 <= k < width * height * Q,
    ensures
        0 <= slot_x(height, k) < width,
        0 <= slot_y(height, k) < height,
        0 <= slot_dir(k) < Q,
        slot_at(height, slot_x(height, k), slot_y(height, k), slot_dir(k)) == k,
{
    let c = k / Q as int;
    lemma_fundamental_div_mod(k, Q as int);
    assert(c < width * height);
    assert(height > 0) by (nonlinear_arith)
        requires 0 <= k < width * height * Q, 0 <= width;
    lemma_fundamental_div_mod(c, height);
    let x = c / height;
    let y = c % height;
    assert(c == x * height + y) by (nonlinear_arith)
        requires c == height * (c / height) + (c % height), x == c / height, y == c % height;
    assert(0 <= x < width) by (nonlinear_arith)
        requires c == x * height + y, 0 <= y < height, 0 <= c < width * height, height > 0;
}

pub proof fn lemma_slot_compose(width: int, height: int, x: int, y: int, i: int)
    requires
        0 <= x < width,
        0 <= y < height,
        0 <= i < Q,
    ensures
        slot_x(height, slot_at(height, x, y, i)) == x,
        slot_y(height, slot_at(height, x, y, i)) == y,
        slot_dir(slot_at(height, x, y, i)) == i,
{
    let c = cell_at(height, x, y);
    lemma_slot_in_range(width, height, x, y, i);
    lemma_fundamental_div_mod_converse(c * Q + i, Q as int, c, i);
    lemma_fundamental_div_mod_converse(c, height, x, y);
}

/// The slot that slot `k` of the next values is pulled from.
pub open spec fn pull_slot(solid: Map<(int, int), bool>, width: int, height: int, k: int) -> int {
    let s = pull_source(solid, width, height, slot_x(height, k), slot_y(height, k), slot_dir(k));
    slot_at(height, s.0, s.1, s.2)
}

/// The slot that slot `k` of the current values is pushed to.
pub open spec fn push_slot(solid: Map<(int, int), bool>, width: int, height: int, k: int) -> int {
    let t = push_target(solid, width, height, slot_x(height, k), slot_y(height, k), slot_dir(k));
    slot_at(height, t.0, t.1, t.2)
}

/// Streaming is a permutation of the slots: every current value lands in
/// exactly one slot of the next step.
pub proof fn lemma_streaming_is_permutation(solid: Map<(int, int), bool>, width: int, height: int)
    requires
        0 <= width,
    ensures
        inverse_maps(
            width * height * Q,
            |k: int| pull_slot(solid, width, height, k),
            |k: int| push_slot(solid, width, height, k),
        ),
{
    let n = width * height * Q;
    assert forall|k: int| 0 <= k < n implies {
        &&& 0 <= #[trigger] pull_slot(solid, width, height, k) < n
        &&& push_slot(solid, width, height, pull_slot(solid, width, height, k)) == k
    } by {
        lemma_slot_decompose(width, height, k);
        let (x, y, i) = (slot_x(height, k), slot_y(height, k), slot_dir(k));
        lemma_pull_push_inverse(solid, width, height, x, y, i);
        let s = pull_source(solid, width, height, x, y, i);
        lemma_slot_in_range(width, height, s.0, s.1, s.2);
        lemma_slot_compose(width, height, s.0, s.1, s.2);
    }
    assert forall|k: int| 0 <= k < n implies {
        &&& 0 <= #[trigger] push_slot(solid, width, height, k) < n
        &&& pull_slot(solid, width, height, push_slot(solid, width, height, k)) == k
    } by {
        lemma_slot_decompose(width, height, k);
        let (x, y, i) = (slot_x(height, k), slot_y(height, k), slot_dir(k));
        lemma_pull_push_inverse(solid, width, height, x, y, i);
        let t = push_target(solid, width, height, x, y, i);
        lemma_slot_in_range(width, height, t.0, t.1, t.2);
        lemma_slot_compose(width, height, t.0, t.1, t.2);
    }
}

/// After a streaming pass, the values are the values before it read
/// through the invertible slot map `pull_slot`.
pub proof fn lemma_streaming_rearranges<T>(
    solid: Map<(int, int), bool>,
    width: int,
    height: int,
    before: Seq<T>,
    after: Seq<T>,
)
    requires
        0 <= width,
        streamed(solid, width, height, before, after),
    ensures
        rearranged(before, after, |k: int| pull_slot(solid, width, height, k)),
        inverse_maps(
            before.len() as int,
            |k: int| pull_slot(solid, width, height, k),
            |k: int| push_slot(solid, width, height, k),
        ),
{
    let p = |k: int| pull_slot(solid, width, height, k);
    lemma_streaming_is_permutation(solid, width, height);
    assert forall|k: int| 0 <= k < after.len() implies #[trigger] after[k] == before[p(k)] by {
        lemma_slot_decompose(width, height, k);
        let (x, y, i) = (slot_x(height, k), slot_y(height, k), slot_dir(k));
        assert(after[slot_at(height, x, y, i)] == before[p(k)]);
    }
}

/// Streaming conserves mass: the values after a streaming pass are the
/// values before it, each exactly once, only in other slots; so the total
/// of any weight over them, an additive quantity, is kept too.
pub proof fn lemma_streaming_keeps_values<T>(
    solid: Map<(int, int), bool>,
    width: int,
    height: int,
    before: Seq<T>,
    after: Seq<T>,
    weight: spec_fn(T) -> int,
)
    requires
        0 <= width,
        streamed(solid, width, height, before, after),
    ensures
        after.to_multiset() =~= before.to_multiset(),
        total(after, weight) == total(before, weight),
{
    lemma_streaming_rearranges(solid, width, height, before, after);
    lemma_rearrangement_keeps_values(
        before,
        after,
        |k: int| pull_slot(solid, width, height, k),
        |k: int| push_slot(solid, width, height, k),
        weight,
    );
}

/// Streaming keeps the total of a weight that may depend on the slot, as
/// long as every slot weighs its values as their source slot does.
pub proof fn lemma_streaming_keeps_indexed_total<T>(
    solid: Map<(int, int), bool>,
    width: int,
    height: int,
    before: Seq<T>,
    after: Seq<T>,
    weight: spec_fn(int, T) -> int,
)
    requires
        0 <= width,
        streamed(solid, width, height, before, after),
        forall|k: int, v: T|
            0 <= k < before.len() ==> #[trigger] weight(pull_slot(solid, width, height, k), v) == weight(k, v),
    ensures
        indexed_total(after, weight) == indexed_total(before, weight),
{
    let p = |k: int| pull_slot(solid, width, height, k);
    let q = |k: int| push_slot(solid, width, height, k);
    lemma_streaming_rearranges(solid, width, height, before, after);
    let wb = weighted(before, weight);
    let wa = weighted(after, weight);
    assert forall|k: int| 0 <= k < wa.len() implies #[trigger] wa[k] == wb[p(k)] by {
        assert(after[k] == before[p(k)]);
        assert(weight(p(k), before[p(k)]) == weight(k, before[p(k)]));
    }
    lemma_rearrangement_keeps_values(wb, wa, p, q, |v: int| v);
}

/// Without walls, streaming is a periodic translation: every value moves
/// one step along its own direction, and the resting value stays.
pub proof fn lemma_free_streaming_translates<T>(
    solid: Map<(int, int), bool>,
    width: int,
    height: int,
    before: Seq<T>,
    after: Seq<T>,
    x: int,
    y: int,
    i: int,
)
    requires
        streamed(solid, width, height, before, after),
        forall|p: (int, int)| #[trigger] solid[p] == false,
        0 <= x < width,
        0 <= y < height,
        0 <= i < Q,
    ensures
        after[slot_at(height, x, y, i)] == before[slot_at(
            height,
            upstream(width, height, x, y, i).0,
            upstream(width, height, x, y, i).1,
            i,
        )],
        i == 0 ==> after[slot_at(height, x, y, i)] == before[slot_at(height, x, y, i)],
{
    assert(!solid[(x, y)]);
    assert(!solid[upstream(width, height, x, y, i)]);
}

/// Bounce-back reverses a wall cell's values in place, so two streaming
/// passes give a wall cell its values back.
pub proof fn lemma_wall_round_trip<T>(
    solid: Map<(int, int), bool>,
    width: int,
    height: int,
    first: Seq<T>,
    second: Seq<T>,
    third: Seq<T>,
    x: int,
    y: int,
    i: int,
)
    requires
        streamed(solid, width, height, first, second),
        streamed(solid, width, height, second, third),
        solid[(x, y)],
        0 <= x < width,
        0 <= y < height,
        0 <= i < Q,
    ensures
        second[slot_at(height, x, y, i)] == first[slot_at(height, x, y, opp(i))],
        third[slot_at(height, x, y, i)] == first[slot_at(height, x, y, i)],
{
    lemma_opposite_involution(i);
    assert(third[slot_at(height, x, y, i)] == second[slot_at(height, x, y, opp(i))]);
}

/// A fluid at rest stays at rest: if every cell holds the same values and
/// every direction holds as much as its opposite (as the equilibrium at
/// zero velocity does), a streaming pass changes nothing, walls or not.
pub proof fn lemma_rest_state_is_steady<T>(
    solid: Map<(int, int), bool>,
    width: int,
    height: int,
    before: Seq<T>,
    after: Seq<T>,
    lane: Seq<T>,
)
    requires
        streamed(solid, width, height, before, after),
        lane.len() == Q,
        forall|i: int| 0 <= i < Q ==> #[trigger] lane[opp(i)] == lane[i],
        forall|x: int, y: int, i: int|
            0 <= x < width && 0 <= y < height && 0 <= i < Q ==> #[trigger] before[slot_at(height, x, y, i)] == lane[i],
    ensures
        forall|x: int, y: int, i: int|
            0 <= x < width && 0 <= y < height && 0 <= i < Q ==> #[trigger] after[slot_at(height, x, y, i)] == lane[i],
{
    assert forall|x: int, y: int, i: int|
        0 <= x < width && 0 <= y < height && 0 <= i < Q implies #[trigger] after[slot_at(height, x, y, i)] == lane[i] by {
        lemma_pull_push_inverse(solid, width, height, x, y, i);
        let s = pull_source(solid, width, height, x, y, i);
        assert(before[slot_at(height, s.0, s.1, s.2)] == lane[s.2]);
        assert(lane[opp(i)] == lane[i]);
    }
}

/// What streaming does at each slot, in terms of the lattice alone: a wall
/// cell reverses its values in place; a fluid cell takes each direction
/// from its upstream neighbour (one step against the direction,
/// periodically), unless that neighbour is a wall, in which case it takes
/// its own value of the opposite direction. No value crosses a wall cell.
pub proof fn lemma_streaming_at_slot<T>(
    solid: Map<(int, int), bool>,
    width: int,
    height: int,
    before: Seq<T>,
    after: Seq<T>,
    x: int,
    y: int,
    i: int,
)
    requires
        streamed(solid, width, height, before, after),
        0 <= x < width,
        0 <= y < height,
        0 <= i < Q,
    ensures
        ({
            let sx = (x - C_X@[i]) % width;
            let sy = (y - C_Y@[i]) % height;
            let here = after[slot_at(height, x, y, i)];
            &&& solid[(x, y)] ==> here == before[slot_at(height, x, y, OPPOSITE@[i] as int)]
            &&& !solid[(x, y)] && solid[(sx, sy)] ==> here == before[slot_at(height, x, y, OPPOSITE@[i] as int)]
            &&& !solid[(x, y)] && !solid[(sx, sy)] ==> here == before[slot_at(height, sx, sy, i)]
        }),
{
    lemma_unit_velocities(i);
    lemma_wrap_is_rem_euclid(x - cx(i), width);
    lemma_wrap_is_rem_euclid(y - cy(i), height);
}

} // verus!
