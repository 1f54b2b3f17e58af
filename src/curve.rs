use vstd::prelude::*;
use vstd::arithmetic::div_mod::{
    lemma_div_denominator, lemma_div_multiples_vanish, lemma_fundamental_div_mod,
    lemma_mod_multiples_basic,
};
use crate::lattice::{Point, unit, advance, dist2, norm2, walk, walk_end, lemma_walk_first, lemma_walk_concat, lemma_walk_end_bound, lemma_walk_len};
use crate::turtle::{Turtle, TurtleState};

verus! {

/// The deepest recursion the generator is asked for.
pub const MAX_DEPTH: u32 = 8;

/// Length of a snowflake side in lattice steps: `3^MAX_DEPTH`, so that every
/// division by three down to the deepest level is exact. One side stands for
/// 0.5 units of 1200 pixels each, so a step is 600 / 6561 pixels.
pub const SIDE_LENGTH: i64 = 6561;

pub open spec fn pow3(n: nat) -> nat
    decreases n,
{
    if n == 0 {
        1
    } else {
        3 * pow3((n - 1) as nat)
    }
}

pub open spec fn pow4(n: nat) -> nat
    decreases n,
{
    if n == 0 {
        1
    } else {
        4 * pow4((n - 1) as nat)
    }
}

/// The headings of the forward moves of one Koch edge of `depth` levels that
/// starts at heading `h`: each move of the level above is replaced by four,
/// turned by 0, -60, +60 and 0 degrees.
pub open spec fn edge_headings(h: int, depth: nat) -> Seq<int>
    decreases depth,
{
    if depth == 0 {
        seq![h]
    } else {
        let d = (depth - 1) as nat;
        edge_headings(h, d) + edge_headings(h - 60, d) + edge_headings(h + 60, d) + edge_headings(
            h,
            d,
        )
    }
}

/// Length of each forward move of an edge of `side` steps at `depth` levels.
pub open spec fn segment(side: int, depth: nat) -> int {
    side / (pow3(depth) as int)
}

/// How far an edge may carry the turtle along either coordinate.
pub open spec fn reach(side: int, depth: nat) -> int {
    pow4(depth) * segment(side, depth)
}

/// `after` is what `generate` makes of a turtle in state `before`.
pub open spec fn generated(before: TurtleState, side: int, depth: nat, after: TurtleState) -> bool {
    let hs = edge_headings(before.heading, depth);
    let s = segment(side, depth);
    after == TurtleState {
        pos: walk_end(before.pos, hs, s),
        heading: before.heading,
        trail: before.trail + walk(before.pos, hs, s),
    }
}

pub proof fn lemma_pow_positive(n: nat)
    ensures
        pow3(n) >= 1,
        pow4(n) >= 1,
    decreases n,
{
    if n > 0 {
        lemma_pow_positive((n - 1) as nat);
    }
}

/// An edge of `depth` levels makes `4^depth` forward moves.
pub proof fn lemma_edge_len(h: int, depth: nat)
    ensures
        edge_headings(h, depth).len() == pow4(depth),
    decreases depth,
{
    if depth > 0 {
        let d = (depth - 1) as nat;
        lemma_edge_len(h, d);
        lemma_edge_len(h - 60, d);
        lemma_edge_len(h + 60, d);
    }
}

/// Cutting a side in three, then that third into `3^d` moves, gives the
/// moves of `d + 1` levels.
pub proof fn lemma_segment_third(side: int, d: nat)
    requires
        side >= 0,
    ensures
        segment(side / 3, d) == segment(side, d + 1),
        segment(side, d + 1) >= 0,
{
    lemma_pow_positive(d);
    lemma_div_denominator(side, 3, pow3(d) as int);
    assert(pow3(d + 1) == 3 * pow3(d));
}

/// A side that `3^(d + 1)` divides leaves thirds that `3^d` divides, and its
/// moves put together are the whole side.
pub proof fn lemma_exact_thirds(side: int, d: nat)
    requires
        side % (pow3(d + 1) as int) == 0,
    ensures
        (side / 3) % (pow3(d) as int) == 0,
        segment(side, d + 1) * pow3(d + 1) == side,
{
    lemma_pow_positive(d + 1);
    lemma_pow_positive(d);
    let p = pow3(d) as int;
    let m = side / (pow3(d + 1) as int);
    lemma_fundamental_div_mod(side, pow3(d + 1) as int);
    assert(pow3(d + 1) == 3 * pow3(d));
    assert(side == 3 * (p * m)) by (nonlinear_arith)
        requires
            side == (pow3(d + 1) as int) * m,
            pow3(d + 1) == 3 * p,
    ;
    lemma_div_multiples_vanish(p * m, 3);
    assert(p * m == m * p) by (nonlinear_arith);
    lemma_mod_multiples_basic(m, p);
    assert(segment(side, d + 1) * pow3(d + 1) == m * (pow3(d + 1) as int)) by (nonlinear_arith)
        requires
            segment(side, d + 1) == m,
    ;
    assert(m * (pow3(d + 1) as int) == side) by (nonlinear_arith)
        requires
            side == (pow3(d + 1) as int) * m,
    ;
}

/// Traces one Koch edge of `depth` levels: at depth 0 a single forward move of
/// `side_length`; otherwise four edges of a third the length, one level less,
/// with turns of 60 left, 120 right and 60 left between them.
pub fn generate(turtle: &mut Turtle, side_length: i64, depth: u32)
    requires
        old(turtle).wf(),
        side_length >= 0,
        (side_length as int) % (pow3(depth as nat) as int) == 0,
        depth <= MAX_DEPTH,
        i64::MIN + 60 * depth <= old(turtle).heading <= i64::MAX - 60 * depth,
        i64::MIN + reach(side_length as int, depth as nat) <= old(turtle).pos.a <= i64::MAX
            - reach(side_length as int, depth as nat),
        i64::MIN + reach(side_length as int, depth as nat) <= old(turtle).pos.b <= i64::MAX
            - reach(side_length as int, depth as nat),
    ensures
        final(turtle).wf(),
        generated(old(turtle)@, side_length as int, depth as nat, final(turtle)@),
        final(turtle).pos@ == shift(old(turtle).pos@, side_length as int, unit(old(turtle).heading as int)),
    decreases depth,
{
    let ghost t0 = turtle@;
    let ghost h = t0.heading;
    if depth == 0 {
        assert(edge_headings(h, 0) =~= seq![h]);
        assert(seq![h].drop_last() =~= Seq::<int>::empty());
        assert(pow3(0) == 1 && pow4(0) == 1);
        assert(side_length as int / 1 == side_length as int) by (nonlinear_arith);
        assert(segment(side_length as int, 0) == side_length as int);
        assert(reach(side_length as int, 0) == side_length as int) by (nonlinear_arith)
            requires
                pow4(0) == 1,
                segment(side_length as int, 0) == side_length as int,
                reach(side_length as int, 0) == pow4(0) * segment(side_length as int, 0),
        ;
        assert(advance(t0.pos, h, side_length as int) == (t0.pos.0 + side_length * unit(h).0, t0.pos.1
            + side_length * unit(h).1));
        let ghost u = unit(h);
        assert(-side_length <= side_length * u.0 <= side_length && -side_length <= side_length
            * u.1 <= side_length) by (nonlinear_arith)
            requires
                side_length >= 0,
                -1 <= u.0 <= 1,
                -1 <= u.1 <= 1,
        ;
        turtle.forward(side_length);
        assert(walk(t0.pos, Seq::<int>::empty(), side_length as int) =~= Seq::empty());
        assert(walk(t0.pos, seq![h], side_length as int) =~= seq![t0.pos]);
        assert(t0.trail.push(t0.pos) =~= t0.trail + seq![t0.pos]);
    } else {
        let third = side_length / 3;
        let ghost d = (depth - 1) as nat;
        let ghost s = segment(side_length as int, depth as nat);
        let ghost r = pow4(d) * s;
        proof {
            lemma_exact_thirds(side_length as int, d);
            lemma_segment_third(side_length as int, d);
            lemma_pow_positive(d);
            assert(reach(side_length as int, depth as nat) == 4 * r) by (nonlinear_arith)
                requires
                    r == pow4(d) * s,
                    reach(side_length as int, depth as nat) == pow4(depth as nat) * s,
                    pow4(depth as nat) == 4 * pow4(d),
            ;
            assert(0 <= r) by (nonlinear_arith)
                requires
                    r == pow4(d) * s,
                    s >= 0,
            ;
            lemma_edge_len(h, d);
            lemma_edge_len(h - 60, d);
            lemma_edge_len(h + 60, d);
        }
        let ghost e1 = edge_headings(h, d);
        let ghost e2 = edge_headings(h - 60, d);
        let ghost e3 = edge_headings(h + 60, d);

        generate(turtle, third, depth - 1);
        let ghost t1 = turtle@;
        proof {
            lemma_walk_end_bound(t0.pos, e1, s);
        }
        turtle.turn_left(60);
        generate(turtle, third, depth - 1);
        let ghost t2 = turtle@;
        proof {
            lemma_walk_end_bound(t1.pos, e2, s);
        }
        turtle.turn_right(120);
        generate(turtle, third, depth - 1);
        let ghost t3 = turtle@;
        proof {
            lemma_walk_end_bound(t2.pos, e3, s);
        }
        turtle.turn_left(60);
        generate(turtle, third, depth - 1);
        proof {
            lemma_walk_concat(t0.pos, e1, e2, s);
            lemma_walk_concat(t0.pos, e1 + e2, e3, s);
            lemma_walk_concat(t0.pos, e1 + e2 + e3, e1, s);
            assert(edge_headings(h, depth as nat) == e1 + e2 + e3 + e1);
            assert(turtle@.trail =~= t0.trail + walk(t0.pos, e1 + e2 + e3 + e1, s));
            lemma_edge_end(t0.pos, h, depth as nat, s);
        }
    }
}

/// The side of the lattice unit vectors: turning 60 degrees either way and
/// adding the two gives the straight step.
pub proof fn lemma_unit_sides(h: int)
    ensures
        unit(h - 60).0 + unit(h + 60).0 == unit(h).0,
        unit(h - 60).1 + unit(h + 60).1 == unit(h).1,
{
    let r = h % 360;
    assert((h - 60) % 360 == if r >= 60 { r - 60 } else { r + 300 });
    assert((h + 60) % 360 == if r < 300 { r + 60 } else { r - 300 });
}

/// Three unit steps 120 degrees apart cancel out.
pub proof fn lemma_unit_triangle(h: int)
    ensures
        unit(h).0 + unit(h + 120).0 + unit(h + 240).0 == 0,
        unit(h).1 + unit(h + 120).1 + unit(h + 240).1 == 0,
{
    let r = h % 360;
    assert((h + 120) % 360 == if r < 240 { r + 120 } else { r - 240 });
    assert((h + 240) % 360 == if r < 120 { r + 240 } else { r - 120 });
}

/// `p` moved by `k` times the lattice vector `u`.
pub open spec fn shift(p: (int, int), k: int, u: (int, int)) -> (int, int) {
    (p.0 + k * u.0, p.1 + k * u.1)
}

proof fn lemma_four_moves(p: (int, int), k: int, u: (int, int), v: (int, int), w: (int, int))
    requires
        v.0 + w.0 == u.0,
        v.1 + w.1 == u.1,
    ensures
        shift(shift(shift(shift(p, k, u), k, v), k, w), k, u) == shift(p, 3 * k, u),
{
    assert(k * u.0 + k * v.0 + k * w.0 + k * u.0 == 3 * k * u.0) by (nonlinear_arith)
        requires
            v.0 + w.0 == u.0,
    ;
    assert(k * u.1 + k * v.1 + k * w.1 + k * u.1 == 3 * k * u.1) by (nonlinear_arith)
        requires
            v.1 + w.1 == u.1,
    ;
}

/// An edge of `depth` levels with moves of `s` steps ends `s * 3^depth` steps
/// from where it started, in the direction it started in.
pub proof fn lemma_edge_end(p: (int, int), h: int, depth: nat, s: int)
    ensures
        walk_end(p, edge_headings(h, depth), s) == shift(p, s * pow3(depth), unit(h)),
    decreases depth,
{
    if depth == 0 {
        assert(edge_headings(h, 0) == seq![h]);
        assert(seq![h].drop_last() =~= Seq::<int>::empty());
        assert(seq![h].last() == h);
        assert(walk_end(p, Seq::<int>::empty(), s) == p);
        assert(walk_end(p, seq![h], s) == advance(p, h, s));
        assert(pow3(0) == 1);
        assert(s * pow3(0) == s);
    } else {
        let d = (depth - 1) as nat;
        let e1 = edge_headings(h, d);
        let e2 = edge_headings(h - 60, d);
        let e3 = edge_headings(h + 60, d);
        let k = s * pow3(d);
        assert(edge_headings(h, depth) == e1 + e2 + e3 + e1);
        lemma_walk_concat(p, e1, e2, s);
        lemma_walk_concat(p, e1 + e2, e3, s);
        lemma_walk_concat(p, e1 + e2 + e3, e1, s);
        lemma_edge_end(p, h, d, s);
        let p1 = shift(p, k, unit(h));
        lemma_edge_end(p1, h - 60, d, s);
        let p2 = shift(p1, k, unit(h - 60));
        lemma_edge_end(p2, h + 60, d, s);
        let p3 = shift(p2, k, unit(h + 60));
        lemma_edge_end(p3, h, d, s);
        lemma_unit_sides(h);
        lemma_four_moves(p, k, unit(h), unit(h - 60), unit(h + 60));
        assert(s * pow3(depth) == 3 * k) by (nonlinear_arith)
            requires
                k == s * pow3(d),
                pow3(depth) == 3 * pow3(d),
        ;
    }
}

/// The headings of the first `n` edges of a snowflake, the edge `i` starting
/// at heading `120 * i`.
pub open spec fn flake_prefix(depth: nat, n: nat) -> Seq<int>
    decreases n,
{
    if n == 0 {
        Seq::empty()
    } else {
        flake_prefix(depth, (n - 1) as nat) + edge_headings(120 * (n - 1), depth)
    }
}

/// The headings of all forward moves of a snowflake of `depth` levels.
pub open spec fn snowflake_headings(depth: nat) -> Seq<int> {
    flake_prefix(depth, 3)
}

/// The closed polygon of a snowflake of `depth` levels: the points the turtle
/// stood on before each move, starting at the origin, then the first point
/// once more.
pub open spec fn snowflake(depth: nat) -> Seq<(int, int)> {
    let w = walk((0, 0), snowflake_headings(depth), segment(SIDE_LENGTH as int, depth));
    w.push(w[0])
}

pub proof fn lemma_flake_prefix_len(depth: nat, n: nat)
    ensures
        flake_prefix(depth, n).len() == n * pow4(depth),
    decreases n,
{
    if n == 0 {
        assert(0 * pow4(depth) == 0);
    } else {
        lemma_flake_prefix_len(depth, (n - 1) as nat);
        assert(flake_prefix(depth, n) == flake_prefix(depth, (n - 1) as nat) + edge_headings(
            120 * (n - 1),
            depth,
        ));
        lemma_edge_len(120 * (n - 1), depth);
        let m = (n - 1) as nat;
        assert(flake_prefix(depth, m).len() == m * pow4(depth));
        assert(edge_headings(120 * (n - 1), depth).len() == pow4(depth));
        assert(flake_prefix(depth, n).len() == m * pow4(depth) + pow4(depth));
        assert(n * pow4(depth) == m * pow4(depth) + pow4(depth)) by (nonlinear_arith)
            requires
                m == n - 1,
        ;
    }
}

proof fn lemma_side_parts(depth: nat, p3: int, p4: int, q: int)
    requires
        pow3(depth) == p3,
        pow4(depth) == p4,
        p3 * q == 6561,
        1 <= q,
        0 <= p4 * q <= 65536,
    ensures
        segment(SIDE_LENGTH as int, depth) * pow3(depth) == SIDE_LENGTH,
        segment(SIDE_LENGTH as int, depth) >= 1,
        0 <= reach(SIDE_LENGTH as int, depth) <= 65536,
        (SIDE_LENGTH as int) % (pow3(depth) as int) == 0,
{
    lemma_div_multiples_vanish(q, p3);
    assert(q * p3 == p3 * q) by (nonlinear_arith);
    lemma_mod_multiples_basic(q, p3);
}

/// Down to the deepest level the side divides exactly, and no edge reaches
/// further than `4^MAX_DEPTH` steps.
pub proof fn lemma_side_divides(depth: nat)
    requires
        depth <= MAX_DEPTH,
    ensures
        segment(SIDE_LENGTH as int, depth) * pow3(depth) == SIDE_LENGTH,
        segment(SIDE_LENGTH as int, depth) >= 1,
        0 <= reach(SIDE_LENGTH as int, depth) <= 65536,
        (SIDE_LENGTH as int) % (pow3(depth) as int) == 0,
{
    reveal_with_fuel(pow3, 9);
    reveal_with_fuel(pow4, 9);
    if depth == 0 {
        lemma_side_parts(depth, 1, 1, 6561);
    } else if depth == 1 {
        lemma_side_parts(depth, 3, 4, 2187);
    } else if depth == 2 {
        lemma_side_parts(depth, 9, 16, 729);
    } else if depth == 3 {
        lemma_side_parts(depth, 27, 64, 243);
    } else if depth == 4 {
        lemma_side_parts(depth, 81, 256, 81);
    } else if depth == 5 {
        lemma_side_parts(depth, 243, 1024, 27);
    } else if depth == 6 {
        lemma_side_parts(depth, 729, 4096, 9);
    } else if depth == 7 {
        lemma_side_parts(depth, 2187, 16384, 3);
    } else {
        lemma_side_parts(depth, 6561, 65536, 1);
    }
}

/// The points of the closed snowflake polygon of `depth` levels: three edges
/// traced from the origin at heading 0, with a right turn of 120 degrees after
/// each, then the first point once more to close the loop.
pub fn snowflake_points(depth: u32) -> (r: Vec<Point>)
    requires
        depth <= MAX_DEPTH,
    ensures
        r@.map_values(|p: Point| p@) == snowflake(depth as nat),
{
    let ghost s = segment(SIDE_LENGTH as int, depth as nat);
    proof {
        lemma_side_divides(depth as nat);
        lemma_pow_positive(depth as nat);
    }
    let mut turtle = Turtle::new(Point::new(0, 0), 0);
    assert(flake_prefix(depth as nat, 0) =~= Seq::<int>::empty());
    let mut i: u32 = 0;
    while i < 3
        invariant
            i <= 3,
            depth <= MAX_DEPTH,
            s == segment(SIDE_LENGTH as int, depth as nat),
            s >= 1,
            0 <= reach(SIDE_LENGTH as int, depth as nat) <= 65536,
            (SIDE_LENGTH as int) % (pow3(depth as nat) as int) == 0,
            turtle.wf(),
            turtle@ == (TurtleState {
                pos: walk_end((0, 0), flake_prefix(depth as nat, i as nat), s),
                heading: 120 * i,
                trail: walk((0, 0), flake_prefix(depth as nat, i as nat), s),
            }),
        decreases 3 - i,
    {
        let ghost before = turtle@;
        let ghost e = edge_headings(120 * i, depth as nat);
        proof {
            lemma_flake_prefix_len(depth as nat, i as nat);
            lemma_walk_end_bound((0, 0), flake_prefix(depth as nat, i as nat), s);
            assert(i * pow4(depth as nat) * s <= 3 * reach(SIDE_LENGTH as int, depth as nat))
                by (nonlinear_arith)
                requires
                    i <= 3,
                    s >= 1,
                    reach(SIDE_LENGTH as int, depth as nat) == pow4(depth as nat) * s,
            ;
        }
        generate(&mut turtle, SIDE_LENGTH, depth);
        turtle.turn_right(120);
        proof {
            lemma_walk_concat((0, 0), flake_prefix(depth as nat, i as nat), e, s);
            assert(flake_prefix(depth as nat, (i + 1) as nat) == flake_prefix(depth as nat, i as nat)
                + e);
        }
        i = i + 1;
    }
    proof {
        lemma_flake_prefix_len(depth as nat, 3);
        lemma_walk_len((0, 0), snowflake_headings(depth as nat), s);
        assert(3 * pow4(depth as nat) >= 3) by (nonlinear_arith)
            requires
                pow4(depth as nat) >= 1,
        ;
    }
    let mut points = turtle.visited;
    let first = points[0];
    let ghost before = points@;
    points.push(first);
    assert(points@.map_values(|p: Point| p@) =~= before.map_values(|p: Point| p@).push(first@));
    points
}

/// Each Koch edge of `depth` levels makes exactly `4^depth` forward moves:
/// the turtle's trail keeps what it held and grows by that many points.
pub proof fn lemma_move_count(before: TurtleState, side: int, depth: nat, after: TurtleState)
    requires
        generated(before, side, depth, after),
    ensures
        after.trail.len() == before.trail.len() + pow4(depth),
        after.trail.subrange(0, before.trail.len() as int) == before.trail,
{
    let hs = edge_headings(before.heading, depth);
    lemma_edge_len(before.heading, depth);
    lemma_walk_len(before.pos, hs, segment(side, depth));
    assert(after.trail.subrange(0, before.trail.len() as int) =~= before.trail);
}

/// A snowflake polygon of `depth` levels has `3 * 4^depth + 1` points: three
/// edges of `4^depth` moves each, and the point that closes the loop.
pub proof fn lemma_snowflake_len(depth: nat)
    ensures
        snowflake(depth).len() == 3 * pow4(depth) + 1,
{
    lemma_flake_prefix_len(depth, 3);
    lemma_walk_len((0, 0), snowflake_headings(depth), segment(SIDE_LENGTH as int, depth));
}

/// Generating from the same turtle state with the same side length and depth
/// always leaves the same turtle state, and so the same points.
pub proof fn lemma_generate_deterministic(
    before: TurtleState,
    side: int,
    depth: nat,
    first: TurtleState,
    second: TurtleState,
)
    requires
        generated(before, side, depth, first),
        generated(before, side, depth, second),
    ensures
        first == second,
{
}

/// The turtle that traces a snowflake ends where it started, and the polygon's
/// last point is its first, the origin.
pub proof fn lemma_snowflake_closed(depth: nat)
    ensures
        walk_end((0, 0), snowflake_headings(depth), segment(SIDE_LENGTH as int, depth)) == (0int, 0int),
        snowflake(depth)[0] == (0int, 0int),
        snowflake(depth).last() == snowflake(depth)[0],
{
    let s = segment(SIDE_LENGTH as int, depth);
    let k = s * pow3(depth);
    let o = (0int, 0int);
    let e0 = edge_headings(0, depth);
    let e1 = edge_headings(120, depth);
    let e2 = edge_headings(240, depth);
    assert(flake_prefix(depth, 0) =~= Seq::<int>::empty());
    assert(flake_prefix(depth, 1) =~= e0);
    assert(flake_prefix(depth, 2) == e0 + e1);
    assert(flake_prefix(depth, 3) == e0 + e1 + e2);
    lemma_walk_concat(o, e0, e1, s);
    lemma_walk_concat(o, e0 + e1, e2, s);
    lemma_edge_end(o, 0, depth, s);
    let p1 = shift(o, k, unit(0));
    lemma_edge_end(p1, 120, depth, s);
    let p2 = shift(p1, k, unit(120));
    lemma_edge_end(p2, 240, depth, s);
    lemma_unit_triangle(0);
    let (u, v, w) = (unit(0), unit(120), unit(240));
    assert(k * u.0 + k * v.0 + k * w.0 == 0 && k * u.1 + k * v.1 + k * w.1 == 0) by (nonlinear_arith)
        requires
            u.0 + v.0 + w.0 == 0,
            u.1 + v.1 + w.1 == 0,
    ;
    assert(walk_end(o, e0 + e1 + e2, s) == (0int, 0int));
    lemma_flake_prefix_len(depth, 3);
    lemma_pow_positive(depth);
    lemma_walk_first(o, snowflake_headings(depth), s);
}

/// At depth 0 the snowflake is an equilateral triangle: three moves of a whole
/// side at headings 0, 120 and 240 degrees, every side `SIDE_LENGTH` long.
pub proof fn lemma_depth_zero_triangle()
    ensures
        snowflake_headings(0) == seq![0int, 120, 240],
        snowflake(0) == seq![(0int, 0int), (SIDE_LENGTH as int, 0int), (0int, SIDE_LENGTH as int), (0int, 0int)],
        dist2(snowflake(0)[0], snowflake(0)[1]) == SIDE_LENGTH * SIDE_LENGTH,
        dist2(snowflake(0)[1], snowflake(0)[2]) == SIDE_LENGTH * SIDE_LENGTH,
        dist2(snowflake(0)[2], snowflake(0)[0]) == SIDE_LENGTH * SIDE_LENGTH,
{
    let hs = seq![0int, 120, 240];
    assert(flake_prefix(0, 0) =~= Seq::<int>::empty());
    assert(hs.drop_last() =~= seq![0int, 120]);
    assert(edge_headings(0, 0) == seq![0int]);
    assert(edge_headings(120, 0) == seq![120int]);
    assert(edge_headings(240, 0) == seq![240int]);
    assert(flake_prefix(0, 1) =~= seq![0int]);
    assert(flake_prefix(0, 2) =~= seq![0int, 120]);
    assert(flake_prefix(0, 3) =~= hs);
    assert(snowflake_headings(0) =~= hs);
    assert(pow3(0) == 1);
    assert(SIDE_LENGTH as int / 1 == SIDE_LENGTH as int) by (nonlinear_arith);
    let s = SIDE_LENGTH as int;
    let o = (0int, 0int);
    let q1 = advance(o, 0, s);
    let q2 = advance(q1, 120, s);
    assert(seq![0int].drop_last() =~= Seq::<int>::empty());
    assert(seq![0int, 120].drop_last() =~= seq![0int]);
    assert(walk_end(o, Seq::<int>::empty(), s) == o);
    assert(walk_end(o, seq![0int], s) == q1);
    assert(walk_end(o, seq![0int, 120], s) == q2);
    assert(walk(o, Seq::<int>::empty(), s) =~= Seq::empty());
    assert(walk(o, seq![0int], s) =~= seq![o]);
    assert(walk(o, seq![0int, 120], s) =~= seq![o, q1]);
    assert(walk(o, hs, s) =~= seq![o, q1, q2]);
    assert(segment(SIDE_LENGTH as int, 0) == s);
    assert(q1 == (s, 0int));
    assert(q2 == (0int, s));
    assert(snowflake(0) =~= seq![o, q1, q2, o]);
    assert(s == 6561);
    assert(dist2(o, q1) == 6561 * 6561);
    assert(dist2(q1, q2) == (-6561) * (-6561) + (-6561) * 6561 + 6561 * 6561);
    let v = (0int, -6561int);
    assert(v.0 * v.0 == 0);
    assert(v.0 * v.1 == 0);
    assert(v.1 * v.1 == 6561 * 6561);
    assert(dist2(q2, o) == 6561 * 6561);
}

} // verus!
