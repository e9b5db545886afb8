//! Crossed wires: two wires leave the central port as lists of moves, and
//! the interesting points are where they cross — judged either by taxicab
//! distance from the port or by combined signal distance along the wires.

use vstd::prelude::*;

use crate::text::{int_literal_val, is_int_literal, parse_i64};

verus! {

/// A point of the wire grid.
#[derive(Debug, PartialEq, Eq, Structural, Clone, Copy, Hash)]
pub struct Point {
    pub x: i32,
    pub y: i32,
}

/// A coordinate bound that keeps a whole walk inside 32 bits.
pub open spec fn walk_coord(v: int) -> bool {
    -1_000_000_000 <= v <= 1_000_000_000
}

impl Point {
    /// The central port.
    pub fn origin() -> (r: Point)
        ensures
            r == (Point { x: 0, y: 0 }),
    {
        Point { x: 0, y: 0 }
    }

    /// The taxicab distance from the central port.
    pub fn manhattan_from_origin(&self) -> (r: i32)
        requires
            walk_coord(self.x as int),
            walk_coord(self.y as int),
        ensures
            r as int == (if self.x >= 0 {
                self.x as int
            } else {
                -self.x as int
            }) + (if self.y >= 0 {
                self.y as int
            } else {
                -self.y as int
            }),
    {
        let ax: i32 = if self.x >= 0 {
            self.x
        } else {
            -self.x
        };
        let ay: i32 = if self.y >= 0 {
            self.y
        } else {
            -self.y
        };
        ax + ay
    }

    /// One grid step in the direction of a move.
    pub fn advance_in_direction(self, m: &Move) -> (r: Point)
        requires
            walk_coord(self.x as int),
            walk_coord(self.y as int),
        ensures
            r.x as int == self.x + spec_signum(m.xdelta as int),
            r.y as int == self.y + spec_signum(m.ydelta as int),
    {
        Point { x: self.x + signum(m.xdelta), y: self.y + signum(m.ydelta) }
    }
}

/// The sign of an integer.
pub open spec fn spec_signum(v: int) -> int {
    if v > 0 {
        1
    } else if v < 0 {
        -1
    } else {
        0
    }
}

/// The sign of a value.
fn signum(v: i32) -> (r: i32)
    ensures
        r as int == spec_signum(v as int),
{
    if v > 0 {
        1
    } else if v < 0 {
        -1
    } else {
        0
    }
}

/// One move of a wire: a unit direction and how far to go.
#[derive(Debug, PartialEq, Eq, Structural, Clone, Copy)]
pub struct Move {
    pub xdelta: i32,
    pub ydelta: i32,
    pub distance: i32,
}

/// A move that could not be understood.
#[derive(Debug)]
pub struct BadMove(pub String);

/// What a move field denotes, if anything: a direction letter and a
/// non-negative distance that fits in 32 bits.
pub open spec fn spec_move_of(s: Seq<char>) -> Option<Move> {
    if s.len() < 1 {
        None
    } else {
        let tail = s.skip(1);
        if !(is_int_literal(tail) && 0 <= int_literal_val(tail) <= i32::MAX) {
            None
        } else {
            let n = int_literal_val(tail);
            if s[0] == 'L' {
                Some(Move { xdelta: -1i32, ydelta: 0i32, distance: n as i32 })
            } else if s[0] == 'R' {
                Some(Move { xdelta: 1i32, ydelta: 0i32, distance: n as i32 })
            } else if s[0] == 'U' {
                Some(Move { xdelta: 0i32, ydelta: 1i32, distance: n as i32 })
            } else if s[0] == 'D' {
                Some(Move { xdelta: 0i32, ydelta: -1i32, distance: n as i32 })
            } else {
                None
            }
        }
    }
}

impl Move {
    /// Parse one move field, `L`, `R`, `U` or `D` followed by a distance.
    /// A zero-distance move is parsed as facing the way its letter says;
    /// its direction simply never gets used.
    pub fn parse(s: &str) -> (r: Result<Move, BadMove>)
        ensures
            match r {
                Ok(m) => spec_move_of(s@) == Some(m),
                Err(_) => spec_move_of(s@) is None,
            },
    {
        let n = s.unicode_len();
        if n < 1 {
            return Err(BadMove(String::from_str(s)));
        }
        let letter = s.get_char(0);
        let tail = s.substring_char(1, n);
        proof {
            assert(tail@ =~= s@.skip(1));
        }
        let value = match parse_i64(tail) {
            Some(v) => v,
            None => {
                return Err(BadMove(String::from_str(s)));
            },
        };
        if value < 0 || value > i32::MAX as i64 {
            return Err(BadMove(String::from_str(s)));
        }
        let distance = value as i32;
        if letter == 'L' {
            Ok(Move { xdelta: -1, ydelta: 0, distance })
        } else if letter == 'R' {
            Ok(Move { xdelta: 1, ydelta: 0, distance })
        } else if letter == 'U' {
            Ok(Move { xdelta: 0, ydelta: 1, distance })
        } else if letter == 'D' {
            Ok(Move { xdelta: 0, ydelta: -1, distance })
        } else {
            Err(BadMove(String::from_str(s)))
        }
    }
}

/// Parse a comma-separated list of moves.
pub fn string_to_moves(s: &str) -> (r: Result<Vec<Move>, BadMove>)
    ensures
        match r {
            Ok(moves) => {
                let fields = crate::text::spec_split(s@, ',');
                &&& moves@.len() == fields.len()
                &&& forall|i: int|
                    0 <= i < fields.len() ==> spec_move_of(#[trigger] fields[i]) == Some(
                        moves@[i],
                    )
            },
            Err(_) => exists|i: int|
                0 <= i < crate::text::spec_split(s@, ',').len() && spec_move_of(
                    #[trigger] crate::text::spec_split(s@, ',')[i],
                ) is None,
        },
{
    let fields = crate::text::split_char(s, ',');
    let ghost field_views = fields@.map_values(|t: String| t@);
    let mut moves: Vec<Move> = Vec::new();
    let mut i: usize = 0;
    while i < fields.len()
        invariant
            i <= fields@.len(),
            field_views == fields@.map_values(|t: String| t@),
            field_views == crate::text::spec_split(s@, ','),
            moves@.len() == i,
            forall|j: int|
                0 <= j < i ==> spec_move_of(#[trigger] field_views[j]) == Some(moves@[j]),
        decreases fields@.len() - i,
    {
        proof {
            assert(field_views[i as int] == fields@[i as int]@);
        }
        match Move::parse(fields[i].as_str()) {
            Ok(m) => {
                moves.push(m);
            },
            Err(e) => {
                return Err(e);
            },
        }
        i = i + 1;
    }
    Ok(moves)
}

/// The total length of a list of moves.
pub open spec fn total_distance(moves: Seq<Move>, k: int) -> int
    decreases k,
{
    if k <= 0 {
        0
    } else {
        total_distance(moves, k - 1) + (if moves[k - 1].distance >= 0 {
            moves[k - 1].distance as int
        } else {
            0
        })
    }
}

/// A wire's trace: each visited point with the signal distance at which
/// the wire most recently visited it; the central port is never recorded.
pub struct PathMap {
    steps: Vec<(Point, u32)>,
}

/// The distance recorded for `p`, the latest visit winning.
pub open spec fn path_distance(s: Seq<(Point, u32)>, p: Point) -> Option<u32>
    decreases s.len(),
{
    if s.len() == 0 {
        None
    } else if s.last().0 == p {
        Some(s.last().1)
    } else {
        path_distance(s.drop_last(), p)
    }
}

impl PathMap {
    /// The recorded visits, in walking order.
    pub closed spec fn steps(&self) -> Seq<(Point, u32)> {
        self.steps@
    }

    /// An empty trace.
    pub fn new() -> (r: PathMap)
        ensures
            r.steps().len() == 0,
    {
        PathMap { steps: Vec::new() }
    }

    /// The distance at which the wire reached `p`, if it did.
    pub fn distance_at(&self, p: &Point) -> (r: Option<u32>)
        ensures
            r == path_distance(self.steps(), *p),
    {
        let n = self.steps.len();
        let mut i: usize = n;
        proof {
            assert(self.steps().take(n as int) =~= self.steps());
        }
        while i > 0
            invariant
                i <= n,
                n == self.steps().len(),
                path_distance(self.steps(), *p) == path_distance(
                    self.steps().take(i as int),
                    *p,
                ),
            decreases i,
        {
            proof {
                let t = self.steps().take(i as int);
                assert(t.last() == self.steps()[i - 1]);
                assert(t.drop_last() =~= self.steps().take(i as int - 1));
            }
            if self.steps[i - 1].0 == *p {
                return Some(self.steps[i - 1].1);
            }
            i = i - 1;
        }
        proof {
            assert(self.steps().take(0) =~= Seq::<(Point, u32)>::empty());
        }
        None
    }
}

/// One unit step of `m` from `p`.
pub open spec fn spec_advance(p: Point, m: Move) -> Point {
    Point {
        x: (p.x + spec_signum(m.xdelta as int)) as i32,
        y: (p.y + spec_signum(m.ydelta as int)) as i32,
    }
}

/// Where a whole move ends.
pub open spec fn move_end(p: Point, m: Move) -> Point {
    Point {
        x: (p.x + spec_signum(m.xdelta as int) * m.distance) as i32,
        y: (p.y + spec_signum(m.ydelta as int) * m.distance) as i32,
    }
}

/// The visits one move of length `k` from `p` records, in walking order:
/// each unit step's starting point with its signal distance `d` onward,
/// the central port excepted.
pub open spec fn move_trace(p: Point, m: Move, d: int, k: int) -> Seq<(Point, u32)>
    decreases k,
{
    if k <= 0 {
        seq![]
    } else {
        (if p == (Point { x: 0i32, y: 0i32 }) {
            seq![]
        } else {
            seq![(p, d as u32)]
        }) + move_trace(spec_advance(p, m), m, d + 1, k - 1)
    }
}

/// The visits a whole wire from `p` records, move by move, with signal
/// distances counted from `d`.
pub open spec fn wire_trace(p: Point, moves: Seq<Move>, d: int) -> Seq<(Point, u32)>
    decreases moves.len(),
{
    if moves.len() == 0 {
        seq![]
    } else {
        move_trace(p, moves[0], d, moves[0].distance as int) + wire_trace(
            move_end(p, moves[0]),
            moves.skip(1),
            d + moves[0].distance,
        )
    }
}

/// Walk one move of a wire, recording every visited point (except the
/// central port) with its signal distance, and hand back where the wire
/// ends up.  The recorded visits are exactly the move's trace; the walk
/// stays inside 32 bits because the caller bounds the whole wire.
pub fn add_move(current: Point, this_move: &Move, dist: &mut u32, path: &mut PathMap) -> (r: Point)
    requires
        walk_coord(current.x as int),
        walk_coord(current.y as int),
        this_move.distance >= 0,
        *old(dist) + this_move.distance <= u32::MAX,
        walk_coord(current.x + this_move.distance),
        walk_coord(current.x - this_move.distance),
        walk_coord(current.y + this_move.distance),
        walk_coord(current.y - this_move.distance),
    ensures
        *final(dist) == *old(dist) + this_move.distance,
        r.x as int == current.x + spec_signum(this_move.xdelta as int) * this_move.distance,
        r.y as int == current.y + spec_signum(this_move.ydelta as int) * this_move.distance,
        final(path).steps() == old(path).steps() + move_trace(
            current,
            *this_move,
            *old(dist) as int,
            this_move.distance as int,
        ),
{
    let origin = Point::origin();
    let mut here = current;
    let mut step: i32 = 0;
    let total = this_move.distance;
    let ghost mut done: Seq<(Point, u32)> = Seq::empty();
    proof {
        assert(Seq::<(Point, u32)>::empty() + move_trace(
            current,
            *this_move,
            *old(dist) as int,
            total as int,
        ) =~= move_trace(current, *this_move, *old(dist) as int, total as int));
        assert(path.steps() + done =~= path.steps());
    }
    while step < total
        invariant
            0 <= step <= total,
            total == this_move.distance,
            *old(dist) + total <= u32::MAX,
            *dist == *old(dist) + step,
            here.x as int == current.x + spec_signum(this_move.xdelta as int) * step,
            here.y as int == current.y + spec_signum(this_move.ydelta as int) * step,
            walk_coord(current.x + total),
            walk_coord(current.x - total),
            walk_coord(current.y + total),
            walk_coord(current.y - total),
            origin == (Point { x: 0i32, y: 0i32 }),
            path.steps() == old(path).steps() + done,
            move_trace(current, *this_move, *old(dist) as int, total as int) == done + move_trace(
                here,
                *this_move,
                *dist as int,
                (total - step) as int,
            ),
        decreases total - step,
    {
        let ghost head: Seq<(Point, u32)> = if here == (Point { x: 0i32, y: 0i32 }) {
            Seq::empty()
        } else {
            seq![(here, *dist)]
        };
        proof {
            assert(move_trace(here, *this_move, *dist as int, (total - step) as int) == head
                + move_trace(
                spec_advance(here, *this_move),
                *this_move,
                *dist as int + 1,
                (total - step - 1) as int,
            ));
            assert((old(path).steps() + done) + head =~= old(path).steps() + (done + head));
            assert((done + head) + move_trace(
                spec_advance(here, *this_move),
                *this_move,
                *dist as int + 1,
                (total - step - 1) as int,
            ) =~= done + (head + move_trace(
                spec_advance(here, *this_move),
                *this_move,
                *dist as int + 1,
                (total - step - 1) as int,
            )));
        }
        if !(here.x == origin.x && here.y == origin.y) {
            path.steps.push((here, *dist));
        }
        proof {
            if !(here == (Point { x: 0i32, y: 0i32 })) {
                assert(path.steps() =~= old(path).steps() + (done + head));
            }
            done = done + head;
        }
        *dist = *dist + 1;
        proof {
            assert(spec_signum(this_move.xdelta as int) * (step + 1) == spec_signum(
                this_move.xdelta as int,
            ) * step + spec_signum(this_move.xdelta as int)) by (nonlinear_arith);
            assert(spec_signum(this_move.ydelta as int) * (step + 1) == spec_signum(
                this_move.ydelta as int,
            ) * step + spec_signum(this_move.ydelta as int)) by (nonlinear_arith);
            assert(-total <= spec_signum(this_move.xdelta as int) * step <= total) by (
            nonlinear_arith)
                requires
                    0 <= step <= total,
            ;
            assert(-total <= spec_signum(this_move.ydelta as int) * step <= total) by (
            nonlinear_arith)
                requires
                    0 <= step <= total,
            ;
        }
        let next = here.advance_in_direction(this_move);
        proof {
            assert(next == spec_advance(here, *this_move));
        }
        here = next;
        step = step + 1;
    }
    proof {
        assert(move_trace(here, *this_move, *dist as int, 0) =~= Seq::<(Point, u32)>::empty());
        assert(done + Seq::<(Point, u32)>::empty() =~= done);
    }
    here
}

/// Trace a whole wire from `start`, recording every visited point with
/// its signal distance: the recorded visits are exactly the wire's trace.
pub fn make_path(start: &Point, moves: &[Move]) -> (r: PathMap)
    requires
        start.x == 0,
        start.y == 0,
        forall|i: int| 0 <= i < moves@.len() ==> (#[trigger] moves@[i]).distance >= 0,
        0 <= total_distance(moves@, moves@.len() as int) <= 1_000_000_000,
    ensures
        r.steps() == wire_trace(*start, moves@, 0),
{
    let mut result = PathMap::new();
    let mut current = *start;
    let mut dist: u32 = 0;
    let mut i: usize = 0;
    proof {
        lemma_total_distance_bounds(moves@, moves@.len() as int);
        assert(moves@.skip(0) =~= moves@);
        assert(result.steps() + wire_trace(current, moves@, 0) =~= wire_trace(
            current,
            moves@,
            0,
        ));
    }
    while i < moves.len()
        invariant
            i <= moves@.len(),
            forall|i: int| 0 <= i < moves@.len() ==> (#[trigger] moves@[i]).distance >= 0,
            0 <= total_distance(moves@, moves@.len() as int) <= 1_000_000_000,
            forall|k: int|
                0 <= k <= moves@.len() ==> 0 <= #[trigger] total_distance(moves@, k)
                    <= total_distance(moves@, moves@.len() as int),
            dist as int == total_distance(moves@, i as int),
            wire_trace(*start, moves@, 0) == result.steps() + wire_trace(
                current,
                moves@.skip(i as int),
                dist as int,
            ),
            -(total_distance(moves@, i as int)) <= current.x as int <= total_distance(
                moves@,
                i as int,
            ),
            -(total_distance(moves@, i as int)) <= current.y as int <= total_distance(
                moves@,
                i as int,
            ),
        decreases moves@.len() - i,
    {
        proof {
            assert(total_distance(moves@, i as int + 1) == total_distance(moves@, i as int)
                + moves@[i as int].distance);
            assert(moves@.skip(i as int)[0] == moves@[i as int]);
            assert(moves@.skip(i as int).skip(1) =~= moves@.skip(i as int + 1));
        }
        let ghost pre_steps = result.steps();
        let ghost pre_here = current;
        let ghost pre_dist = dist as int;
        current = add_move(current, &moves[i], &mut dist, &mut result);
        proof {
            let m = moves@[i as int];
            assert(current == move_end(pre_here, m));
            assert(wire_trace(pre_here, moves@.skip(i as int), pre_dist) == move_trace(
                pre_here,
                m,
                pre_dist,
                m.distance as int,
            ) + wire_trace(current, moves@.skip(i as int + 1), pre_dist + m.distance));
            assert((pre_steps + move_trace(pre_here, m, pre_dist, m.distance as int))
                + wire_trace(current, moves@.skip(i as int + 1), pre_dist + m.distance) =~= (
            pre_steps + (move_trace(pre_here, m, pre_dist, m.distance as int) + wire_trace(
                current,
                moves@.skip(i as int + 1),
                pre_dist + m.distance,
            ))));
            assert(-1 <= spec_signum(m.xdelta as int) <= 1);
            assert(-(m.distance as int) <= spec_signum(m.xdelta as int) * m.distance
                <= m.distance as int) by (nonlinear_arith)
                requires
                    m.distance >= 0,
            ;
            assert(-(m.distance as int) <= spec_signum(m.ydelta as int) * m.distance
                <= m.distance as int) by (nonlinear_arith)
                requires
                    m.distance >= 0,
            ;
        }
        i = i + 1;
    }
    proof {
        assert(moves@.skip(moves@.len() as int) =~= Seq::<Move>::empty());
        assert(result.steps() + Seq::<(Point, u32)>::empty() =~= result.steps());
    }
    result
}

/// Partial wire lengths never shrink.
proof fn lemma_total_distance_bounds(moves: Seq<Move>, k: int)
    requires
        0 <= k <= moves.len(),
    ensures
        forall|j: int| 0 <= j <= k ==> 0 <= #[trigger] total_distance(moves, j) <= total_distance(
            moves,
            k,
        ),
    decreases k,
{
    if k > 0 {
        lemma_total_distance_bounds(moves, k - 1);
        assert(total_distance(moves, k) == total_distance(moves, k - 1) + (
        if moves[k - 1].distance >= 0 {
            moves[k - 1].distance as int
        } else {
            0
        }));
        assert forall|j: int| 0 <= j <= k implies 0 <= #[trigger] total_distance(moves, j)
            <= total_distance(moves, k) by {
            if j <= k - 1 {
                assert(0 <= total_distance(moves, j) <= total_distance(moves, k - 1));
            }
        }
    } else {
        assert(total_distance(moves, 0) == 0);
    }
}

/// Front decomposition of a wire's length.
proof fn lemma_total_distance_skip(moves: Seq<Move>, k: int)
    requires
        1 <= k <= moves.len(),
    ensures
        total_distance(moves, k) == (if moves[0].distance >= 0 {
            moves[0].distance as int
        } else {
            0
        }) + total_distance(moves.skip(1), k - 1),
    decreases k,
{
    if k == 1 {
        assert(total_distance(moves, 0) == 0);
        assert(total_distance(moves, 1) == total_distance(moves, 0) + (if moves[0].distance
            >= 0 {
            moves[0].distance as int
        } else {
            0
        }));
        assert(total_distance(moves.skip(1), 0) == 0);
    } else {
        lemma_total_distance_skip(moves, k - 1);
        assert(moves.skip(1)[k - 2] == moves[k - 1]);
        assert(total_distance(moves, k) == total_distance(moves, k - 1) + (if moves[k
            - 1].distance >= 0 {
            moves[k - 1].distance as int
        } else {
            0
        }));
        assert(total_distance(moves.skip(1), k - 1) == total_distance(moves.skip(1), k - 2) + (
        if moves.skip(1)[k - 2].distance >= 0 {
            moves.skip(1)[k - 2].distance as int
        } else {
            0
        }));
    }
}

/// Every point one move records stays within the move's length of its
/// start.
proof fn lemma_move_trace_bounds(p: Point, m: Move, d: int, k: int)
    requires
        k >= 0,
        walk_coord(p.x - k),
        walk_coord(p.x + k),
        walk_coord(p.y - k),
        walk_coord(p.y + k),
    ensures
        forall|j: int|
            0 <= j < move_trace(p, m, d, k).len() ==> {
                let q = (#[trigger] move_trace(p, m, d, k)[j]).0;
                &&& p.x - k <= q.x <= p.x + k
                &&& p.y - k <= q.y <= p.y + k
            },
    decreases k,
{
    if k > 0 {
        let next = spec_advance(p, m);
        assert(next.x as int == p.x + spec_signum(m.xdelta as int));
        assert(next.y as int == p.y + spec_signum(m.ydelta as int));
        lemma_move_trace_bounds(next, m, d + 1, k - 1);
        let whole = move_trace(p, m, d, k);
        let head: Seq<(Point, u32)> = if p == (Point { x: 0i32, y: 0i32 }) {
            seq![]
        } else {
            seq![(p, d as u32)]
        };
        let rest = move_trace(next, m, d + 1, k - 1);
        assert forall|j: int| 0 <= j < whole.len() implies {
            let q = (#[trigger] whole[j]).0;
            &&& p.x - k <= q.x <= p.x + k
            &&& p.y - k <= q.y <= p.y + k
        } by {
            if j < head.len() {
                assert(whole[j] == head[j]);
            } else {
                assert(whole[j] == rest[j - head.len()]);
            }
        }
    }
}

/// Every point a wire records stays within the wire's length of its
/// start.
proof fn lemma_wire_trace_bounds(p: Point, moves: Seq<Move>, d: int)
    requires
        forall|i: int| 0 <= i < moves.len() ==> (#[trigger] moves[i]).distance >= 0,
        walk_coord(p.x - total_distance(moves, moves.len() as int)),
        walk_coord(p.x + total_distance(moves, moves.len() as int)),
        walk_coord(p.y - total_distance(moves, moves.len() as int)),
        walk_coord(p.y + total_distance(moves, moves.len() as int)),
    ensures
        forall|j: int|
            0 <= j < wire_trace(p, moves, d).len() ==> {
                let q = (#[trigger] wire_trace(p, moves, d)[j]).0;
                let t = total_distance(moves, moves.len() as int);
                &&& p.x - t <= q.x <= p.x + t
                &&& p.y - t <= q.y <= p.y + t
            },
    decreases moves.len(),
{
    lemma_total_distance_bounds(moves, moves.len() as int);
    if moves.len() > 0 {
        let m = moves[0];
        let t = total_distance(moves, moves.len() as int);
        lemma_total_distance_skip(moves, moves.len() as int);
        let t1 = total_distance(moves.skip(1), moves.len() - 1);
        assert(forall|i: int|
            0 <= i < moves.skip(1).len() ==> (#[trigger] moves.skip(1)[i]).distance >= 0);
        lemma_total_distance_bounds(moves.skip(1), moves.len() - 1);
        lemma_move_trace_bounds(p, m, d, m.distance as int);
        let end = move_end(p, m);
        assert(-(m.distance as int) <= spec_signum(m.xdelta as int) * m.distance <= m.distance
            as int) by (nonlinear_arith)
            requires
                m.distance >= 0,
        ;
        assert(-(m.distance as int) <= spec_signum(m.ydelta as int) * m.distance <= m.distance
            as int) by (nonlinear_arith)
            requires
                m.distance >= 0,
        ;
        assert(end.x as int == p.x + spec_signum(m.xdelta as int) * m.distance);
        assert(end.y as int == p.y + spec_signum(m.ydelta as int) * m.distance);
        lemma_wire_trace_bounds(end, moves.skip(1), d + m.distance);
        let whole = wire_trace(p, moves, d);
        let head = move_trace(p, m, d, m.distance as int);
        let rest = wire_trace(end, moves.skip(1), d + m.distance);
        assert forall|j: int| 0 <= j < whole.len() implies {
            let q = (#[trigger] whole[j]).0;
            &&& p.x - t <= q.x <= p.x + t
            &&& p.y - t <= q.y <= p.y + t
        } by {
            if j < head.len() {
                assert(whole[j] == head[j]);
            } else {
                assert(whole[j] == rest[j - head.len()]);
            }
        }
    }
}

/// The taxicab distance of `p` from the central port.
pub open spec fn spec_manhattan(p: Point) -> int {
    (if p.x >= 0 {
        p.x as int
    } else {
        -(p.x as int)
    }) + (if p.y >= 0 {
        p.y as int
    } else {
        -(p.y as int)
    })
}

/// A wire's trace records a distance for `p` exactly when `p` occurs in
/// it.
pub proof fn lemma_path_distance_occurs(s: Seq<(Point, u32)>, p: Point)
    ensures
        path_distance(s, p) is Some <==> exists|i: int| 0 <= i < s.len() && (#[trigger] s[i]).0
            == p,
    decreases s.len(),
{
    if s.len() > 0 {
        lemma_path_distance_occurs(s.drop_last(), p);
        if s.last().0 == p {
            assert(s[s.len() - 1].0 == p);
        } else {
            if exists|i: int| 0 <= i < s.len() && (#[trigger] s[i]).0 == p {
                let i = choose|i: int| 0 <= i < s.len() && (#[trigger] s[i]).0 == p;
                assert(s.drop_last()[i] == s[i]);
            }
            if path_distance(s.drop_last(), p) is Some {
                let i = choose|i: int|
                    0 <= i < s.drop_last().len() && (#[trigger] s.drop_last()[i]).0 == p;
                assert(s[i].0 == p);
            }
        }
    }
}

/// The combined signal distance at `p`: defined when both wires visit `p`
/// and the sum of their distances fits in 32 bits.
pub open spec fn crossing_sum(s1: Seq<(Point, u32)>, s2: Seq<(Point, u32)>, p: Point) -> Option<
    int,
> {
    match (path_distance(s1, p), path_distance(s2, p)) {
        (Some(a), Some(b)) => if a + b <= u32::MAX {
            Some(a + b)
        } else {
            None
        },
        _ => None,
    }
}

/// Every point both wires visit whose combined signal distance fits, each
/// once, with that combined distance.
pub fn intersect_paths(first_path: &PathMap, second_path: &PathMap) -> (r: Vec<(Point, u32)>)
    ensures
        forall|k: int|
            0 <= k < r@.len() ==> crossing_sum(
                first_path.steps(),
                second_path.steps(),
                (#[trigger] r@[k]).0,
            ) == Some(r@[k].1 as int),
        forall|a: int, b: int|
            0 <= a < b < r@.len() ==> (#[trigger] r@[a]).0 != (#[trigger] r@[b]).0,
        forall|p: Point|
            (#[trigger] crossing_sum(first_path.steps(), second_path.steps(), p)) is Some
                ==> exists|k: int| 0 <= k < r@.len() && (#[trigger] r@[k]).0 == p,
{
    let n = first_path.steps.len();
    let mut result: Vec<(Point, u32)> = Vec::new();
    let mut i: usize = 0;
    while i < n
        invariant
            i <= n,
            n == first_path.steps().len(),
            forall|k: int|
                0 <= k < result@.len() ==> crossing_sum(
                    first_path.steps(),
                    second_path.steps(),
                    (#[trigger] result@[k]).0,
                ) == Some(result@[k].1 as int),
            forall|a: int, b: int|
                0 <= a < b < result@.len() ==> (#[trigger] result@[a]).0 != (
                #[trigger] result@[b]).0,
            forall|p: Point|
                (crossing_sum(first_path.steps(), second_path.steps(), p)) is Some && (exists|
                    j: int,
                |
                    0 <= j < i && (#[trigger] first_path.steps()[j]).0 == p) ==> exists|k: int|
                    0 <= k < result@.len() && (#[trigger] result@[k]).0 == p,
        decreases n - i,
    {
        let (p, _) = first_path.steps[i];
        let ghost pre = result@;
        match (first_path.distance_at(&p), second_path.distance_at(&p)) {
            (Some(first_dist), Some(second_dist)) => {
                if !contains_point(&result, &p) {
                    if first_dist <= u32::MAX - second_dist {
                        result.push((p, first_dist + second_dist));
                    }
                }
            },
            _ => (),
        }
        proof {
            assert forall|q: Point|
                (crossing_sum(first_path.steps(), second_path.steps(), q)) is Some && (exists|
                    j: int,
                |
                    0 <= j < i + 1 && (#[trigger] first_path.steps()[j]).0 == q) implies exists|
                k: int,
            |
                0 <= k < result@.len() && (#[trigger] result@[k]).0 == q by {
                let j = choose|j: int|
                    0 <= j < i + 1 && (#[trigger] first_path.steps()[j]).0 == q;
                if j < i {
                    let k = choose|k: int| 0 <= k < pre.len() && (#[trigger] pre[k]).0 == q;
                    assert(result@[k].0 == q);
                } else {
                    assert(q == first_path.steps()[i as int].0);
                    if result@.len() > pre.len() {
                        assert(result@[pre.len() as int].0 == p);
                    }
                }
            }
        }
        i = i + 1;
    }
    proof {
        assert forall|p: Point|
            (#[trigger] crossing_sum(first_path.steps(), second_path.steps(), p))
                is Some implies exists|k: int| 0 <= k < result@.len() && (#[trigger] result@[k]).0
            == p by {
            lemma_path_distance_occurs(first_path.steps(), p);
        }
    }
    result
}

/// Whether the intersection list already holds `p`.
fn contains_point(v: &Vec<(Point, u32)>, p: &Point) -> (r: bool)
    ensures
        r == exists|k: int| 0 <= k < v@.len() && (#[trigger] v@[k]).0 == *p,
{
    let mut i: usize = 0;
    while i < v.len()
        invariant
            i <= v@.len(),
            forall|k: int| 0 <= k < i ==> (#[trigger] v@[k]).0 != *p,
        decreases v@.len() - i,
    {
        if v[i].0 == *p {
            return true;
        }
        i = i + 1;
    }
    false
}

/// The smallest taxicab distance from the central port to any point both
/// wires visit with a representable combined signal distance, or `None`
/// when there is no such point.
pub fn solve1(first_path: &[Move], second_path: &[Move]) -> (r: Option<u32>)
    requires
        forall|i: int| 0 <= i < first_path@.len() ==> (#[trigger] first_path@[i]).distance >= 0,
        forall|i: int| 0 <= i < second_path@.len() ==> (#[trigger] second_path@[i]).distance >= 0,
        0 <= total_distance(first_path@, first_path@.len() as int) <= 1_000_000_000,
        0 <= total_distance(second_path@, second_path@.len() as int) <= 1_000_000_000,
    ensures
        ({
            let s1 = wire_trace((Point { x: 0i32, y: 0i32 }), first_path@, 0);
            let s2 = wire_trace((Point { x: 0i32, y: 0i32 }), second_path@, 0);
            match r {
                Some(w) => {
                    &&& exists|p: Point|
                        (#[trigger] crossing_sum(s1, s2, p)) is Some && spec_manhattan(p) == w
                            as int
                    &&& forall|p: Point|
                        (#[trigger] crossing_sum(s1, s2, p)) is Some ==> w as int
                            <= spec_manhattan(p)
                },
                None => forall|p: Point| (#[trigger] crossing_sum(s1, s2, p)) is None,
            }
        }),
{
    let origin = Point::origin();
    let path1 = make_path(&origin, first_path);
    let path2 = make_path(&origin, second_path);
    let intersections = intersect_paths(&path1, &path2);
    let ghost s1 = wire_trace((Point { x: 0i32, y: 0i32 }), first_path@, 0);
    let ghost s2 = wire_trace((Point { x: 0i32, y: 0i32 }), second_path@, 0);
    proof {
        assert(path1.steps() == s1);
        assert(path2.steps() == s2);
        lemma_wire_trace_bounds((Point { x: 0i32, y: 0i32 }), first_path@, 0);
        assert forall|k: int| 0 <= k < intersections@.len() implies {
            let q = (#[trigger] intersections@[k]).0;
            &&& -1_000_000_000 <= q.x <= 1_000_000_000
            &&& -1_000_000_000 <= q.y <= 1_000_000_000
        } by {
            let q = intersections@[k].0;
            lemma_path_distance_occurs(s1, q);
            let j = choose|j: int| 0 <= j < s1.len() && (#[trigger] s1[j]).0 == q;
        }
    }
    let mut best: Option<u32> = None;
    let mut i: usize = 0;
    while i < intersections.len()
        invariant
            i <= intersections@.len(),
            s1 == wire_trace((Point { x: 0i32, y: 0i32 }), first_path@, 0),
            s2 == wire_trace((Point { x: 0i32, y: 0i32 }), second_path@, 0),
            forall|k: int|
                0 <= k < intersections@.len() ==> crossing_sum(
                    s1,
                    s2,
                    (#[trigger] intersections@[k]).0,
                ) == Some(intersections@[k].1 as int),
            forall|p: Point|
                (#[trigger] crossing_sum(s1, s2, p)) is Some ==> exists|k: int|
                    0 <= k < intersections@.len() && (#[trigger] intersections@[k]).0 == p,
            forall|k: int|
                0 <= k < intersections@.len() ==> {
                    let q = (#[trigger] intersections@[k]).0;
                    &&& -1_000_000_000 <= q.x <= 1_000_000_000
                    &&& -1_000_000_000 <= q.y <= 1_000_000_000
                },
            match best {
                Some(b) => (exists|k: int|
                    0 <= k < i && spec_manhattan((#[trigger] intersections@[k]).0) == b as int)
                    && forall|k: int|
                    0 <= k < i ==> b as int <= spec_manhattan((#[trigger] intersections@[k]).0),
                None => i == 0,
            },
        decreases intersections@.len() - i,
    {
        let p = intersections[i].0;
        let ghost prev = best;
        if p.x >= -1_000_000_000 && p.x <= 1_000_000_000 && p.y >= -1_000_000_000 && p.y
            <= 1_000_000_000 {
            let weight = p.manhattan_from_origin() as u32;
            best = match best {
                None => Some(weight),
                Some(b) => if weight < b {
                    Some(weight)
                } else {
                    Some(b)
                },
            };
            proof {
                let b2 = best.unwrap();
                if prev is None || weight < prev.unwrap() {
                    assert(spec_manhattan(intersections@[i as int].0) == b2 as int);
                } else {
                    let k = choose|k: int|
                        0 <= k < i && spec_manhattan((#[trigger] intersections@[k]).0)
                            == prev.unwrap() as int;
                    assert(spec_manhattan(intersections@[k].0) == b2 as int);
                }
            }
        }
        i = i + 1;
    }
    proof {
        match best {
            Some(b) => {
                let k = choose|k: int|
                    0 <= k < intersections@.len() && spec_manhattan(
                        (#[trigger] intersections@[k]).0,
                    ) == b as int;
                assert(crossing_sum(s1, s2, intersections@[k].0) is Some);
                assert forall|p: Point|
                    (#[trigger] crossing_sum(s1, s2, p)) is Some implies b as int
                    <= spec_manhattan(p) by {
                    let kk = choose|kk: int|
                        0 <= kk < intersections@.len() && (#[trigger] intersections@[kk]).0 == p;
                    assert(spec_manhattan(intersections@[kk].0) == spec_manhattan(p));
                }
            },
            None => {
                assert forall|p: Point| (#[trigger] crossing_sum(s1, s2, p)) is None by {
                    if crossing_sum(s1, s2, p) is Some {
                        let k = choose|k: int|
                            0 <= k < intersections@.len() && (#[trigger] intersections@[k]).0
                                == p;
                        assert(false);
                    }
                }
            },
        }
    }
    best
}

/// The smallest combined signal distance to any point both wires visit
/// with a representable sum, or `None` when there is no such point.
pub fn solve2(first_path: &[Move], second_path: &[Move]) -> (r: Option<u32>)
    requires
        forall|i: int| 0 <= i < first_path@.len() ==> (#[trigger] first_path@[i]).distance >= 0,
        forall|i: int| 0 <= i < second_path@.len() ==> (#[trigger] second_path@[i]).distance >= 0,
        0 <= total_distance(first_path@, first_path@.len() as int) <= 1_000_000_000,
        0 <= total_distance(second_path@, second_path@.len() as int) <= 1_000_000_000,
    ensures
        ({
            let s1 = wire_trace((Point { x: 0i32, y: 0i32 }), first_path@, 0);
            let s2 = wire_trace((Point { x: 0i32, y: 0i32 }), second_path@, 0);
            match r {
                Some(w) => {
                    &&& exists|p: Point| #[trigger] crossing_sum(s1, s2, p) == Some(w as int)
                    &&& forall|p: Point|
                        (#[trigger] crossing_sum(s1, s2, p)) matches Some(c) ==> w as int <= c
                },
                None => forall|p: Point| (#[trigger] crossing_sum(s1, s2, p)) is None,
            }
        }),
{
    let origin = Point::origin();
    let path1 = make_path(&origin, first_path);
    let path2 = make_path(&origin, second_path);
    let intersections = intersect_paths(&path1, &path2);
    let ghost s1 = wire_trace((Point { x: 0i32, y: 0i32 }), first_path@, 0);
    let ghost s2 = wire_trace((Point { x: 0i32, y: 0i32 }), second_path@, 0);
    proof {
        assert(path1.steps() == s1);
        assert(path2.steps() == s2);
    }
    let mut best: Option<u32> = None;
    let mut i: usize = 0;
    while i < intersections.len()
        invariant
            i <= intersections@.len(),
            s1 == wire_trace((Point { x: 0i32, y: 0i32 }), first_path@, 0),
            s2 == wire_trace((Point { x: 0i32, y: 0i32 }), second_path@, 0),
            forall|k: int|
                0 <= k < intersections@.len() ==> crossing_sum(
                    s1,
                    s2,
                    (#[trigger] intersections@[k]).0,
                ) == Some(intersections@[k].1 as int),
            forall|p: Point|
                (#[trigger] crossing_sum(s1, s2, p)) is Some ==> exists|k: int|
                    0 <= k < intersections@.len() && (#[trigger] intersections@[k]).0 == p,
            match best {
                Some(b) => (exists|k: int|
                    0 <= k < i && (#[trigger] intersections@[k]).1 == b) && forall|k: int|
                    0 <= k < i ==> b <= (#[trigger] intersections@[k]).1,
                None => i == 0,
            },
        decreases intersections@.len() - i,
    {
        let weight = intersections[i].1;
        let ghost prev = best;
        best = match best {
            None => Some(weight),
            Some(b) => if weight < b {
                Some(weight)
            } else {
                Some(b)
            },
        };
        proof {
            let b2 = best.unwrap();
            if prev is None || weight < prev.unwrap() {
                assert(intersections@[i as int].1 == b2);
            } else {
                let k = choose|k: int|
                    0 <= k < i && (#[trigger] intersections@[k]).1 == prev.unwrap();
                assert(intersections@[k].1 == b2);
            }
        }
        i = i + 1;
    }
    proof {
        match best {
            Some(b) => {
                let k = choose|k: int|
                    0 <= k < intersections@.len() && (#[trigger] intersections@[k]).1 == b;
                assert(crossing_sum(s1, s2, intersections@[k].0) == Some(b as int));
                assert forall|p: Point|
                    (#[trigger] crossing_sum(s1, s2, p)) is Some implies b as int
                    <= crossing_sum(s1, s2, p).unwrap() by {
                    let kk = choose|kk: int|
                        0 <= kk < intersections@.len() && (#[trigger] intersections@[kk]).0 == p;
                    assert(crossing_sum(s1, s2, intersections@[kk].0) == Some(
                        intersections@[kk].1 as int,
                    ));
                }
            },
            None => {
                assert forall|p: Point| (#[trigger] crossing_sum(s1, s2, p)) is None by {
                    if crossing_sum(s1, s2, p) is Some {
                        let k = choose|k: int|
                            0 <= k < intersections@.len() && (#[trigger] intersections@[k]).0
                                == p;
                        assert(false);
                    }
                }
            },
        }
    }
    best
}

} // verus!
