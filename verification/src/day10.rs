//! Integer geometry for the asteroid field: collinearity, sidedness and
//! taxicab distance, used to decide which asteroids block the view of
//! which.

use vstd::prelude::*;

verus! {

/// A coordinate bound that keeps every product and sum here inside a wide
/// word.
pub open spec fn coord_small(v: int) -> bool {
    -500_000_000 <= v <= 500_000_000
}

/// A point on the asteroid grid.  The y axis points down.
#[derive(Debug, PartialEq, Eq, Structural, Clone, Copy)]
pub struct Point {
    pub x: i32,
    pub y: i32,
}

/// Twice the signed area of the triangle through three points: zero
/// exactly when they are collinear.
pub open spec fn triangle_area_doubled(p1: Point, p2: Point, p3: Point) -> int {
    p1.x * (p2.y - p3.y) + p2.x * (p3.y - p1.y) + p3.x * (p1.y - p2.y)
}

/// The taxicab distance between two points.
pub open spec fn spec_manhattan(a: Point, b: Point) -> int {
    (if a.x >= b.x {
        a.x - b.x
    } else {
        b.x - a.x
    }) + (if a.y >= b.y {
        a.y - b.y
    } else {
        b.y - a.y
    })
}

/// The product of a small coordinate and a small coordinate difference.
fn mul_small(a: i32, b: i64) -> (r: i64)
    requires
        coord_small(a as int),
        -1_000_000_000 <= b <= 1_000_000_000,
    ensures
        r as int == a * b,
        -500_000_000_000_000_000 <= r <= 500_000_000_000_000_000,
{
    proof {
        assert((a as int) * (b as int) <= 500_000_000_000_000_000 && (a as int) * (b as int)
            >= -500_000_000_000_000_000) by (nonlinear_arith)
            requires
                -500_000_000 <= a as int <= 500_000_000,
                -1_000_000_000 <= b as int <= 1_000_000_000,
        ;
    }
    (a as i64) * b
}

impl Point {
    /// Whether the bounds hold of a point.
    pub open spec fn small(&self) -> bool {
        coord_small(self.x as int) && coord_small(self.y as int)
    }

    /// Whether three points lie on one line.
    pub fn colinear_triple(p1: &Point, p2: &Point, p3: &Point) -> (r: bool)
        requires
            p1.small(),
            p2.small(),
            p3.small(),
        ensures
            r == (triangle_area_doubled(*p1, *p2, *p3) == 0),
    {
        let t1 = mul_small(p1.x, p2.y as i64 - p3.y as i64);
        let t2 = mul_small(p2.x, p3.y as i64 - p1.y as i64);
        let t3 = mul_small(p3.x, p1.y as i64 - p2.y as i64);
        t1 + t2 + t3 == 0
    }

    /// Whether `q` and `r` lie in the same quadrant as seen from `self`:
    /// their offsets agree on which side of each axis they fall.
    pub fn same_side_of_p(&self, q: &Point, r: &Point) -> (b: bool)
        ensures
            b == ((q.x > self.x) == (r.x > self.x) && (q.y > self.y) == (r.y > self.y)),
    {
        let xq = q.x as i64 - self.x as i64;
        let yq = q.y as i64 - self.y as i64;
        let xr = r.x as i64 - self.x as i64;
        let yr = r.y as i64 - self.y as i64;
        (xq > 0) == (xr > 0) && (yq > 0) == (yr > 0)
    }

    /// The taxicab distance from `self` to `other`.
    pub fn manhattan(&self, other: &Point) -> (r: i32)
        requires
            self.small(),
            other.small(),
        ensures
            r as int == spec_manhattan(*self, *other),
    {
        let dx = self.x as i64 - other.x as i64;
        let dy = self.y as i64 - other.y as i64;
        let adx = if dx >= 0 {
            dx
        } else {
            -dx
        };
        let ady = if dy >= 0 {
            dy
        } else {
            -dy
        };
        (adx + ady) as i32
    }

    /// Whichever of `q` and `r` lies further from `self` in taxicab
    /// distance, ties going to `r`.
    pub fn furthest_point<'a>(&self, q: &'a Point, r: &'a Point) -> (f: &'a Point)
        requires
            self.small(),
            q.small(),
            r.small(),
        ensures
            *f == if spec_manhattan(*self, *q) > spec_manhattan(*self, *r) {
                *q
            } else {
                *r
            },
    {
        if self.manhattan(q) > self.manhattan(r) {
            q
        } else {
            r
        }
    }
}

/// Whether asteroid `r` blocks the view from `p` to `q`: a third body on
/// the same line, on the same side of `p`, and nearer than `q`.
pub open spec fn blocks(p: Point, q: Point, r: Point) -> bool {
    &&& r != p
    &&& r != q
    &&& triangle_area_doubled(p, q, r) == 0
    &&& (q.x > p.x) == (r.x > p.x) && (q.y > p.y) == (r.y > p.y)
    &&& spec_manhattan(p, r) < spec_manhattan(p, q)
}

/// Whether `q` can be seen from `p` across the field: they differ, and no
/// asteroid of the field blocks the view.
pub open spec fn sees(field: Seq<Point>, p: Point, q: Point) -> bool {
    p != q && forall|k: int| 0 <= k < field.len() ==> !blocks(p, q, #[trigger] field[k])
}

/// How many of the first `k` asteroids the one at index `i` can see.
pub open spec fn seen_count(field: Seq<Point>, i: int, k: int) -> int
    decreases k,
{
    if k <= 0 {
        0
    } else {
        seen_count(field, i, k - 1) + if k - 1 != i && sees(field, field[i], field[k - 1]) {
            1int
        } else {
            0int
        }
    }
}

/// Whether every point of a field is inside the coordinate bounds.
pub open spec fn field_small(field: Seq<Point>) -> bool {
    forall|k: int| 0 <= k < field.len() ==> (#[trigger] field[k]).small()
}

/// A monitoring station candidate: an asteroid and how many others it
/// sees.
#[derive(Debug, PartialEq, Eq, Structural, Clone, Copy)]
pub struct Candidate {
    pub p: Point,
    pub visible_count: usize,
}

/// The order in which candidates compete: more visibility wins, and among
/// equals the larger position (x first, then y) wins.
pub open spec fn candidate_le(a: Candidate, b: Candidate) -> bool {
    ||| a.visible_count < b.visible_count
    ||| (a.visible_count == b.visible_count && (a.p.x < b.p.x || (a.p.x == b.p.x && a.p.y
        <= b.p.y)))
}

/// The asteroid field: the positions that hold an asteroid.
pub struct AsteroidField {
    asteroids: Vec<Point>,
}

impl AsteroidField {
    /// The asteroids, in reading order.
    pub closed spec fn field(&self) -> Seq<Point> {
        self.asteroids@
    }

    /// Well-formedness: no position twice, all inside the bounds.
    pub open spec fn wf(&self) -> bool {
        &&& forall|i: int, j: int|
            0 <= i < j < self.field().len() ==> #[trigger] self.field()[i] != #[trigger] self.field()[j]
        &&& field_small(self.field())
    }

    /// Read a field from text: every character that is neither a dot nor
    /// a line feed is an asteroid at its grid position.
    pub fn parse(input: &str) -> (r: AsteroidField)
        requires
            input@.len() <= 100_000,
        ensures
            r.wf(),
    {
        let n = input.unicode_len();
        let mut asteroids: Vec<Point> = Vec::new();
        let mut x: i32 = 0;
        let mut y: i32 = 0;
        let mut i: usize = 0;
        while i < n
            invariant
                i <= n,
                n == input@.len(),
                n <= 100_000,
                0 <= x <= i,
                0 <= y <= i,
                forall|a: int, b: int|
                    0 <= a < b < asteroids@.len() ==> #[trigger] asteroids@[a] != #[trigger] asteroids@[b],
                field_small(asteroids@),
                forall|a: int|
                    0 <= a < asteroids@.len() ==> ((#[trigger] asteroids@[a]).y < y || (
                    asteroids@[a].y == y && asteroids@[a].x < x)),
            decreases n - i,
        {
            let ch = input.get_char(i);
            if ch == '\n' {
                y = y + 1;
                x = 0;
            } else {
                if ch != '.' {
                    let p = Point { x, y };
                    proof {
                        assert forall|a: int| 0 <= a < asteroids@.len() implies #[trigger] asteroids@[a]
                            != p by {
                            assert(asteroids@[a].y < y || (asteroids@[a].y == y
                                && asteroids@[a].x < x));
                        }
                    }
                    asteroids.push(p);
                }
                x = x + 1;
            }
            i = i + 1;
        }
        AsteroidField { asteroids }
    }

    /// How many asteroids there are.
    pub fn len(&self) -> (r: usize)
        ensures
            r == self.field().len(),
    {
        self.asteroids.len()
    }
}

/// Whether the asteroid at index `qi` is visible from the one at index
/// `pi`.
fn is_visible(field: &AsteroidField, pi: usize, qi: usize) -> (r: bool)
    requires
        field.wf(),
        pi < field.field().len(),
        qi < field.field().len(),
        pi != qi,
    ensures
        r == sees(field.field(), field.field()[pi as int], field.field()[qi as int]),
{
    let p = field.asteroids[pi];
    let q = field.asteroids[qi];
    proof {
        assert(p != q);
    }
    let n = field.asteroids.len();
    let mut k: usize = 0;
    while k < n
        invariant
            k <= n,
            field.wf(),
            n == field.field().len(),
            pi < n,
            qi < n,
            p == field.field()[pi as int],
            q == field.field()[qi as int],
            p != q,
            forall|j: int| 0 <= j < k ==> !blocks(p, q, #[trigger] field.field()[j]),
        decreases n - k,
    {
        let r = field.asteroids[k];
        if !(r.x == p.x && r.y == p.y) && !(r.x == q.x && r.y == q.y) {
            proof {
                assert(r.small() && p.small() && q.small());
            }
            if Point::colinear_triple(&p, &q, &r) && p.same_side_of_p(&q, &r) && p.manhattan(&r)
                < p.manhattan(&q) {
                proof {
                    assert(blocks(p, q, field.field()[k as int]));
                }
                return false;
            }
        }
        proof {
            assert(!blocks(p, q, field.field()[k as int]));
        }
        k = k + 1;
    }
    true
}

/// Find the best monitoring station: the asteroid that sees the most
/// other asteroids, the largest position winning ties.  `None` exactly
/// when the field is empty.
pub fn solve1(field: &AsteroidField) -> (r: Option<Candidate>)
    requires
        field.wf(),
    ensures
        match r {
            Some(best) => {
                &&& field.field().len() > 0
                &&& exists|i: int|
                    0 <= i < field.field().len() && (#[trigger] field.field()[i]) == best.p
                        && best.visible_count as int == seen_count(
                        field.field(),
                        i,
                        field.field().len() as int,
                    )
                &&& forall|i: int|
                    0 <= i < field.field().len() ==> candidate_le(
                        Candidate {
                            p: #[trigger] field.field()[i],
                            visible_count: seen_count(
                                field.field(),
                                i,
                                field.field().len() as int,
                            ) as usize,
                        },
                        best,
                    )
            },
            None => field.field().len() == 0,
        },
{
    let n = field.asteroids.len();
    let mut best: Option<Candidate> = None;
    let mut pi: usize = 0;
    while pi < n
        invariant
            pi <= n,
            field.wf(),
            n == field.field().len(),
            match best {
                Some(b) => {
                    &&& exists|i: int|
                        0 <= i < pi && (#[trigger] field.field()[i]) == b.p && b.visible_count
                            as int == seen_count(field.field(), i, n as int)
                    &&& forall|i: int|
                        0 <= i < pi ==> candidate_le(
                            Candidate {
                                p: #[trigger] field.field()[i],
                                visible_count: seen_count(field.field(), i, n as int) as usize,
                            },
                            b,
                        )
                },
                None => pi == 0,
            },
        decreases n - pi,
    {
        let mut count: usize = 0;
        let mut qi: usize = 0;
        while qi < n
            invariant
                qi <= n,
                field.wf(),
                n == field.field().len(),
                pi < n,
                count as int == seen_count(field.field(), pi as int, qi as int),
                count <= qi,
            decreases n - qi,
        {
            if qi != pi {
                if is_visible(field, pi, qi) {
                    count = count + 1;
                }
            }
            qi = qi + 1;
        }
        let candidate = Candidate { p: field.asteroids[pi], visible_count: count };
        let take_it = match &best {
            None => true,
            Some(b) => {
                b.visible_count < count || (b.visible_count == count && (b.p.x < candidate.p.x
                    || (b.p.x == candidate.p.x && b.p.y <= candidate.p.y)))
            },
        };
        proof {
            assert(field.field()[pi as int] == candidate.p);
        }
        if take_it {
            best = Some(candidate);
        } else {
            proof {
                let b = best.unwrap();
                assert(candidate_le(candidate, b));
            }
        }
        pi = pi + 1;
    }
    best
}

} // verus!
