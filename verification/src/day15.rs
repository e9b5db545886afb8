//! A repair droid's map: compass directions, grid positions, movement
//! paths, a ship map built from explored rooms, and the oxygen flood fill
//! that spreads through the open rooms.

use vstd::prelude::*;

verus! {

/// A bound on every coordinate this module works with, far from the word
/// range so that single steps can never wrap.
pub open spec fn coord_in_range(v: int) -> bool {
    -1_000_000_000 <= v <= 1_000_000_000
}

/// The four compass directions.
#[derive(Clone, Copy, PartialEq, Eq, Structural, Debug, Hash)]
pub enum CompassDirection {
    North,
    South,
    West,
    East,
}

/// The direction opposite to `d`.
pub open spec fn spec_reversed(d: CompassDirection) -> CompassDirection {
    match d {
        CompassDirection::North => CompassDirection::South,
        CompassDirection::South => CompassDirection::North,
        CompassDirection::East => CompassDirection::West,
        CompassDirection::West => CompassDirection::East,
    }
}

impl CompassDirection {
    /// The direction that undoes this one.
    pub fn reversed(&self) -> (r: CompassDirection)
        ensures
            r == spec_reversed(*self),
    {
        match self {
            CompassDirection::North => CompassDirection::South,
            CompassDirection::South => CompassDirection::North,
            CompassDirection::East => CompassDirection::West,
            CompassDirection::West => CompassDirection::East,
        }
    }
}

/// The four directions in the order the droid tries them.
pub fn all_move_options() -> (r: [CompassDirection; 4])
    ensures
        r@ == all_moves(),
{
    let r = [
        CompassDirection::North,
        CompassDirection::East,
        CompassDirection::South,
        CompassDirection::West,
    ];
    proof {
        assert(r@ =~= all_moves());
    }
    r
}

/// The four directions as a sequence, in droid order.
pub open spec fn all_moves() -> Seq<CompassDirection> {
    seq![
        CompassDirection::North,
        CompassDirection::East,
        CompassDirection::South,
        CompassDirection::West,
    ]
}

/// A position on the grid.  The y axis points down.
#[derive(Clone, Copy, PartialEq, Eq, Structural, Debug, Hash)]
pub struct Position {
    pub x: i64,
    pub y: i64,
}

/// One step from `p` in direction `d`.
pub open spec fn spec_move(p: Position, d: CompassDirection) -> Position {
    match d {
        CompassDirection::North => Position { x: p.x, y: (p.y - 1) as i64 },
        CompassDirection::South => Position { x: p.x, y: (p.y + 1) as i64 },
        CompassDirection::East => Position { x: (p.x + 1) as i64, y: p.y },
        CompassDirection::West => Position { x: (p.x - 1) as i64, y: p.y },
    }
}

/// Whether both coordinates are comfortably inside the word range.
pub open spec fn pos_in_range(p: Position) -> bool {
    coord_in_range(p.x as int) && coord_in_range(p.y as int)
}

/// Whether one step from `p` in direction `d` is representable: the
/// coordinate that moves neither underflows nor overflows a word.
pub open spec fn can_move(p: Position, d: CompassDirection) -> bool {
    match d {
        CompassDirection::North => p.y - 1 >= i64::MIN,
        CompassDirection::South => p.y + 1 <= i64::MAX,
        CompassDirection::East => p.x + 1 <= i64::MAX,
        CompassDirection::West => p.x - 1 >= i64::MIN,
    }
}

impl Position {
    /// The neighbouring position one step in direction `d`.
    pub fn move_direction(&self, d: &CompassDirection) -> (r: Position)
        requires
            can_move(*self, *d),
        ensures
            r == spec_move(*self, *d),
    {
        match d {
            CompassDirection::North => Position { x: self.x, y: self.y - 1 },
            CompassDirection::South => Position { x: self.x, y: self.y + 1 },
            CompassDirection::East => Position { x: self.x + 1, y: self.y },
            CompassDirection::West => Position { x: self.x - 1, y: self.y },
        }
    }
}

/// A step and then the reverse step return to the start: for every
/// representable step, moving in `d` and then in the direction that undoes
/// it is the identity.
pub proof fn lemma_move_round_trip(p: Position, d: CompassDirection)
    requires
        can_move(p, d),
    ensures
        spec_move(spec_move(p, d), spec_reversed(d)) == p,
{
}

/// The bounding box of a set of points: the least and greatest coordinates
/// seen, combined into two corner positions, or nothing for no points.
pub fn bounds(points: &[Position]) -> (r: Option<(Position, Position)>)
    ensures
        match r {
            Some(corners) => {
                &&& points@.len() > 0
                &&& forall|i: int|
                    0 <= i < points@.len() ==> corners.0.x <= (#[trigger] points@[i]).x
                        && corners.0.y <= points@[i].y && points@[i].x <= corners.1.x
                        && points@[i].y <= corners.1.y
                &&& exists|i: int| 0 <= i < points@.len() && (#[trigger] points@[i]).x == corners.0.x
                &&& exists|i: int| 0 <= i < points@.len() && (#[trigger] points@[i]).y == corners.0.y
                &&& exists|i: int| 0 <= i < points@.len() && (#[trigger] points@[i]).x == corners.1.x
                &&& exists|i: int| 0 <= i < points@.len() && (#[trigger] points@[i]).y == corners.1.y
            },
            None => points@.len() == 0,
        },
{
    if points.len() == 0 {
        return None;
    }
    let first = points[0];
    let mut min_x = first.x;
    let mut max_x = first.x;
    let mut min_y = first.y;
    let mut max_y = first.y;
    let mut i: usize = 1;
    while i < points.len()
        invariant
            1 <= i <= points@.len(),
            forall|j: int|
                0 <= j < i ==> min_x <= (#[trigger] points@[j]).x && min_y <= points@[j].y
                    && points@[j].x <= max_x && points@[j].y <= max_y,
            exists|j: int| 0 <= j < i && (#[trigger] points@[j]).x == min_x,
            exists|j: int| 0 <= j < i && (#[trigger] points@[j]).y == min_y,
            exists|j: int| 0 <= j < i && (#[trigger] points@[j]).x == max_x,
            exists|j: int| 0 <= j < i && (#[trigger] points@[j]).y == max_y,
        decreases points@.len() - i,
    {
        let p = points[i];
        if p.x < min_x {
            min_x = p.x;
        }
        if p.x > max_x {
            max_x = p.x;
        }
        if p.y < min_y {
            min_y = p.y;
        }
        if p.y > max_y {
            max_y = p.y;
        }
        i = i + 1;
    }
    Some((Position { x: min_x, y: min_y }, Position { x: max_x, y: max_y }))
}

/// What one explored location holds.
#[derive(Clone, Copy, PartialEq, Eq, Structural, Debug)]
pub enum RoomType {
    Wall,
    Open(bool),
    Goal,
    Start,
}

/// A map character that names no room type.
#[derive(Debug)]
pub struct BadMap(pub String);

/// The room named by a map character, if any.
pub open spec fn spec_room_of_char(c: char) -> Option<RoomType> {
    if c == 'S' {
        Some(RoomType::Start)
    } else if c == '#' {
        Some(RoomType::Wall)
    } else if c == 'O' {
        Some(RoomType::Open(true))
    } else if c == '.' {
        Some(RoomType::Open(false))
    } else if c == ' ' {
        Some(RoomType::Wall)
    } else if c == 'X' {
        Some(RoomType::Goal)
    } else {
        None
    }
}

impl RoomType {
    /// The room named by a map character.
    pub fn from_char(ch: char) -> (r: Result<RoomType, BadMap>)
        ensures
            match r {
                Ok(t) => spec_room_of_char(ch) == Some(t),
                Err(_) => spec_room_of_char(ch) is None,
            },
    {
        if ch == 'S' {
            Ok(RoomType::Start)
        } else if ch == '#' {
            Ok(RoomType::Wall)
        } else if ch == 'O' {
            Ok(RoomType::Open(true))
        } else if ch == '.' {
            Ok(RoomType::Open(false))
        } else if ch == ' ' {
            Ok(RoomType::Wall)
        } else if ch == 'X' {
            Ok(RoomType::Goal)
        } else {
            Err(BadMap(String::from_str("unexpected map character")))
        }
    }
}

/// A recorded path: the directions taken, most recent last.
#[derive(Debug)]
pub struct Movements {
    steps: Vec<CompassDirection>,
}

impl Movements {
    /// The recorded steps.
    pub closed spec fn spec_steps(&self) -> Seq<CompassDirection> {
        self.steps@
    }

    /// No steps yet.
    pub fn empty() -> (r: Movements)
        ensures
            r.spec_steps().len() == 0,
    {
        Movements { steps: Vec::new() }
    }

    /// How many steps the path holds.
    pub fn len(&self) -> (r: usize)
        ensures
            r == self.spec_steps().len(),
    {
        self.steps.len()
    }

    /// Record one step.
    pub fn push_step(&mut self, step: &CompassDirection)
        ensures
            final(self).spec_steps() == old(self).spec_steps().push(*step),
    {
        self.steps.push(*step);
    }

    /// Take back the most recent step, if any.
    pub fn pop(&mut self) -> (r: Option<CompassDirection>)
        ensures
            match r {
                Some(d) => old(self).spec_steps().len() > 0 && d == old(self).spec_steps().last()
                    && final(self).spec_steps() == old(self).spec_steps().drop_last(),
                None => old(self).spec_steps().len() == 0 && final(self).spec_steps() == old(
                    self,
                ).spec_steps(),
            },
    {
        self.steps.pop()
    }

    /// Every location a walk along this path visits, starting (and
    /// counting) the origin.
    pub fn compute_path_locations(&self, origin: &Position) -> (r: Vec<Position>)
        requires
            pos_in_range(*origin),
            self.spec_steps().len() <= 1_000_000,
        ensures
            r@.len() == self.spec_steps().len() + 1,
            r@[0] == *origin,
            forall|i: int|
                0 <= i < self.spec_steps().len() ==> #[trigger] r@[i + 1] == spec_move(
                    r@[i],
                    self.spec_steps()[i],
                ),
    {
        let mut path: Vec<Position> = Vec::new();
        let mut here = *origin;
        path.push(here);
        let mut i: usize = 0;
        while i < self.steps.len()
            invariant
                i <= self.spec_steps().len(),
                self.spec_steps().len() <= 1_000_000,
                path@.len() == i + 1,
                path@[0] == *origin,
                here == path@[i as int],
                pos_in_range(*origin),
                -1_001_000_000 <= here.x <= 1_001_000_000,
                -1_001_000_000 <= here.y <= 1_001_000_000,
                here.x - origin.x <= i && origin.x - here.x <= i,
                here.y - origin.y <= i && origin.y - here.y <= i,
                forall|j: int|
                    0 <= j < i ==> #[trigger] path@[j + 1] == spec_move(
                        path@[j],
                        self.spec_steps()[j],
                    ),
            decreases self.spec_steps().len() - i,
        {
            let d = self.steps[i];
            let next = Position {
                x: match d {
                    CompassDirection::East => here.x + 1,
                    CompassDirection::West => here.x - 1,
                    _ => here.x,
                },
                y: match d {
                    CompassDirection::North => here.y - 1,
                    CompassDirection::South => here.y + 1,
                    _ => here.y,
                },
            };
            proof {
                assert(next == spec_move(here, self.spec_steps()[i as int]));
            }
            path.push(next);
            here = next;
            i = i + 1;
        }
        path
    }
}

/// The room recorded for `p` in an association list, the latest entry
/// winning.
pub open spec fn assoc_room(tiles: Seq<(Position, RoomType)>, p: Position) -> Option<RoomType>
    decreases tiles.len(),
{
    if tiles.len() == 0 {
        None
    } else if tiles.last().0 == p {
        Some(tiles.last().1)
    } else {
        assoc_room(tiles.drop_last(), p)
    }
}

/// What the droid has learned of the ship: a room per explored position,
/// and where the goal stands once seen.
pub struct ShipMap {
    tiles: Vec<(Position, RoomType)>,
    goal: Option<Position>,
}

impl ShipMap {
    /// The recorded tiles.
    pub closed spec fn spec_tiles(&self) -> Seq<(Position, RoomType)> {
        self.tiles@
    }

    /// The goal position, once seen.
    pub closed spec fn spec_goal(&self) -> Option<Position> {
        self.goal
    }

    /// Well-formedness: every recorded position is comfortably inside the
    /// word range.
    pub open spec fn wf(&self) -> bool {
        forall|i: int|
            0 <= i < self.spec_tiles().len() ==> pos_in_range((#[trigger] self.spec_tiles()[i]).0)
    }

    /// A map knowing only the starting position.
    pub fn new(start: Position) -> (r: ShipMap)
        requires
            pos_in_range(start),
        ensures
            r.wf(),
            r.spec_goal() is None,
            forall|p: Position|
                #[trigger] assoc_room(r.spec_tiles(), p) == if p == start {
                    Some(RoomType::Start)
                } else {
                    None::<RoomType>
                },
    {
        let mut tiles: Vec<(Position, RoomType)> = Vec::new();
        tiles.push((start, RoomType::Start));
        let r = ShipMap { tiles, goal: None };
        proof {
            assert forall|p: Position| #[trigger] assoc_room(r.spec_tiles(), p) == (if p == start {
                Some(RoomType::Start)
            } else {
                None::<RoomType>
            }) by {
                assert(r.spec_tiles().drop_last() =~= Seq::<(Position, RoomType)>::empty());
                assert(assoc_room(Seq::<(Position, RoomType)>::empty(), p) is None);
                assert(r.spec_tiles().last() == (start, RoomType::Start));
            }
        }
        r
    }

    /// Record what stands at `pos`, remembering it as the goal when the
    /// room is the goal.
    pub fn add_location(&mut self, pos: Position, t: RoomType)
        requires
            old(self).wf(),
            pos_in_range(pos),
        ensures
            final(self).wf(),
            forall|p: Position|
                #[trigger] assoc_room(final(self).spec_tiles(), p) == if p == pos {
                    Some(t)
                } else {
                    assoc_room(old(self).spec_tiles(), p)
                },
            final(self).spec_goal() == if t == RoomType::Goal {
                Some(pos)
            } else {
                old(self).spec_goal()
            },
    {
        if t == RoomType::Goal {
            self.goal = Some(pos);
        }
        self.tiles.push((pos, t));
        proof {
            assert forall|p: Position| #[trigger] assoc_room(self.spec_tiles(), p) == (if p == pos {
                Some(t)
            } else {
                assoc_room(old(self).spec_tiles(), p)
            }) by {
                assert(self.spec_tiles().last() == (pos, t));
                assert(self.spec_tiles().drop_last() =~= old(self).spec_tiles());
            }
        }
    }

    /// Mark the open room at `pos`, if there is one, as filled with
    /// oxygen.  Anything else stays as it is.
    pub fn oxygen_fill(&mut self, pos: Position)
        requires
            old(self).wf(),
            pos_in_range(pos),
        ensures
            final(self).wf(),
            forall|p: Position|
                #[trigger] assoc_room(final(self).spec_tiles(), p) == if p == pos && (assoc_room(
                    old(self).spec_tiles(),
                    p,
                ) matches Some(RoomType::Open(_))) {
                    Some(RoomType::Open(true))
                } else {
                    assoc_room(old(self).spec_tiles(), p)
                },
            final(self).spec_goal() == old(self).spec_goal(),
    {
        match self.room_at(&pos) {
            Some(RoomType::Open(_)) => {
                self.tiles.push((pos, RoomType::Open(true)));
                proof {
                    assert forall|p: Position| #[trigger] assoc_room(self.spec_tiles(), p) == (
                    if p == pos && (assoc_room(old(self).spec_tiles(), p) matches Some(
                        RoomType::Open(_),
                    )) {
                        Some(RoomType::Open(true))
                    } else {
                        assoc_room(old(self).spec_tiles(), p)
                    }) by {
                        assert(self.spec_tiles().drop_last() =~= old(self).spec_tiles());
                    }
                }
            },
            _ => (),
        }
    }

    /// The room recorded at `pos`.
    fn room_at(&self, pos: &Position) -> (r: Option<RoomType>)
        ensures
            r == assoc_room(self.spec_tiles(), *pos),
    {
        let n = self.tiles.len();
        let mut i: usize = n;
        proof {
            assert(self.spec_tiles().take(n as int) =~= self.spec_tiles());
        }
        while i > 0
            invariant
                i <= n,
                n == self.spec_tiles().len(),
                assoc_room(self.spec_tiles(), *pos) == assoc_room(
                    self.spec_tiles().take(i as int),
                    *pos,
                ),
            decreases i,
        {
            proof {
                let t = self.spec_tiles().take(i as int);
                assert(t.last() == self.spec_tiles()[i - 1]);
                assert(t.drop_last() =~= self.spec_tiles().take(i as int - 1));
            }
            if self.tiles[i - 1].0 == *pos {
                return Some(self.tiles[i - 1].1);
            }
            i = i - 1;
        }
        proof {
            assert(self.spec_tiles().take(0) =~= Seq::<(Position, RoomType)>::empty());
        }
        None
    }

    /// What is known to stand at `pos`: the goal, once seen, shadows the
    /// recorded tile.
    pub fn get_location_type(&self, pos: &Position) -> (r: Option<RoomType>)
        ensures
            r == if self.spec_goal() == Some(*pos) {
                Some(RoomType::Goal)
            } else {
                assoc_room(self.spec_tiles(), *pos)
            },
    {
        match &self.goal {
            Some(g) => {
                if g.x == pos.x && g.y == pos.y {
                    return Some(RoomType::Goal);
                }
            },
            None => (),
        }
        self.room_at(pos)
    }
}

/// Whether a lookup found an explored, passable room.
pub open spec fn is_open_room(t: Option<RoomType>) -> bool {
    match t {
        Some(RoomType::Wall) => false,
        Some(_) => true,
        None => false,
    }
}

/// Membership in a sequence after a push: the old members plus the pushed
/// value.
proof fn lemma_push_contains<A>(s: Seq<A>, x: A, y: A)
    ensures
        s.push(x).contains(y) <==> (s.contains(y) || y == x),
{
    if s.push(x).contains(y) {
        let k = choose|k: int| 0 <= k < s.push(x).len() && s.push(x)[k] == y;
        if k < s.len() {
            assert(s[k] == y);
        }
    }
    if s.contains(y) {
        let k = choose|k: int| 0 <= k < s.len() && s[k] == y;
        assert(s.push(x)[k] == y);
    }
    assert(s.push(x)[s.len() as int] == x);
}

/// A prefix's members are members of the longer prefix.
proof fn lemma_take_contains<A>(s: Seq<A>, i: int, y: A)
    requires
        0 <= i < s.len(),
        s.take(i).contains(y),
    ensures
        s.take(i + 1).contains(y),
{
    let k = choose|k: int| 0 <= k < s.take(i).len() && s.take(i)[k] == y;
    assert(s.take(i + 1)[k] == y);
}

impl ShipMap {
    /// Every explored position that is not a wall, each exactly once.
    pub fn get_open_rooms(&self) -> (r: Vec<Position>)
        requires
            self.wf(),
        ensures
            forall|p: Position|
                r@.contains(p) <==> is_open_room(#[trigger] assoc_room(self.spec_tiles(), p)),
            forall|i: int, j: int| 0 <= i < j < r@.len() ==> r@[i] != r@[j],
            forall|i: int| 0 <= i < r@.len() ==> pos_in_range(#[trigger] r@[i]),
    {
        let n = self.tiles.len();
        let mut rooms: Vec<Position> = Vec::new();
        let mut i: usize = 0;
        while i < n
            invariant
                i <= n,
                self.wf(),
                n == self.spec_tiles().len(),
                forall|p: Position|
                    rooms@.contains(p) <==> ((#[trigger] assoc_room(
                        self.spec_tiles().take(i as int),
                        p,
                    )) is Some && is_open_room(assoc_room(self.spec_tiles(), p))),
                forall|k: int, j: int| 0 <= k < j < rooms@.len() ==> rooms@[k] != rooms@[j],
                forall|k: int| 0 <= k < rooms@.len() ==> pos_in_range(#[trigger] rooms@[k]),
            decreases n - i,
        {
            let (pos, t) = self.tiles[i];
            let wanted = match self.room_at(&pos) {
                Some(RoomType::Wall) => false,
                Some(_) => true,
                None => false,
            };
            let ghost old_rooms = rooms@;
            let mut pushed = false;
            if wanted && !contains_position(&rooms, &pos) {
                rooms.push(pos);
                pushed = true;
            }
            proof {
                let full = self.spec_tiles();
                let pre = full.take(i as int);
                let post = full.take(i as int + 1);
                assert(post.drop_last() =~= pre);
                assert(post.last() == full[i as int]);
                assert(full[i as int] == (pos, t));
                assert forall|p: Position| #[trigger] rooms@.contains(p) <==> ((assoc_room(
                    post,
                    p,
                )) is Some && is_open_room(assoc_room(full, p))) by {
                    if pushed {
                        lemma_push_contains(old_rooms, pos, p);
                    }
                    if p == pos {
                        assert(assoc_room(post, p) == Some(t));
                    } else {
                        assert(assoc_room(post, p) == assoc_room(pre, p));
                    }
                }
            }
            i = i + 1;
        }
        proof {
            assert(self.spec_tiles().take(n as int) =~= self.spec_tiles());
        }
        rooms
    }

    /// The directions from `pos` that lead to unexplored positions, in
    /// droid order.
    pub fn options_from(&self, pos: &Position) -> (r: Vec<CompassDirection>)
        requires
            self.wf(),
            pos_in_range(*pos),
        ensures
            forall|d: CompassDirection|
                r@.contains(d) <==> #[trigger] assoc_room(
                    self.spec_tiles(),
                    spec_move(*pos, d),
                ) is None,
    {
        let options = all_move_options();
        let mut r: Vec<CompassDirection> = Vec::new();
        let mut i: usize = 0;
        while i < 4
            invariant
                i <= 4,
                self.wf(),
                pos_in_range(*pos),
                options@ == all_moves(),
                forall|d: CompassDirection|
                    r@.contains(d) ==> all_moves().take(i as int).contains(d) && assoc_room(
                        self.spec_tiles(),
                        #[trigger] spec_move(*pos, d),
                    ) is None,
                forall|j: int|
                    0 <= j < i ==> (assoc_room(
                        self.spec_tiles(),
                        spec_move(*pos, #[trigger] all_moves()[j]),
                    ) is None) == r@.contains(all_moves()[j]),
            decreases 4 - i,
        {
            let d = options[i];
            let ghost old_r = r@;
            let mut pushed = false;
            if self.room_at(&pos.move_direction(&d)).is_none() {
                r.push(d);
                pushed = true;
            }
            proof {
                let moves = all_moves();
                assert(moves[i as int] == d);
                assert forall|dd: CompassDirection| #[trigger] r@.contains(dd) implies (
                moves.take(i as int + 1).contains(dd) && assoc_room(
                    self.spec_tiles(),
                    spec_move(*pos, dd),
                ) is None) by {
                    if pushed {
                        lemma_push_contains(old_r, d, dd);
                    }
                    if old_r.contains(dd) {
                        lemma_take_contains(moves, i as int, dd);
                    } else {
                        assert(dd == d);
                        assert(moves.take(i as int + 1)[i as int] == d);
                    }
                }
                assert forall|j: int| 0 <= j < i + 1 implies (assoc_room(
                    self.spec_tiles(),
                    spec_move(*pos, #[trigger] moves[j]),
                ) is None) == r@.contains(moves[j]) by {
                    if pushed {
                        lemma_push_contains(old_r, d, moves[j]);
                    }
                    if j < i {
                        assert(moves[j] != moves[i as int]);
                    } else {
                        assert(moves[j] == d);
                        if !pushed && old_r.contains(d) {
                            assert(moves.take(i as int).contains(d));
                            let k = choose|k: int|
                                0 <= k < i && moves.take(i as int)[k] == d;
                            assert(moves[k] == moves[i as int]);
                            assert(false);
                        }
                    }
                }
            }
            i = i + 1;
        }
        proof {
            assert forall|d: CompassDirection| #[trigger] r@.contains(d) == (assoc_room(
                self.spec_tiles(),
                spec_move(*pos, d),
            ) is None) by {
                let moves = all_moves();
                assert(moves[0] == CompassDirection::North);
                assert(moves[1] == CompassDirection::East);
                assert(moves[2] == CompassDirection::South);
                assert(moves[3] == CompassDirection::West);
                match d {
                    CompassDirection::North => assert(moves.contains(d)) by {
                        assert(moves[0] == d);
                    },
                    CompassDirection::East => assert(moves.contains(d)) by {
                        assert(moves[1] == d);
                    },
                    CompassDirection::South => assert(moves.contains(d)) by {
                        assert(moves[2] == d);
                    },
                    CompassDirection::West => assert(moves.contains(d)) by {
                        assert(moves[3] == d);
                    },
                }
                let j = choose|j: int| 0 <= j < 4 && moves[j] == d;
            }
        }
        r
    }

    /// Whether `pos` is known to be the goal.
    pub fn is_known_to_be_the_goal(&self, pos: &Position) -> (r: bool)
        ensures
            r == (self.spec_goal() == Some(*pos)),
    {
        match &self.goal {
            Some(g) => g.x == pos.x && g.y == pos.y,
            None => false,
        }
    }

    /// Read a map from text: one row of rooms per line, the origin at the
    /// top left corner.
    pub fn parse(s: &str) -> (r: Result<ShipMap, BadMap>)
        requires
            s@.len() <= 1_000_000,
        ensures
            r matches Ok(map) ==> map.wf(),
    {
        let mut result = ShipMap::new(Position { x: 0, y: 0 });
        let lines = crate::text::split_char(s, '\n');
        let ghost line_views = lines@.map_values(|t: String| t@);
        let total = lines.len();
        let mut y: usize = 0;
        while y < total
            invariant
                y <= total,
                total == lines@.len(),
                result.wf(),
            decreases total - y,
        {
            if y > 1_000_000 {
                return Err(BadMap(String::from_str("map too tall")));
            }
            let line = &lines[y];
            let n = line.as_str().unicode_len();
            let mut x: usize = 0;
            while x < n
                invariant
                    x <= n,
                    y <= 1_000_000,
                    y < lines@.len(),
                    n == line@.len(),
                    result.wf(),
                decreases n - x,
            {
                if x > 1_000_000 {
                    return Err(BadMap(String::from_str("map too wide")));
                }
                let ch = line.as_str().get_char(x);
                let t = match RoomType::from_char(ch) {
                    Ok(t) => t,
                    Err(e) => {
                        return Err(e);
                    },
                };
                result.add_location(Position { x: x as i64, y: y as i64 }, t);
                x = x + 1;
            }
            y = y + 1;
        }
        Ok(result)
    }
}

/// Whether `v` holds `p`.
fn contains_position(v: &Vec<Position>, p: &Position) -> (r: bool)
    ensures
        r == v@.contains(*p),
{
    let mut i: usize = 0;
    while i < v.len()
        invariant
            i <= v@.len(),
            forall|j: int| 0 <= j < i ==> v@[j] != *p,
        decreases v@.len() - i,
    {
        if v[i].x == p.x && v[i].y == p.y {
            proof {
                assert(v@[i as int] == *p);
            }
            return true;
        }
        i = i + 1;
    }
    proof {
        if v@.contains(*p) {
            let j = choose|j: int| 0 <= j < v@.len() && v@[j] == *p;
            assert(false);
        }
    }
    false
}

/// The positions one step out from the boundary that lie in the open set:
/// where the oxygen spreads next, each position once.
pub fn advance(boundary: &Vec<Position>, open_rooms: &Vec<Position>) -> (r: Vec<Position>)
    requires
        forall|i: int| 0 <= i < boundary@.len() ==> pos_in_range(#[trigger] boundary@[i]),
        forall|i: int| 0 <= i < open_rooms@.len() ==> pos_in_range(#[trigger] open_rooms@[i]),
    ensures
        forall|p: Position|
            r@.contains(p) <==> (open_rooms@.contains(p) && exists|b: Position, d: CompassDirection|
                boundary@.contains(b) && p == #[trigger] spec_move(b, d)),
        forall|i: int, j: int| 0 <= i < j < r@.len() ==> r@[i] != r@[j],
        forall|i: int| 0 <= i < r@.len() ==> pos_in_range(#[trigger] r@[i]),
{
    let mut r: Vec<Position> = Vec::new();
    let mut i: usize = 0;
    while i < boundary.len()
        invariant
            i <= boundary@.len(),
            forall|k: int| 0 <= k < boundary@.len() ==> pos_in_range(#[trigger] boundary@[k]),
            forall|k: int| 0 <= k < open_rooms@.len() ==> pos_in_range(#[trigger] open_rooms@[k]),
            forall|p: Position|
                r@.contains(p) ==> (open_rooms@.contains(p) && exists|
                    b: Position,
                    d: CompassDirection,
                |
                    boundary@.contains(b) && p == #[trigger] spec_move(b, d)),
            forall|bi: int, di: int|
                0 <= bi < i && 0 <= di < 4 && open_rooms@.contains(
                    #[trigger] spec_move(boundary@[bi], all_moves()[di]),
                ) ==> r@.contains(spec_move(boundary@[bi], all_moves()[di])),
            forall|k: int, j: int| 0 <= k < j < r@.len() ==> r@[k] != r@[j],
            forall|k: int| 0 <= k < r@.len() ==> pos_in_range(#[trigger] r@[k]),
        decreases boundary@.len() - i,
    {
        let b = boundary[i];
        let options = all_move_options();
        let mut di: usize = 0;
        while di < 4
            invariant
                di <= 4,
                i < boundary@.len(),
                b == boundary@[i as int],
                options@ == all_moves(),
                forall|k: int| 0 <= k < boundary@.len() ==> pos_in_range(#[trigger] boundary@[k]),
                forall|k: int|
                    0 <= k < open_rooms@.len() ==> pos_in_range(#[trigger] open_rooms@[k]),
                forall|p: Position|
                    r@.contains(p) ==> (open_rooms@.contains(p) && exists|
                        bb: Position,
                        d: CompassDirection,
                    |
                        boundary@.contains(bb) && p == #[trigger] spec_move(bb, d)),
                forall|bi: int, dj: int|
                    0 <= bi < i && 0 <= dj < 4 && open_rooms@.contains(
                        #[trigger] spec_move(boundary@[bi], all_moves()[dj]),
                    ) ==> r@.contains(spec_move(boundary@[bi], all_moves()[dj])),
                forall|dj: int|
                    0 <= dj < di && open_rooms@.contains(
                        #[trigger] spec_move(b, all_moves()[dj]),
                    ) ==> r@.contains(spec_move(b, all_moves()[dj])),
                forall|k: int, j: int| 0 <= k < j < r@.len() ==> r@[k] != r@[j],
                forall|k: int| 0 <= k < r@.len() ==> pos_in_range(#[trigger] r@[k]),
            decreases 4 - di,
        {
            let d = options[di];
            let next = b.move_direction(&d);
            proof {
                assert(boundary@.contains(b)) by {
                    assert(boundary@[i as int] == b);
                }
            }
            let ghost old_r = r@;
            let mut pushed = false;
            if contains_position(open_rooms, &next) && !contains_position(&r, &next) {
                let ghost idx = choose|k: int|
                    0 <= k < open_rooms@.len() && open_rooms@[k] == next;
                r.push(next);
                pushed = true;
                proof {
                    assert(pos_in_range(open_rooms@[idx]));
                }
            }
            proof {
                let moves = all_moves();
                assert(moves[di as int] == d);
                assert(next == spec_move(b, d));
                assert forall|p: Position| #[trigger] r@.contains(p) implies (
                open_rooms@.contains(p) && exists|bb: Position, dd: CompassDirection|
                    boundary@.contains(bb) && p == #[trigger] spec_move(bb, dd)) by {
                    if pushed {
                        lemma_push_contains(old_r, next, p);
                    }
                }
                assert forall|bi: int, dj: int|
                    0 <= bi < i && 0 <= dj < 4 && open_rooms@.contains(
                        #[trigger] spec_move(boundary@[bi], moves[dj]),
                    ) implies r@.contains(spec_move(boundary@[bi], moves[dj])) by {
                    if pushed {
                        lemma_push_contains(old_r, next, spec_move(boundary@[bi], moves[dj]));
                    }
                }
                assert forall|dj: int|
                    0 <= dj < di + 1 && open_rooms@.contains(
                        #[trigger] spec_move(b, moves[dj]),
                    ) implies r@.contains(spec_move(b, moves[dj])) by {
                    if pushed {
                        lemma_push_contains(old_r, next, spec_move(b, moves[dj]));
                    }
                    if dj == di {
                        if !pushed {
                            assert(old_r.contains(next) || !open_rooms@.contains(next));
                        }
                        assert(spec_move(b, moves[dj]) == next);
                    }
                }
            }
            di = di + 1;
        }
        i = i + 1;
    }
    proof {
        assert forall|p: Position|
            (open_rooms@.contains(p) && exists|b: Position, d: CompassDirection|
                boundary@.contains(b) && p == #[trigger] spec_move(b, d)) implies r@.contains(
            p,
        ) by {
            let (b, d) = choose|b: Position, d: CompassDirection|
                boundary@.contains(b) && p == #[trigger] spec_move(b, d);
            let bi = choose|k: int| 0 <= k < boundary@.len() && boundary@[k] == b;
            let moves = all_moves();
            match d {
                CompassDirection::North => {
                    assert(moves[0] == d);
                },
                CompassDirection::East => {
                    assert(moves[1] == d);
                },
                CompassDirection::South => {
                    assert(moves[2] == d);
                },
                CompassDirection::West => {
                    assert(moves[3] == d);
                },
            }
        }
    }
    r
}

/// Remove the first occurrence of `p` from `v`, if any.
fn remove_position(v: &mut Vec<Position>, p: &Position) -> (removed: bool)
    requires
        forall|i: int, j: int| 0 <= i < j < old(v)@.len() ==> old(v)@[i] != old(v)@[j],
    ensures
        removed == old(v)@.contains(*p),
        removed ==> final(v)@.len() == old(v)@.len() - 1,
        !removed ==> final(v)@ == old(v)@,
        forall|q: Position| #[trigger] final(v)@.contains(q) <==> old(v)@.contains(q) && q != *p,
        forall|i: int, j: int| 0 <= i < j < final(v)@.len() ==> final(v)@[i] != final(v)@[j],
        forall|i: int| 0 <= i < final(v)@.len() ==> old(v)@.contains(#[trigger] final(v)@[i]),
{
    let n = v.len();
    let mut i: usize = 0;
    while i < n
        invariant
            i <= n,
            n == v@.len(),
            v@ == old(v)@,
            forall|j: int| 0 <= j < i ==> v@[j] != *p,
            forall|k: int, j: int| 0 <= k < j < v@.len() ==> v@[k] != v@[j],
        decreases n - i,
    {
        if v[i].x == p.x && v[i].y == p.y {
            proof {
                assert(v@[i as int] == *p);
            }
            let ghost before = v@;
            v.remove(i);
            proof {
                assert forall|q: Position| #[trigger] v@.contains(q) <==> (before.contains(q) && q
                    != *p) by {
                    if v@.contains(q) {
                        let k = choose|k: int| 0 <= k < v@.len() && v@[k] == q;
                        if k < i {
                            assert(before[k] == q);
                        } else {
                            assert(before[k + 1] == q);
                        }
                    }
                    if before.contains(q) && q != *p {
                        let k = choose|k: int| 0 <= k < before.len() && before[k] == q;
                        if k < i {
                            assert(v@[k] == q);
                        } else {
                            assert(k > i);
                            assert(v@[k - 1] == q);
                        }
                    }
                }
                assert forall|a: int, j: int| 0 <= a < j < v@.len() implies v@[a] != v@[j] by {
                    if a < i {
                        assert(v@[a] == before[a]);
                    } else {
                        assert(v@[a] == before[a + 1]);
                    }
                    if j < i {
                        assert(v@[j] == before[j]);
                    } else {
                        assert(v@[j] == before[j + 1]);
                    }
                }
                assert forall|a: int| 0 <= a < v@.len() implies before.contains(
                    #[trigger] v@[a],
                ) by {
                    if a < i {
                        assert(v@[a] == before[a]);
                    } else {
                        assert(v@[a] == before[a + 1]);
                    }
                }
            }
            return true;
        }
        i = i + 1;
    }
    proof {
        if v@.contains(*p) {
            let j = choose|j: int| 0 <= j < v@.len() && v@[j] == *p;
            assert(false);
        }
    }
    false
}

/// Flood the open rooms with oxygen, starting at `start`, one ring of
/// neighbours per step, and report how many steps it takes until no open
/// room is left unfilled.  If unfilled rooms remain that the oxygen can
/// never reach, the count of steps taken until the spread stalled is
/// reported instead.
pub fn part2(start: &Position, ship_map: &mut ShipMap) -> (r: usize)
    requires
        old(ship_map).wf(),
        pos_in_range(*start),
    ensures
        final(ship_map).wf(),
{
    let mut boundary: Vec<Position> = Vec::new();
    let mut to_fill = ship_map.get_open_rooms();
    boundary.push(*start);
    remove_position(&mut to_fill, start);
    let mut step_number: usize = 0;
    loop
        invariant
            ship_map.wf(),
            step_number <= usize::MAX - 1,
            forall|i: int, j: int| 0 <= i < j < to_fill@.len() ==> to_fill@[i] != to_fill@[j],
            forall|i: int| 0 <= i < to_fill@.len() ==> pos_in_range(#[trigger] to_fill@[i]),
            forall|i: int| 0 <= i < boundary@.len() ==> pos_in_range(#[trigger] boundary@[i]),
        decreases to_fill@.len(),
    {
        if to_fill.len() == 0 {
            return step_number;
        }
        let new_boundary = advance(&boundary, &to_fill);
        if new_boundary.len() == 0 {
            // the remaining rooms are out of the oxygen's reach
            return step_number;
        }
        let mut k: usize = 0;
        let ghost to_fill_before = to_fill@;
        proof {
            assert(to_fill@.contains(new_boundary@[0]));
        }
        while k < new_boundary.len()
            invariant
                k <= new_boundary@.len(),
                new_boundary@.len() > 0,
                ship_map.wf(),
                forall|i: int|
                    0 <= i < new_boundary@.len() ==> pos_in_range(#[trigger] new_boundary@[i]),
                forall|i: int, j: int| 0 <= i < j < to_fill@.len() ==> to_fill@[i] != to_fill@[j],
                forall|i: int| 0 <= i < to_fill@.len() ==> pos_in_range(#[trigger] to_fill@[i]),
                to_fill@.len() <= to_fill_before.len(),
                k == 0 ==> to_fill@.contains(new_boundary@[0]),
                k >= 1 ==> to_fill@.len() < to_fill_before.len(),
            decreases new_boundary@.len() - k,
        {
            let pos = new_boundary[k];
            ship_map.oxygen_fill(pos);
            remove_position(&mut to_fill, &pos);
            k = k + 1;
        }
        boundary = new_boundary;
        if step_number == usize::MAX - 1 {
            return step_number;
        }
        step_number = step_number + 1;
    }
}

} // verus!
