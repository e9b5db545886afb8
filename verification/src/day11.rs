//! The hull-painting robot: the processor asks for the colour under the
//! robot, answers with a colour to paint and a direction to turn, and the
//! robot walks the hull keeping count of the panels it has painted.
//!
//! The robot's input is not a queue: every read sees the colour under the
//! robot right now, so the input port recomputes its offer after every
//! output.  The orchestrating loop resynchronises the two ports between
//! steps.

use vstd::prelude::*;

use crate::cpu::fault::{CpuFault, InputOutputError};
use crate::cpu::memory::lemma_load_block_round_trip;
use crate::cpu::ports::{InputPort, OutputPort};
use crate::cpu::processor::{CpuStatus, Processor};
use crate::cpu::word::Word;

verus! {

/// One panel of the hull.
#[derive(Debug, PartialEq, Eq, Structural, Clone, Copy, Hash)]
pub struct Panel {
    pub x: i32,
    pub y: i32,
}

impl Panel {
    /// The panel one step up.
    pub fn up(&self) -> (r: Panel)
        requires
            self.y > i32::MIN,
        ensures
            r == (Panel { x: self.x, y: (self.y - 1) as i32 }),
    {
        Panel { x: self.x, y: self.y - 1 }
    }

    /// The panel one step down.
    pub fn down(&self) -> (r: Panel)
        requires
            self.y < i32::MAX,
        ensures
            r == (Panel { x: self.x, y: (self.y + 1) as i32 }),
    {
        Panel { x: self.x, y: self.y + 1 }
    }

    /// The panel one step to the right.
    pub fn right(&self) -> (r: Panel)
        requires
            self.x < i32::MAX,
        ensures
            r == (Panel { x: (self.x + 1) as i32, y: self.y }),
    {
        Panel { x: self.x + 1, y: self.y }
    }

    /// The panel one step to the left.
    pub fn left(&self) -> (r: Panel)
        requires
            self.x > i32::MIN,
        ensures
            r == (Panel { x: (self.x - 1) as i32, y: self.y }),
    {
        Panel { x: self.x - 1, y: self.y }
    }
}

/// A colour the robot can paint.
#[derive(Debug, PartialEq, Eq, Structural, Clone, Copy)]
pub enum PaintColour {
    White,
    Black,
}

/// What is known of one panel: painted panels remember their colour.
#[derive(Debug, PartialEq, Eq, Structural, Clone, Copy)]
pub enum PaintStatus {
    Unpainted,
    PaintedWhite,
    PaintedBlack,
}

/// The status recorded for `p`, the latest entry winning.
pub open spec fn panel_status(s: Seq<(Panel, PaintStatus)>, p: Panel) -> Option<PaintStatus>
    decreases s.len(),
{
    if s.len() == 0 {
        None
    } else if s.last().0 == p {
        Some(s.last().1)
    } else {
        panel_status(s.drop_last(), p)
    }
}

/// The hull: every panel the robot has painted, with its current colour.
/// Unrecorded panels are black.
pub struct ShipSurface {
    panels: Vec<(Panel, PaintStatus)>,
}

impl ShipSurface {
    /// The painted panels and their statuses.
    pub closed spec fn panels(&self) -> Seq<(Panel, PaintStatus)> {
        self.panels@
    }

    /// Well-formedness: one entry per panel, and only painted statuses
    /// are recorded.
    pub open spec fn wf(&self) -> bool {
        &&& forall|i: int, j: int|
            0 <= i < j < self.panels().len() ==> (#[trigger] self.panels()[i]).0 != (
            #[trigger] self.panels()[j]).0
        &&& forall|i: int|
            0 <= i < self.panels().len() ==> (#[trigger] self.panels()[i]).1 != PaintStatus::Unpainted
    }

    /// A hull with nothing painted.
    pub fn new() -> (r: ShipSurface)
        ensures
            r.wf(),
            r.panels().len() == 0,
    {
        ShipSurface { panels: Vec::new() }
    }

    /// How many distinct panels have been painted at least once.
    pub fn get_painted_panel_count(&self) -> (r: usize)
        requires
            self.wf(),
        ensures
            r == self.panels().len(),
    {
        self.panels.len()
    }

    /// Paint one panel: its status becomes the painted form of `colour`,
    /// every other panel keeps its status, and the painted count grows
    /// exactly when the panel had never been painted.
    pub fn paint_panel(&mut self, location: Panel, colour: PaintColour)
        requires
            old(self).wf(),
        ensures
            final(self).wf(),
            ({
                let status = if colour == PaintColour::White {
                    PaintStatus::PaintedWhite
                } else {
                    PaintStatus::PaintedBlack
                };
                &&& forall|p: Panel|
                    #[trigger] panel_status(final(self).panels(), p) == if p == location {
                        Some(status)
                    } else {
                        panel_status(old(self).panels(), p)
                    }
                &&& final(self).panels().len() == old(self).panels().len() + (
                if panel_status(old(self).panels(), location) is None {
                    1int
                } else {
                    0int
                })
            }),
    {
        let new_state = match colour {
            PaintColour::White => PaintStatus::PaintedWhite,
            PaintColour::Black => PaintStatus::PaintedBlack,
        };
        let n = self.panels.len();
        let mut i: usize = 0;
        while i < n
            invariant
                i <= n,
                self == old(self),
                self.wf(),
                n == self.panels().len(),
                new_state == (if colour == PaintColour::White {
                    PaintStatus::PaintedWhite
                } else {
                    PaintStatus::PaintedBlack
                }),
                forall|j: int| 0 <= j < i ==> (#[trigger] self.panels()[j]).0 != location,
        decreases n - i,
        {
            if self.panels[i].0 == location {
                self.panels[i] = (location, new_state);
                proof {
                    lemma_panel_status_update(old(self).panels(), self.panels(), i as int);
                    assert(panel_status(old(self).panels(), location) is Some) by {
                        lemma_panel_status_found(old(self).panels(), i as int);
                    }
                    assert forall|a: int, b: int|
                        0 <= a < b < self.panels().len() implies (#[trigger] self.panels()[a]).0
                        != (#[trigger] self.panels()[b]).0 by {
                        if a != i {
                            assert(self.panels()[a] == old(self).panels()[a]);
                        }
                        if b != i {
                            assert(self.panels()[b] == old(self).panels()[b]);
                        }
                        assert(old(self).wf());
                        let oa = old(self).panels()[a];
                        let ob = old(self).panels()[b];
                        assert(oa.0 != ob.0);
                        assert(self.panels()[a].0 == oa.0);
                        assert(self.panels()[b].0 == ob.0);
                    }
                    assert forall|a: int|
                        0 <= a < self.panels().len() implies (#[trigger] self.panels()[a]).1
                        != PaintStatus::Unpainted by {
                        assert(old(self).wf());
                        if a == i {
                            assert(self.panels()[a] == (location, new_state));
                        } else {
                            assert(self.panels()[a] == old(self).panels()[a]);
                            assert(old(self).panels()[a].1 != PaintStatus::Unpainted);
                        }
                    }
                }
                return ;
            }
            i = i + 1;
        }
        proof {
            lemma_panel_status_missing(self.panels(), location);
        }
        self.panels.push((location, new_state));
        proof {
            assert(self.panels().drop_last() =~= old(self).panels());
            assert forall|p: Panel| #[trigger] panel_status(self.panels(), p) == (if p == location {
                Some(new_state)
            } else {
                panel_status(old(self).panels(), p)
            }) by {}
        }
    }

    /// The colour of a panel: its painted colour, black if never painted.
    pub fn get_panel_colour(&self, location: &Panel) -> (r: PaintColour)
        requires
            self.wf(),
        ensures
            r == if panel_status(self.panels(), *location) == Some(PaintStatus::PaintedWhite) {
                PaintColour::White
            } else {
                PaintColour::Black
            },
    {
        let n = self.panels.len();
        let mut i: usize = n;
        proof {
            assert(self.panels().take(n as int) =~= self.panels());
        }
        while i > 0
            invariant
                i <= n,
                n == self.panels().len(),
                panel_status(self.panels(), *location) == panel_status(
                    self.panels().take(i as int),
                    *location,
                ),
            decreases i,
        {
            proof {
                let t = self.panels().take(i as int);
                assert(t.last() == self.panels()[i - 1]);
                assert(t.drop_last() =~= self.panels().take(i as int - 1));
            }
            if self.panels[i - 1].0 == *location {
                return match self.panels[i - 1].1 {
                    PaintStatus::PaintedWhite => PaintColour::White,
                    _ => PaintColour::Black,
                };
            }
            i = i - 1;
        }
        proof {
            assert(self.panels().take(0) =~= Seq::<(Panel, PaintStatus)>::empty());
        }
        PaintColour::Black
    }
}

/// Updating the entry that holds `p` updates `p`'s status and nobody
/// else's.
proof fn lemma_panel_status_update(
    before: Seq<(Panel, PaintStatus)>,
    after: Seq<(Panel, PaintStatus)>,
    i: int,
)
    requires
        0 <= i < before.len(),
        after.len() == before.len(),
        after[i].0 == before[i].0,
        forall|j: int| 0 <= j < before.len() && j != i ==> after[j] == before[j],
        forall|a: int, b: int|
            0 <= a < b < before.len() ==> (#[trigger] before[a]).0 != (#[trigger] before[b]).0,
    ensures
        forall|p: Panel|
            #[trigger] panel_status(after, p) == if p == before[i].0 {
                Some(after[i].1)
            } else {
                panel_status(before, p)
            },
    decreases before.len(),
{
    if before.len() > 0 {
        if i == before.len() - 1 {
            assert(after.drop_last() =~= before.drop_last());
            assert forall|p: Panel| #[trigger] panel_status(after, p) == (if p == before[i].0 {
                Some(after[i].1)
            } else {
                panel_status(before, p)
            }) by {
                assert(after.last() == after[i]);
                assert(before.last() == before[i]);
            }
        } else {
            assert forall|a: int, b: int|
                0 <= a < b < before.drop_last().len() implies (#[trigger] before.drop_last()[a]).0
                != (#[trigger] before.drop_last()[b]).0 by {
                assert(before.drop_last()[a] == before[a]);
                assert(before.drop_last()[b] == before[b]);
            }
            assert forall|j: int|
                0 <= j < before.drop_last().len() && j != i implies (#[trigger] after.drop_last()[j])
                == before.drop_last()[j] by {
                assert(after.drop_last()[j] == after[j]);
                assert(before.drop_last()[j] == before[j]);
            }
            assert(after.drop_last()[i] == after[i]);
            assert(before.drop_last()[i] == before[i]);
            lemma_panel_status_update(before.drop_last(), after.drop_last(), i);
            assert forall|p: Panel| #[trigger] panel_status(after, p) == (if p == before[i].0 {
                Some(after[i].1)
            } else {
                panel_status(before, p)
            }) by {
                assert(after.last() == before.last());
                assert(before[i] == before[i]);
                assert(before[before.len() - 1] == before.last());
                assert(before.last().0 != before[i].0);
                assert(panel_status(after.drop_last(), p) == (if p == before.drop_last()[i].0 {
                    Some(after.drop_last()[i].1)
                } else {
                    panel_status(before.drop_last(), p)
                }));
                if p == after.last().0 {
                    assert(panel_status(after, p) == Some(after.last().1));
                    assert(panel_status(before, p) == Some(before.last().1));
                } else {
                    assert(panel_status(after, p) == panel_status(after.drop_last(), p));
                    assert(panel_status(before, p) == panel_status(before.drop_last(), p));
                }
            }
        }
    }
}

/// An entry's key is recorded.
proof fn lemma_panel_status_found(s: Seq<(Panel, PaintStatus)>, i: int)
    requires
        0 <= i < s.len(),
    ensures
        panel_status(s, s[i].0) is Some,
    decreases s.len(),
{
    if i < s.len() - 1 {
        if s.last().0 != s[i].0 {
            assert(s.drop_last()[i] == s[i]);
            lemma_panel_status_found(s.drop_last(), i);
        }
    }
}

/// A key held by no entry has no status.
proof fn lemma_panel_status_missing(s: Seq<(Panel, PaintStatus)>, p: Panel)
    requires
        forall|j: int| 0 <= j < s.len() ==> (#[trigger] s[j]).0 != p,
    ensures
        panel_status(s, p) is None,
    decreases s.len(),
{
    if s.len() > 0 {
        lemma_panel_status_missing(s.drop_last(), p);
    }
}

/// The robot's heading.
#[derive(Debug, PartialEq, Eq, Structural, Clone, Copy)]
pub enum Heading {
    Up,
    Right,
    Down,
    Left,
}

/// The heading after turning right (any non-zero word) or left (zero).
pub open spec fn spec_turn(h: Heading, right: bool) -> Heading {
    match h {
        Heading::Up => if right {
            Heading::Right
        } else {
            Heading::Left
        },
        Heading::Right => if right {
            Heading::Down
        } else {
            Heading::Up
        },
        Heading::Down => if right {
            Heading::Left
        } else {
            Heading::Right
        },
        Heading::Left => if right {
            Heading::Up
        } else {
            Heading::Down
        },
    }
}

/// One step forward in heading `h`, stopping at the edge of the
/// representable hull.
pub open spec fn spec_step_panel(p: Panel, h: Heading) -> Panel {
    match h {
        Heading::Up => if p.y > i32::MIN {
            Panel { x: p.x, y: (p.y - 1) as i32 }
        } else {
            p
        },
        Heading::Down => if p.y < i32::MAX {
            Panel { x: p.x, y: (p.y + 1) as i32 }
        } else {
            p
        },
        Heading::Right => if p.x < i32::MAX {
            Panel { x: (p.x + 1) as i32, y: p.y }
        } else {
            p
        },
        Heading::Left => if p.x > i32::MIN {
            Panel { x: (p.x - 1) as i32, y: p.y }
        } else {
            p
        },
    }
}

/// Turn per the instruction word (zero turns left, anything else right)
/// and step one panel forward in the new heading.
pub fn perform_turn_and_move(w: Word, heading: &mut Heading, location: &mut Panel) -> (r: Result<
    (),
    InputOutputError,
>)
    ensures
        r is Ok,
        *final(heading) == spec_turn(*old(heading), w.0 != 0),
        *final(location) == spec_step_panel(*old(location), *final(heading)),
{
    let right: bool = w.0 != 0;
    *heading = match *heading {
        Heading::Up => if right {
            Heading::Right
        } else {
            Heading::Left
        },
        Heading::Right => if right {
            Heading::Down
        } else {
            Heading::Up
        },
        Heading::Down => if right {
            Heading::Left
        } else {
            Heading::Right
        },
        Heading::Left => if right {
            Heading::Up
        } else {
            Heading::Down
        },
    };
    *location = step_panel(*location, *heading);
    Ok(())
}

/// One saturating step forward.
fn step_panel(p: Panel, h: Heading) -> (r: Panel)
    ensures
        r == spec_step_panel(p, h),
{
    match h {
        Heading::Up => if p.y > i32::MIN {
            Panel { x: p.x, y: p.y - 1 }
        } else {
            p
        },
        Heading::Down => if p.y < i32::MAX {
            Panel { x: p.x, y: p.y + 1 }
        } else {
            p
        },
        Heading::Right => if p.x < i32::MAX {
            Panel { x: p.x + 1, y: p.y }
        } else {
            p
        },
        Heading::Left => if p.x > i32::MIN {
            Panel { x: p.x - 1, y: p.y }
        } else {
            p
        },
    }
}

/// The camera: an input port whose offer is always exactly the colour
/// under the robot right now.  It is no queue — reading does not consume
/// anything — so it advertises `fifo()` false.
pub struct Camera {
    colour: PaintColour,
}

/// A colour as the word the program expects.
pub open spec fn colour_word(c: PaintColour) -> i64 {
    if c == PaintColour::White {
        1
    } else {
        0
    }
}

impl Camera {
    /// A camera over a panel of the given colour.
    pub fn new(colour: PaintColour) -> (r: Camera)
        ensures
            r.avail() == seq![colour_word(colour)],
    {
        Camera { colour }
    }

    /// Point the camera at a panel of the given colour.
    pub fn set_colour(&mut self, colour: PaintColour)
        ensures
            final(self).avail() == seq![colour_word(colour)],
    {
        self.colour = colour;
    }
}

impl InputPort for Camera {
    closed spec fn avail(&self) -> Seq<i64> {
        seq![colour_word(self.colour)]
    }

    closed spec fn fifo(&self) -> bool {
        false
    }

    fn next_input(&mut self) -> (r: Result<Word, InputOutputError>) {
        let w = match self.colour {
            PaintColour::White => Word(1),
            PaintColour::Black => Word(0),
        };
        proof {
            assert(self.avail()[0] == colour_word(self.colour));
        }
        Ok(w)
    }
}

/// The robot's actuators: an output sink that alternates between painting
/// the current panel and turning-and-moving, updating the hull and the
/// robot pose as the words arrive.  It accepts every word; a paint word
/// other than zero or one is ignored, as the robot has no such colour.
pub struct Actuators {
    surface: ShipSurface,
    location: Panel,
    heading: Heading,
    moving: bool,
    seen: Ghost<Seq<i64>>,
}

impl Actuators {
    /// Where the robot stands.
    pub closed spec fn spec_location(&self) -> Panel {
        self.location
    }

    /// The painted hull's entries.
    pub closed spec fn spec_panels(&self) -> Seq<(Panel, PaintStatus)> {
        self.surface.panels()
    }

    /// The hull as painted so far.
    pub fn surface(self) -> (r: ShipSurface)
        ensures
            r.wf(),
            r.panels() == self.spec_panels(),
    {
        proof {
            use_type_invariant(&self);
        }
        let Actuators { surface, location: _, heading: _, moving: _, seen: _ } = self;
        surface
    }

    /// Where the robot stands.
    pub fn location(&self) -> (r: Panel)
        ensures
            r == self.spec_location(),
    {
        self.location
    }

    /// The colour under the robot: white exactly when the panel under it
    /// was painted white most recently.
    pub fn colour_under_robot(&self) -> (r: PaintColour)
        ensures
            r == if panel_status(self.spec_panels(), self.spec_location()) == Some(
                PaintStatus::PaintedWhite,
            ) {
                PaintColour::White
            } else {
                PaintColour::Black
            },
    {
        proof {
            use_type_invariant(self);
        }
        self.surface.get_panel_colour(&self.location)
    }

    /// The hull under the robot is always well formed.
    #[verifier::type_invariant]
    closed spec fn inv(&self) -> bool {
        self.surface.wf()
    }

    /// A robot at `start` over an empty hull, about to paint.
    pub fn new(start: Panel, surface: ShipSurface) -> (r: Actuators)
        requires
            surface.wf(),
        ensures
            r.sent() == Seq::<i64>::empty(),
            r.accepts_all(),
    {
        Actuators { surface, location: start, heading: Heading::Up, moving: false, seen: Ghost(Seq::empty()) }
    }
}

impl OutputPort for Actuators {
    closed spec fn sent(&self) -> Seq<i64> {
        self.seen@
    }

    closed spec fn accepts_all(&self) -> bool {
        true
    }

    fn emit_output(&mut self, w: Word) -> (r: Result<(), InputOutputError>) {
        proof {
            use_type_invariant(&*self);
        }
        if self.moving {
            let mut heading = self.heading;
            let mut location = self.location;
            let _ = perform_turn_and_move(w, &mut heading, &mut location);
            self.heading = heading;
            self.location = location;
        } else {
            // work on the hull outside the struct so that painting, which
            // may allocate, never sees a half-updated robot
            let mut work = ShipSurface::new();
            core::mem::swap(&mut self.surface, &mut work);
            match w.0 {
                0 => work.paint_panel(self.location, PaintColour::Black),
                1 => work.paint_panel(self.location, PaintColour::White),
                _ => (),
            }
            core::mem::swap(&mut self.surface, &mut work);
        }
        self.moving = !self.moving;
        self.seen = Ghost(self.seen@.push(w.0));
        Ok(())
    }
}

/// Run the painting program: the robot starts at `start` over a panel of
/// colour `start_colour`, repeatedly reports the colour under itself and
/// obeys the paint and turn words, for at most `max_steps` instructions.
/// On a normal halt the robot's final location and the painted hull come
/// back; `None` stands for an exhausted step budget.
pub fn run_robot(
    start: Panel,
    start_colour: PaintColour,
    surface: ShipSurface,
    program: &[Word],
    max_steps: u64,
) -> (r: Result<(Option<Panel>, ShipSurface), CpuFault>)
    requires
        surface.wf(),
        1 <= program@.len() <= i64::MAX,
    ensures
        r matches Ok(out) ==> out.1.wf(),
{
    let mut cpu = Processor::new(Word(0));
    match cpu.load(Word(0), program) {
        Ok(()) => (),
        Err(f) => {
            return Err(f);  // unreachable: base zero, length fits
        },
    }
    proof {
        lemma_load_block_round_trip(program@.map_values(|w: Word| w.0));
    }
    let mut camera = Camera::new(start_colour);
    let mut actuators = Actuators::new(start, surface);
    let mut steps: u64 = 0;
    while steps < max_steps
        invariant
            steps <= max_steps,
        decreases max_steps - steps,
    {
        match cpu.execute_instruction(&mut camera, &mut actuators) {
            Ok(CpuStatus::Halt) => {
                let location = actuators.location();
                return Ok((Some(location), actuators.surface()));
            },
            Ok(CpuStatus::Run) => (),
            Err(f) => {
                return Err(f);
            },
        }
        // the hull or the robot may have moved: retake the camera picture
        let colour = actuators.colour_under_robot();
        camera.set_colour(colour);
        steps = steps + 1;
    }
    Ok((None, actuators.surface()))
}

} // verus!
