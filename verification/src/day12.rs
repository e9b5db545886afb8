//! A tiny gravity simulation.  Bodies move on three independent axes; on
//! each axis every pair of bodies pulls one step toward each other, then
//! positions advance by the velocities.  All arithmetic is checked.

use vstd::prelude::*;

use crate::errors::Fail;

verus! {

/// Arithmetic left the 32-bit range.
#[derive(Debug, Clone, Copy, PartialEq, Eq, Structural)]
pub struct Overflow {}

/// A coordinate on one axis.
#[derive(Debug, PartialEq, Eq, Structural, Clone, Copy)]
pub struct Distance(pub i32);

/// A speed on one axis.
#[derive(Debug, PartialEq, Eq, Structural, Clone, Copy)]
pub struct Velocity(pub i32);

impl Distance {
    /// Checked displacement of a coordinate by a speed.
    pub fn add(&self, other: Velocity) -> (r: Result<Distance, Overflow>)
        ensures
            i32::MIN <= self.0 + other.0 <= i32::MAX ==> r == Ok::<Distance, Overflow>(
                Distance((self.0 + other.0) as i32),
            ),
            !(i32::MIN <= self.0 + other.0 <= i32::MAX) ==> r == Err::<Distance, Overflow>(
                Overflow {},
            ),
    {
        match self.0.checked_add(other.0) {
            Some(n) => Ok(Distance(n)),
            None => Err(Overflow {}),
        }
    }
}

impl Velocity {
    /// Checked sum of two speeds.
    pub fn add(&self, other: Velocity) -> (r: Result<Velocity, Overflow>)
        ensures
            i32::MIN <= self.0 + other.0 <= i32::MAX ==> r == Ok::<Velocity, Overflow>(
                Velocity((self.0 + other.0) as i32),
            ),
            !(i32::MIN <= self.0 + other.0 <= i32::MAX) ==> r == Err::<Velocity, Overflow>(
                Overflow {},
            ),
    {
        match self.0.checked_add(other.0) {
            Some(n) => Ok(Velocity(n)),
            None => Err(Overflow {}),
        }
    }

    /// Checked difference of two speeds.
    pub fn sub(&self, other: Velocity) -> (r: Result<Velocity, Overflow>)
        ensures
            i32::MIN <= self.0 - other.0 <= i32::MAX ==> r == Ok::<Velocity, Overflow>(
                Velocity((self.0 - other.0) as i32),
            ),
            !(i32::MIN <= self.0 - other.0 <= i32::MAX) ==> r == Err::<Velocity, Overflow>(
                Overflow {},
            ),
    {
        match self.0.checked_sub(other.0) {
            Some(n) => Ok(Velocity(n)),
            None => Err(Overflow {}),
        }
    }
}

/// The integer tokens that the fixed pattern `[+-]?[0-9]+` finds in a
/// string: successive non-overlapping maximal matches, left to right.
pub uninterp spec fn int_tokens_of(s: Seq<char>) -> Seq<Seq<char>>;

/// Finds the integers embedded in a line of text.
pub struct IntegerExtractor {
    re: regex::Regex,
}

/// Declares `regex::Regex` to the verifier so that a compiled pattern
/// can live in a field; values of it stay opaque.
#[verifier::external_type_specification]
#[verifier::external_body]
pub struct ExRegex(regex::Regex);

impl IntegerExtractor {
    /// Relies on `regex::Regex::new`: the fixed pattern `[+-]?[0-9]+` is
    /// valid, so compiling it cannot fail.  The explicit class `[0-9]`
    /// matches the ASCII digits and nothing else.
    #[verifier::external_body]
    pub fn new() -> IntegerExtractor {
        IntegerExtractor { re: regex::Regex::new(r"[+-]?[0-9]+").unwrap() }
    }

    /// Relies on `regex::Regex::find_iter`: it yields the successive
    /// non-overlapping matches of the pattern, left to right, and every
    /// match of `[+-]?[0-9]+` is an optional sign followed by at least one
    /// ASCII digit.
    #[verifier::external_body]
    fn integer_matches(&self, s: &str) -> (r: Vec<String>)
        ensures
            r@.map_values(|t: String| t@) == int_tokens_of(s@),
            forall|i: int|
                0 <= i < r@.len() ==> crate::text::is_int_literal(#[trigger] r@[i]@),
    {
        self.re.find_iter(s).map(|m| m.as_str().to_string()).collect()
    }

    /// The integers embedded in `s`, in order of appearance.  Fails
    /// exactly when some embedded integer does not fit in 32 bits.
    pub fn get_integers(&self, s: &str) -> (r: Result<Vec<i32>, Fail>)
        ensures
            match r {
                Ok(values) => {
                    let tokens = int_tokens_of(s@);
                    &&& values@.len() == tokens.len()
                    &&& forall|i: int|
                        0 <= i < tokens.len() ==> i32::MIN <= crate::text::int_literal_val(
                            #[trigger] tokens[i],
                        ) <= i32::MAX && values@[i] as int == crate::text::int_literal_val(
                            tokens[i],
                        )
                },
                Err(_) => exists|i: int|
                    0 <= i < int_tokens_of(s@).len() && !(i32::MIN
                        <= crate::text::int_literal_val(#[trigger] int_tokens_of(s@)[i])
                        <= i32::MAX),
            },
    {
        let tokens = self.integer_matches(s);
        let ghost token_views = int_tokens_of(s@);
        let mut values: Vec<i32> = Vec::new();
        let mut i: usize = 0;
        while i < tokens.len()
            invariant
                i <= tokens@.len(),
                token_views == int_tokens_of(s@),
                tokens@.map_values(|t: String| t@) == token_views,
                forall|j: int|
                    0 <= j < tokens@.len() ==> crate::text::is_int_literal(
                        #[trigger] tokens@[j]@,
                    ),
                values@.len() == i,
                forall|j: int|
                    0 <= j < i ==> i32::MIN <= crate::text::int_literal_val(
                        #[trigger] token_views[j],
                    ) <= i32::MAX && values@[j] as int == crate::text::int_literal_val(
                        token_views[j],
                    ),
            decreases tokens@.len() - i,
        {
            proof {
                assert(token_views[i as int] == tokens@[i as int]@);
            }
            match crate::text::parse_i64(tokens[i].as_str()) {
                Some(v) => {
                    if v < i32::MIN as i64 || v > i32::MAX as i64 {
                        proof {
                            assert(!(i32::MIN <= crate::text::int_literal_val(
                                int_tokens_of(s@)[i as int],
                            ) <= i32::MAX));
                        }
                        return Err(Fail(String::from_str("integer out of range")));
                    }
                    values.push(v as i32);
                },
                None => {
                    // the token is a literal, so only overflow can stop it
                    proof {
                        assert(crate::text::is_int_literal(tokens@[i as int]@));
                        assert(!(i32::MIN <= crate::text::int_literal_val(
                            int_tokens_of(s@)[i as int],
                        ) <= i32::MAX));
                    }
                    return Err(Fail(String::from_str("integer out of range")));
                },
            }
            i = i + 1;
        }
        Ok(values)
    }
}

/// The model of one axis: positions and velocities as plain integers.
pub struct AxisModel {
    pub p: Seq<int>,
    pub v: Seq<int>,
}

/// One step of pull between `a` and `b`, as felt by `a`.
pub open spec fn sign_toward(a: int, b: int) -> int {
    if a < b {
        1
    } else if a > b {
        -1
    } else {
        0
    }
}

/// The total pull on body `i` from the bodies before index `k`.
pub open spec fn net_pull(p: Seq<int>, i: int, k: int) -> int
    decreases k,
{
    if k <= 0 {
        0
    } else {
        net_pull(p, i, k - 1) + if k - 1 == i {
            0
        } else {
            sign_toward(p[i], p[k - 1])
        }
    }
}

/// The velocity of body `i` after the gravity phase.
pub open spec fn stepped_vel(a: AxisModel, i: int) -> int {
    a.v[i] + net_pull(a.p, i, a.p.len() as int)
}

/// The position of body `i` after the velocity phase.
pub open spec fn stepped_pos(a: AxisModel, i: int) -> int {
    a.p[i] + stepped_vel(a, i)
}

/// Whether every new velocity and position fits in 32 bits.
pub open spec fn step_fits(a: AxisModel) -> bool {
    forall|i: int|
        0 <= i < a.p.len() ==> i32::MIN <= #[trigger] stepped_vel(a, i) <= i32::MAX && i32::MIN
            <= stepped_pos(a, i) <= i32::MAX
}

/// One whole step of an axis.
pub open spec fn spec_axis_step(a: AxisModel) -> AxisModel {
    AxisModel {
        p: Seq::new(a.p.len(), |i: int| stepped_pos(a, i)),
        v: Seq::new(a.p.len(), |i: int| stepped_vel(a, i)),
    }
}

/// The net pull is bounded by the number of bodies considered.
proof fn lemma_net_pull_bound(p: Seq<int>, i: int, k: int)
    requires
        k >= 0,
    ensures
        -k <= net_pull(p, i, k) <= k,
    decreases k,
{
    if k > 0 {
        lemma_net_pull_bound(p, i, k - 1);
    }
}

/// The bodies of one axis: a position and a velocity per body.
pub struct System1D {
    position: Vec<Distance>,
    velocity: Vec<Velocity>,
    size: usize,
}

impl View for System1D {
    type V = AxisModel;

    closed spec fn view(&self) -> AxisModel {
        AxisModel {
            p: self.position@.map_values(|d: Distance| d.0 as int),
            v: self.velocity@.map_values(|v: Velocity| v.0 as int),
        }
    }
}

impl System1D {
    /// Well-formedness: matching lengths, and few enough bodies that
    /// force accumulation cannot overflow a wide accumulator.
    pub open spec fn wf(&self) -> bool {
        &&& self@.p.len() == self@.v.len()
        &&& self@.p.len() == self.spec_size()
        &&& self@.p.len() <= 1_000_000
    }

    /// The number of bodies, as a spec value.
    pub closed spec fn spec_size(&self) -> int {
        self.size as int
    }

    /// The number of bodies.
    pub fn body_count(&self) -> (r: usize)
        requires
            self.wf(),
        ensures
            r as int == self@.p.len(),
    {
        self.position.len()
    }

    /// An axis with the given positions and velocities.
    pub fn new(positions: &[Distance], velocities: &[Velocity]) -> (r: System1D)
        requires
            positions@.len() == velocities@.len(),
            positions@.len() <= 1_000_000,
        ensures
            r.wf(),
            r@.p == positions@.map_values(|d: Distance| d.0 as int),
            r@.v == velocities@.map_values(|v: Velocity| v.0 as int),
    {
        System1D {
            position: vstd::slice::slice_to_vec(positions),
            velocity: vstd::slice::slice_to_vec(velocities),
            size: positions.len(),
        }
    }

    /// One simulation step: apply gravity to the velocities, then the
    /// velocities to the positions.  Fails, changing nothing, when some
    /// new velocity or position leaves the 32-bit range.
    pub fn step(&mut self) -> (r: Result<(), Overflow>)
        requires
            old(self).wf(),
        ensures
            final(self).wf(),
            step_fits(old(self)@) ==> r == Ok::<(), Overflow>(()) && final(self)@
                == spec_axis_step(old(self)@),
            !step_fits(old(self)@) ==> r == Err::<(), Overflow>(Overflow {}) && final(self)@
                == old(self)@,
    {
        let n = self.position.len();
        let ghost a = self@;
        let mut new_vel: Vec<Velocity> = Vec::new();
        let mut new_pos: Vec<Distance> = Vec::new();
        let mut i: usize = 0;
        while i < n
            invariant
                i <= n,
                self.wf(),
                a == self@,
                n as int == a.p.len(),
                new_vel@.len() == i,
                new_pos@.len() == i,
                forall|j: int|
                    0 <= j < i ==> i32::MIN <= #[trigger] stepped_vel(a, j) <= i32::MAX
                        && i32::MIN <= stepped_pos(a, j) <= i32::MAX,
                forall|j: int|
                    0 <= j < i ==> #[trigger] new_vel@[j].0 as int == stepped_vel(a, j),
                forall|j: int|
                    0 <= j < i ==> #[trigger] new_pos@[j].0 as int == stepped_pos(a, j),
            decreases n - i,
        {
            let mut pull: i64 = 0;
            let mut j: usize = 0;
            while j < n
                invariant
                    j <= n,
                    i < n,
                    self.wf(),
                    a == self@,
                    n as int == a.p.len(),
                    pull as int == net_pull(a.p, i as int, j as int),
                    -(j as int) <= pull as int <= j as int,
                decreases n - j,
            {
                if j != i {
                    let pi = self.position[i].0;
                    let pj = self.position[j].0;
                    if pi < pj {
                        pull = pull + 1;
                    } else if pi > pj {
                        pull = pull - 1;
                    }
                }
                j = j + 1;
            }
            let v64 = self.velocity[i].0 as i64 + pull;
            proof {
                assert(v64 as int == stepped_vel(a, i as int));
            }
            if v64 < i32::MIN as i64 || v64 > i32::MAX as i64 {
                return Err(Overflow {});
            }
            let p64 = self.position[i].0 as i64 + v64;
            proof {
                assert(p64 as int == stepped_pos(a, i as int));
            }
            if p64 < i32::MIN as i64 || p64 > i32::MAX as i64 {
                return Err(Overflow {});
            }
            new_vel.push(Velocity(v64 as i32));
            new_pos.push(Distance(p64 as i32));
            i = i + 1;
        }
        self.position = new_pos;
        self.velocity = new_vel;
        self.size = n;
        proof {
            assert(self@.p =~= spec_axis_step(a).p);
            assert(self@.v =~= spec_axis_step(a).v);
        }
        Ok(())
    }

    /// The potential energy contribution of body `i` on this axis: the
    /// magnitude of its coordinate.
    pub fn potential_energy(&self, i: usize) -> (r: i32)
        requires
            self.wf(),
            i < self@.p.len(),
            self@.p[i as int] != i32::MIN,
        ensures
            r as int == (if self@.p[i as int] >= 0 {
                self@.p[i as int]
            } else {
                -self@.p[i as int]
            }),
    {
        let p = self.position[i].0;
        if p >= 0 {
            p
        } else {
            -p
        }
    }

    /// The kinetic energy contribution of body `i` on this axis: the
    /// magnitude of its speed.
    pub fn kinetic_energy(&self, i: usize) -> (r: i32)
        requires
            self.wf(),
            i < self@.v.len(),
            self@.v[i as int] != i32::MIN,
        ensures
            r as int == (if self@.v[i as int] >= 0 {
                self@.v[i as int]
            } else {
                -self@.v[i as int]
            }),
    {
        let v = self.velocity[i].0;
        if v >= 0 {
            v
        } else {
            -v
        }
    }

    /// Whether this axis is in exactly the same state as `other`.
    pub fn axis_match(&self, other: &System1D) -> (r: bool)
        requires
            self.wf(),
            other.wf(),
        ensures
            r == (self@.p == other@.p && self@.v == other@.v),
    {
        if self.position.len() != other.position.len() {
            proof {
                assert(self@.p.len() != other@.p.len());
            }
            return false;
        }
        let n = self.position.len();
        let mut i: usize = 0;
        while i < n
            invariant
                i <= n,
                self.wf(),
                other.wf(),
                n as int == self@.p.len(),
                n as int == other@.p.len(),
                forall|j: int| 0 <= j < i ==> (#[trigger] self@.p[j]) == other@.p[j],
                forall|j: int| 0 <= j < i ==> (#[trigger] self@.v[j]) == other@.v[j],
            decreases n - i,
        {
            proof {
                assert(self@.p[i as int] == self.position@[i as int].0 as int);
                assert(other@.p[i as int] == other.position@[i as int].0 as int);
                assert(self@.v[i as int] == self.velocity@[i as int].0 as int);
                assert(other@.v[i as int] == other.velocity@[i as int].0 as int);
            }
            if self.position[i].0 != other.position[i].0 || self.velocity[i].0
                != other.velocity[i].0 {
                return false;
            }
            i = i + 1;
        }
        proof {
            assert(self@.p =~= other@.p);
            assert(self@.v =~= other@.v);
        }
        true
    }

    /// An exact copy of this axis.
    fn snapshot(&self) -> (r: System1D)
        requires
            self.wf(),
        ensures
            r.wf(),
            r@ == self@,
    {
        let r = System1D {
            position: clone_distances(&self.position),
            velocity: clone_velocities(&self.velocity),
            size: self.size,
        };
        proof {
            assert(r@.p =~= self@.p);
            assert(r@.v =~= self@.v);
        }
        r
    }
}

/// A copy of a coordinate vector.
fn clone_distances(v: &Vec<Distance>) -> (r: Vec<Distance>)
    ensures
        r@ == v@,
{
    let mut r: Vec<Distance> = Vec::new();
    let mut i: usize = 0;
    while i < v.len()
        invariant
            i <= v@.len(),
            r@ == v@.take(i as int),
        decreases v@.len() - i,
    {
        r.push(v[i]);
        proof {
            assert(r@ =~= v@.take(i as int + 1));
        }
        i = i + 1;
    }
    proof {
        assert(v@.take(v@.len() as int) =~= v@);
    }
    r
}

/// A copy of a speed vector.
fn clone_velocities(v: &Vec<Velocity>) -> (r: Vec<Velocity>)
    ensures
        r@ == v@,
{
    let mut r: Vec<Velocity> = Vec::new();
    let mut i: usize = 0;
    while i < v.len()
        invariant
            i <= v@.len(),
            r@ == v@.take(i as int),
        decreases v@.len() - i,
    {
        r.push(v[i]);
        proof {
            assert(r@ =~= v@.take(i as int + 1));
        }
        i = i + 1;
    }
    proof {
        assert(v@.take(v@.len() as int) =~= v@);
    }
    r
}

/// The model of the whole system: one axis model per dimension.
pub struct Sys3Model {
    pub x: AxisModel,
    pub y: AxisModel,
    pub z: AxisModel,
}

/// Whether one joint step of all three axes stays within 32 bits.
pub open spec fn sys_step_fits(s: Sys3Model) -> bool {
    step_fits(s.x) && step_fits(s.y) && step_fits(s.z)
}

/// One joint step of all three axes.
pub open spec fn spec_sys_step(s: Sys3Model) -> Sys3Model {
    Sys3Model { x: spec_axis_step(s.x), y: spec_axis_step(s.y), z: spec_axis_step(s.z) }
}

/// `n` joint steps, or `None` if some step leaves the 32-bit range.
pub open spec fn spec_sys_steps(s: Sys3Model, n: nat) -> Option<Sys3Model>
    decreases n,
{
    if n == 0 {
        Some(s)
    } else if !sys_step_fits(s) {
        None
    } else {
        spec_sys_steps(spec_sys_step(s), (n - 1) as nat)
    }
}

/// The magnitude of an integer.
pub open spec fn abs_val(x: int) -> int {
    if x >= 0 {
        x
    } else {
        -x
    }
}

/// The total energy of the system: for each body, the sum of coordinate
/// magnitudes times the sum of speed magnitudes, summed over the first
/// `k` bodies.
pub open spec fn spec_energy(s: Sys3Model, k: int) -> int
    decreases k,
{
    if k <= 0 {
        0
    } else {
        spec_energy(s, k - 1) + (abs_val(s.x.p[k - 1]) + abs_val(s.y.p[k - 1]) + abs_val(
            s.z.p[k - 1],
        )) * (abs_val(s.x.v[k - 1]) + abs_val(s.y.v[k - 1]) + abs_val(s.z.v[k - 1]))
    }
}

/// Partial energies only grow.
proof fn lemma_energy_monotone(s: Sys3Model, k: int)
    requires
        k >= 0,
    ensures
        0 <= spec_energy(s, k),
        forall|j: int| 0 <= j <= k ==> #[trigger] spec_energy(s, j) <= spec_energy(s, k),
    decreases k,
{
    if k > 0 {
        lemma_energy_monotone(s, k - 1);
        assert((abs_val(s.x.p[k - 1]) + abs_val(s.y.p[k - 1]) + abs_val(s.z.p[k - 1])) * (abs_val(
            s.x.v[k - 1],
        ) + abs_val(s.y.v[k - 1]) + abs_val(s.z.v[k - 1])) >= 0) by (nonlinear_arith);
    }
}

/// Three one-dimensional systems, one per axis, over the same bodies.
pub struct System3 {
    x: System1D,
    y: System1D,
    z: System1D,
    body_count: usize,
}

impl View for System3 {
    type V = Sys3Model;

    closed spec fn view(&self) -> Sys3Model {
        Sys3Model { x: self.x@, y: self.y@, z: self.z@ }
    }
}

impl System3 {
    /// Well-formedness: all three axes well formed over the same number
    /// of bodies.
    pub open spec fn wf(&self) -> bool {
        &&& self.axis_x().wf()
        &&& self.axis_y().wf()
        &&& self.axis_z().wf()
        &&& self@.x.p.len() == self@.y.p.len()
        &&& self@.x.p.len() == self@.z.p.len()
        &&& self@.x.p.len() == self.spec_body_count()
    }

    /// The first axis.
    pub closed spec fn axis_x(&self) -> System1D {
        self.x
    }

    /// The second axis.
    pub closed spec fn axis_y(&self) -> System1D {
        self.y
    }

    /// The third axis.
    pub closed spec fn axis_z(&self) -> System1D {
        self.z
    }

    /// The number of bodies, as a spec value.
    pub closed spec fn spec_body_count(&self) -> int {
        self.body_count as int
    }

    /// A system from its three axes, which must agree on the number of
    /// bodies.
    pub fn new(x: System1D, y: System1D, z: System1D) -> (r: System3)
        requires
            x.wf(),
            y.wf(),
            z.wf(),
            x@.p.len() == y@.p.len(),
            x@.p.len() == z@.p.len(),
        ensures
            r.wf(),
            r@ == (Sys3Model { x: x@, y: y@, z: z@ }),
    {
        let body_count = x.body_count();
        System3 { x, y, z, body_count }
    }

    /// One joint simulation step of all three axes.  Fails, changing
    /// nothing, when some new velocity or position would leave 32 bits.
    pub fn step(&mut self) -> (r: Result<(), Overflow>)
        requires
            old(self).wf(),
        ensures
            final(self).wf(),
            final(self).spec_body_count() == old(self).spec_body_count(),
            sys_step_fits(old(self)@) ==> r == Ok::<(), Overflow>(()) && final(self)@
                == spec_sys_step(old(self)@),
            !sys_step_fits(old(self)@) ==> r == Err::<(), Overflow>(Overflow {}) && final(self)@
                == old(self)@,
    {
        // resolve all three axes before committing any of them
        let fits_x = self.x.step_would_fit();
        let fits_y = self.y.step_would_fit();
        let fits_z = self.z.step_would_fit();
        if !(fits_x && fits_y && fits_z) {
            return Err(Overflow {});
        }
        match self.x.step() {
            Ok(()) => (),
            Err(e) => {
                return Err(e);  // unreachable: the step was checked to fit
            },
        }
        match self.y.step() {
            Ok(()) => (),
            Err(e) => {
                return Err(e);
            },
        }
        match self.z.step() {
            Ok(()) => (),
            Err(e) => {
                return Err(e);
            },
        }
        Ok(())
    }

    /// The potential energy of body `i`: the sum of its coordinate
    /// magnitudes over the three axes.
    pub fn potential_energy(&self, i: usize) -> (r: i64)
        requires
            self.wf(),
            i < self@.x.p.len(),
        ensures
            r as int == abs_val(self@.x.p[i as int]) + abs_val(self@.y.p[i as int]) + abs_val(
                self@.z.p[i as int],
            ),
    {
        abs_i32(self.x.position_at(i)) + abs_i32(self.y.position_at(i)) + abs_i32(
            self.z.position_at(i),
        )
    }

    /// The kinetic energy of body `i`: the sum of its speed magnitudes
    /// over the three axes.
    pub fn kinetic_energy(&self, i: usize) -> (r: i64)
        requires
            self.wf(),
            i < self@.x.p.len(),
        ensures
            r as int == abs_val(self@.x.v[i as int]) + abs_val(self@.y.v[i as int]) + abs_val(
                self@.z.v[i as int],
            ),
    {
        abs_i32(self.x.velocity_at(i)) + abs_i32(self.y.velocity_at(i)) + abs_i32(
            self.z.velocity_at(i),
        )
    }

    /// The total energy of the system.  Fails exactly when the total does
    /// not fit in 32 bits.
    pub fn total_energy(&self) -> (r: Result<i32, Overflow>)
        requires
            self.wf(),
        ensures
            ({
                let total = spec_energy(self@, self@.x.p.len() as int);
                if total <= i32::MAX {
                    r == Ok::<i32, Overflow>(total as i32)
                } else {
                    r == Err::<i32, Overflow>(Overflow {})
                }
            }),
    {
        let n = self.x.body_count();
        let mut total: u64 = 0;
        let mut i: usize = 0;
        proof {
            lemma_energy_monotone(self@, self@.x.p.len() as int);
        }
        while i < n
            invariant
                i <= n,
                self.wf(),
                n as int == self@.x.p.len(),
                total as int == spec_energy(self@, i as int),
                total <= i32::MAX as u64,
                forall|j: int|
                    0 <= j <= n ==> #[trigger] spec_energy(self@, j) <= spec_energy(
                        self@,
                        n as int,
                    ),
            decreases n - i,
        {
            let pot = self.potential_energy(i) as u64;
            let kin = self.kinetic_energy(i) as u64;
            let product = match pot.checked_mul(kin) {
                Some(p) => p,
                None => {
                    proof {
                        assert(spec_energy(self@, i as int + 1) == spec_energy(self@, i as int)
                            + pot * kin);
                        assert(spec_energy(self@, i as int + 1) > i32::MAX);
                        assert(spec_energy(self@, n as int) >= spec_energy(self@, i as int + 1));
                    }
                    return Err(Overflow {});
                },
            };
            let new_total = match total.checked_add(product) {
                Some(t) => t,
                None => {
                    proof {
                        assert(spec_energy(self@, i as int + 1) == spec_energy(self@, i as int)
                            + pot * kin);
                        assert(spec_energy(self@, i as int + 1) > i32::MAX);
                        assert(spec_energy(self@, n as int) >= spec_energy(self@, i as int + 1));
                    }
                    return Err(Overflow {});
                },
            };
            if new_total > i32::MAX as u64 {
                proof {
                    assert(spec_energy(self@, i as int + 1) == spec_energy(self@, i as int) + pot
                        * kin);
                    assert(spec_energy(self@, i as int + 1) > i32::MAX);
                    assert(spec_energy(self@, n as int) >= spec_energy(self@, i as int + 1));
                }
                return Err(Overflow {});
            }
            total = new_total;
            i = i + 1;
        }
        Ok(total as i32)
    }

    /// Whether the named axis (0, 1 or 2) is in exactly the same state as
    /// in `initial`.
    pub fn axis_match(&self, axis: usize, initial: &System3) -> (r: bool)
        requires
            self.wf(),
            initial.wf(),
            axis < 3,
        ensures
            r == (axis_of(self@, axis as int).p == axis_of(initial@, axis as int).p && axis_of(
                self@,
                axis as int,
            ).v == axis_of(initial@, axis as int).v),
    {
        if axis == 0 {
            self.x.axis_match(&initial.x)
        } else if axis == 1 {
            self.y.axis_match(&initial.y)
        } else {
            self.z.axis_match(&initial.z)
        }
    }

    /// An exact copy of this system.
    pub fn snapshot(&self) -> (r: System3)
        requires
            self.wf(),
        ensures
            r.wf(),
            r@ == self@,
    {
        System3 {
            x: self.x.snapshot(),
            y: self.y.snapshot(),
            z: self.z.snapshot(),
            body_count: self.body_count,
        }
    }
}

/// The axis of a system model named by an index.
pub open spec fn axis_of(s: Sys3Model, axis: int) -> AxisModel {
    if axis == 0 {
        s.x
    } else if axis == 1 {
        s.y
    } else {
        s.z
    }
}

/// The magnitude of a 32-bit value, widened.
fn abs_i32(x: i32) -> (r: i64)
    ensures
        r as int == abs_val(x as int),
        r >= 0,
{
    if x >= 0 {
        x as i64
    } else {
        -(x as i64)
    }
}

impl System1D {
    /// The coordinate of body `i`.
    pub fn position_at(&self, i: usize) -> (r: i32)
        requires
            self.wf(),
            i < self@.p.len(),
        ensures
            r as int == self@.p[i as int],
    {
        self.position[i].0
    }

    /// The speed of body `i`.
    pub fn velocity_at(&self, i: usize) -> (r: i32)
        requires
            self.wf(),
            i < self@.v.len(),
        ensures
            r as int == self@.v[i as int],
    {
        self.velocity[i].0
    }

    /// Whether the next step of this axis stays within 32 bits.
    fn step_would_fit(&self) -> (r: bool)
        requires
            self.wf(),
        ensures
            r == step_fits(self@),
    {
        let n = self.position.len();
        let ghost a = self@;
        let mut i: usize = 0;
        while i < n
            invariant
                i <= n,
                self.wf(),
                a == self@,
                n as int == a.p.len(),
                forall|j: int|
                    0 <= j < i ==> i32::MIN <= #[trigger] stepped_vel(a, j) <= i32::MAX
                        && i32::MIN <= stepped_pos(a, j) <= i32::MAX,
            decreases n - i,
        {
            let mut pull: i64 = 0;
            let mut j: usize = 0;
            while j < n
                invariant
                    j <= n,
                    i < n,
                    self.wf(),
                    a == self@,
                    n as int == a.p.len(),
                    pull as int == net_pull(a.p, i as int, j as int),
                    -(j as int) <= pull as int <= j as int,
                decreases n - j,
            {
                if j != i {
                    let pi = self.position[i].0;
                    let pj = self.position[j].0;
                    if pi < pj {
                        pull = pull + 1;
                    } else if pi > pj {
                        pull = pull - 1;
                    }
                }
                j = j + 1;
            }
            let v64 = self.velocity[i].0 as i64 + pull;
            proof {
                assert(v64 as int == stepped_vel(a, i as int));
            }
            if v64 < i32::MIN as i64 || v64 > i32::MAX as i64 {
                return false;
            }
            let p64 = self.position[i].0 as i64 + v64;
            proof {
                assert(p64 as int == stepped_pos(a, i as int));
            }
            if p64 < i32::MIN as i64 || p64 > i32::MAX as i64 {
                return false;
            }
            i = i + 1;
        }
        true
    }
}

/// A line of input is good when it embeds exactly three integers, each
/// fitting in 32 bits.
pub open spec fn good_moon_line(line: Seq<char>) -> bool {
    let tokens = int_tokens_of(line);
    tokens.len() == 3 && forall|j: int|
        0 <= j < 3 ==> i32::MIN <= crate::text::int_literal_val(#[trigger] tokens[j]) <= i32::MAX
}

/// The coordinate in dimension `d` named by a good line.
pub open spec fn moon_coord(line: Seq<char>, d: int) -> int {
    crate::text::int_literal_val(int_tokens_of(line)[d])
}

/// Parse one body per line into a system at rest: each line contributes
/// its three embedded integers as the body's coordinates, and all
/// velocities start at zero.
pub fn parse_initial_state(lines: &[String]) -> (r: Result<System3, Fail>)
    requires
        lines@.len() <= 1_000_000,
    ensures
        match r {
            Ok(sys) => {
                &&& sys.wf()
                &&& sys@.x.p.len() == lines@.len()
                &&& forall|i: int| 0 <= i < lines@.len() ==> good_moon_line(#[trigger] lines@[i]@)
                &&& forall|i: int|
                    0 <= i < lines@.len() ==> axis_of(sys@, 0).p[i] == moon_coord(
                        #[trigger] lines@[i]@,
                        0,
                    ) && axis_of(sys@, 1).p[i] == moon_coord(lines@[i]@, 1) && axis_of(
                        sys@,
                        2,
                    ).p[i] == moon_coord(lines@[i]@, 2)
                &&& forall|i: int|
                    0 <= i < lines@.len() ==> axis_of(sys@, 0).v[i] == 0 && axis_of(sys@, 1).v[i]
                        == 0 && axis_of(sys@, 2).v[i] == 0
            },
            Err(_) => exists|i: int| 0 <= i < lines@.len() && !good_moon_line(#[trigger] lines@[i]@),
        },
{
    let extractor = IntegerExtractor::new();
    let mut px: Vec<Distance> = Vec::new();
    let mut py: Vec<Distance> = Vec::new();
    let mut pz: Vec<Distance> = Vec::new();
    let mut vzero: Vec<Velocity> = Vec::new();
    let mut i: usize = 0;
    while i < lines.len()
        invariant
            i <= lines@.len(),
            lines@.len() <= 1_000_000,
            px@.len() == i,
            py@.len() == i,
            pz@.len() == i,
            vzero@.len() == i,
            forall|j: int| 0 <= j < i ==> good_moon_line(#[trigger] lines@[j]@),
            forall|j: int|
                0 <= j < i ==> (#[trigger] px@[j]).0 as int == moon_coord(lines@[j]@, 0)
                    && py@[j].0 as int == moon_coord(lines@[j]@, 1) && pz@[j].0 as int
                    == moon_coord(lines@[j]@, 2),
            forall|j: int| 0 <= j < i ==> (#[trigger] vzero@[j]).0 == 0,
        decreases lines@.len() - i,
    {
        let values = match extractor.get_integers(lines[i].as_str()) {
            Ok(v) => v,
            Err(e) => {
                proof {
                    assert(!good_moon_line(lines@[i as int]@));
                }
                return Err(e);
            },
        };
        if values.len() != 3 {
            proof {
                assert(!good_moon_line(lines@[i as int]@));
            }
            return Err(Fail(String::from_str("expected three coordinates per line")));
        }
        proof {
            let tokens = int_tokens_of(lines@[i as int]@);
            assert(values@[0] as int == crate::text::int_literal_val(tokens[0]));
            assert(values@[1] as int == crate::text::int_literal_val(tokens[1]));
            assert(values@[2] as int == crate::text::int_literal_val(tokens[2]));
            assert(good_moon_line(lines@[i as int]@));
        }
        px.push(Distance(values[0]));
        py.push(Distance(values[1]));
        pz.push(Distance(values[2]));
        vzero.push(Velocity(0));
        proof {
            assert(px@[i as int].0 as int == moon_coord(lines@[i as int]@, 0));
            assert(py@[i as int].0 as int == moon_coord(lines@[i as int]@, 1));
            assert(pz@[i as int].0 as int == moon_coord(lines@[i as int]@, 2));
        }
        i = i + 1;
    }
    let n = px.len();
    let sx = System1D::new(px.as_slice(), vzero.as_slice());
    let sy = System1D::new(py.as_slice(), vzero.as_slice());
    let sz = System1D::new(pz.as_slice(), vzero.as_slice());
    let sys = System3::new(sx, sy, sz);
    proof {
        assert forall|j: int| 0 <= j < lines@.len() implies axis_of(sys@, 0).p[j] == moon_coord(
            #[trigger] lines@[j]@,
            0,
        ) && axis_of(sys@, 1).p[j] == moon_coord(lines@[j]@, 1) && axis_of(sys@, 2).p[j]
            == moon_coord(lines@[j]@, 2) by {
            assert(axis_of(sys@, 0).p[j] == px@[j].0 as int);
            assert(axis_of(sys@, 1).p[j] == py@[j].0 as int);
            assert(axis_of(sys@, 2).p[j] == pz@[j].0 as int);
        }
        assert forall|j: int| 0 <= j < lines@.len() implies axis_of(sys@, 0).v[j] == 0 && axis_of(
            sys@,
            1,
        ).v[j] == 0 && axis_of(sys@, 2).v[j] == 0 by {
            assert(axis_of(sys@, 0).v[j] == vzero@[j].0 as int);
            assert(axis_of(sys@, 1).v[j] == vzero@[j].0 as int);
            assert(axis_of(sys@, 2).v[j] == vzero@[j].0 as int);
        }
    }
    Ok(sys)
}

/// The greatest common divisor, by Euclid's algorithm.
pub open spec fn spec_gcd(a: nat, b: nat) -> nat
    decreases a,
{
    if a == 0 {
        b
    } else {
        spec_gcd((b % a) as nat, a)
    }
}

/// The greatest common divisor of two non-negative numbers.
pub fn gcd(a: u64, b: u64) -> (r: u64)
    ensures
        r as int == spec_gcd(a as nat, b as nat),
    decreases a,
{
    if a == 0 {
        b
    } else {
        gcd(b % a, a)
    }
}

/// A gcd of numbers that are not both zero is positive.
proof fn lemma_gcd_pos(a: nat, b: nat)
    requires
        a > 0 || b > 0,
    ensures
        spec_gcd(a, b) > 0,
    decreases a,
{
    if a > 0 {
        lemma_gcd_pos((b % a) as nat, a);
    }
}

/// The least common multiple of `a` and `b`.
pub open spec fn spec_lcm(a: nat, b: nat) -> nat {
    ((a * b) as int / spec_gcd(a, b) as int) as nat
}

/// The least common multiple of two positive numbers.
pub fn lcm(a: u64, b: u64) -> (r: u64)
    requires
        a > 0 || b > 0,
        a * b <= u64::MAX,
    ensures
        r as int == spec_lcm(a as nat, b as nat),
{
    proof {
        lemma_gcd_pos(a as nat, b as nat);
    }
    let g = gcd(a, b);
    (a * b) / g
}

/// The least common multiple of three positive numbers.
pub fn lcm3(a: u64, b: u64, c: u64) -> (r: Result<u64, Overflow>)
    requires
        a > 0,
        b > 0,
        c > 0,
    ensures
        match r {
            Ok(v) => v as int == spec_lcm(a as nat, spec_lcm(b as nat, c as nat)),
            Err(_) => true,
        },
{
    proof {
        lemma_gcd_pos(b as nat, c as nat);
    }
    if b.checked_mul(c).is_none() {
        return Err(Overflow {});
    }
    let inner = lcm(b, c);
    if inner == 0 {
        proof {
            lemma_gcd_pos(b as nat, c as nat);
        }
        return Err(Overflow {});
    }
    if a.checked_mul(inner).is_none() {
        return Err(Overflow {});
    }
    Ok(lcm(a, inner))
}

/// Advance the system `steps` times and report its total energy.
///
/// The result is exactly what the model prescribes: the stepped system's
/// energy when every step and the energy fit, and an overflow otherwise.
/// On an overflow the system is left at the last state reached.
pub fn solve1(system: &mut System3, steps: u64) -> (r: Result<i32, Overflow>)
    requires
        old(system).wf(),
    ensures
        final(system).wf(),
        match spec_sys_steps(old(system)@, steps as nat) {
            Some(end) => {
                &&& final(system)@ == end
                &&& ({
                    let total = spec_energy(end, end.x.p.len() as int);
                    if total <= i32::MAX {
                        r == Ok::<i32, Overflow>(total as i32)
                    } else {
                        r == Err::<i32, Overflow>(Overflow {})
                    }
                })
            },
            None => r == Err::<i32, Overflow>(Overflow {}) && exists|k: nat|
                k < steps && #[trigger] spec_sys_steps(old(system)@, k) == Some(final(system)@)
                    && !sys_step_fits(final(system)@),
        },
{
    let ghost s0 = system@;
    let mut i: u64 = 0;
    while i < steps
        invariant
            i <= steps,
            system.wf(),
            s0 == old(system)@,
            spec_sys_steps(s0, i as nat) == Some(system@),
            spec_sys_steps(s0, steps as nat) == spec_sys_steps(system@, (steps - i) as nat),
        decreases steps - i,
    {
        let ghost pre = system@;
        match system.step() {
            Ok(()) => (),
            Err(e) => {
                proof {
                    assert(!sys_step_fits(pre));
                    assert(spec_sys_steps(pre, (steps - i) as nat) is None);
                }
                return Err(e);
            },
        }
        proof {
            assert(spec_sys_steps(s0, (i + 1) as nat) == Some(system@)) by {
                lemma_sys_steps_snoc(s0, i as nat);
            }
        }
        i = i + 1;
    }
    system.total_energy()
}

/// Appending one more step to a successful run steps its end state once.
proof fn lemma_sys_steps_snoc(s: Sys3Model, n: nat)
    requires
        spec_sys_steps(s, n) is Some,
        sys_step_fits(spec_sys_steps(s, n).unwrap()),
    ensures
        spec_sys_steps(s, n + 1) == Some(spec_sys_step(spec_sys_steps(s, n).unwrap())),
    decreases n,
{
    if n == 0 {
        assert(spec_sys_steps(s, 0) == Some(s));
        assert(spec_sys_steps(spec_sys_step(s), 0) == Some(spec_sys_step(s)));
        assert(spec_sys_steps(s, 1) == spec_sys_steps(spec_sys_step(s), 0));
    } else {
        assert(spec_sys_steps(s, n) == spec_sys_steps(spec_sys_step(s), (n - 1) as nat));
        lemma_sys_steps_snoc(spec_sys_step(s), (n - 1) as nat);
        assert(spec_sys_steps(s, n + 1) == spec_sys_steps(spec_sys_step(s), n));
    }
}

/// Whether axis `j` has returned to its initial state after exactly `k`
/// joint steps.
pub open spec fn axis_matches_at(s0: Sys3Model, j: int, k: nat) -> bool {
    match spec_sys_steps(s0, k) {
        Some(s) => axis_of(s, j).p == axis_of(s0, j).p && axis_of(s, j).v == axis_of(s0, j).v,
        None => false,
    }
}

/// Whether axis `j` never returns to its initial state within `limit`
/// joint steps.
pub open spec fn axis_never_recurs(s0: Sys3Model, j: int, limit: nat) -> bool {
    forall|k: nat| 1 <= k <= limit ==> !#[trigger] axis_matches_at(s0, j, k)
}

/// Whether `c` is the first step at which axis `j` recurs.
pub open spec fn first_recurrence(s0: Sys3Model, j: int, c: nat) -> bool {
    &&& c >= 1
    &&& axis_matches_at(s0, j, c)
    &&& forall|k: nat| 1 <= k < c ==> !#[trigger] axis_matches_at(s0, j, k)
}

/// Search for the combined cycle length of the system: step up to
/// `step_limit` times, note for each axis the first step at which it
/// returns to its initial state, and combine the three cycle lengths into
/// their least common multiple.
pub fn solve2(system: &mut System3, step_limit: u64) -> (r: Result<Option<u64>, Overflow>)
    requires
        old(system).wf(),
    ensures
        final(system).wf(),
        match r {
            Ok(Some(n)) => exists|c0: u64, c1: u64, c2: u64|
                {
                    &&& 1 <= c0 <= step_limit && 1 <= c1 <= step_limit && 1 <= c2 <= step_limit
                    &&& #[trigger] first_recurrence(old(system)@, 0, c0 as nat)
                    &&& #[trigger] first_recurrence(old(system)@, 1, c1 as nat)
                    &&& #[trigger] first_recurrence(old(system)@, 2, c2 as nat)
                    &&& n as int == spec_lcm(c0 as nat, spec_lcm(c1 as nat, c2 as nat))
                },
            Ok(None) => axis_never_recurs(old(system)@, 0, step_limit as nat)
                || axis_never_recurs(old(system)@, 1, step_limit as nat) || axis_never_recurs(
                old(system)@,
                2,
                step_limit as nat,
            ),
            Err(_) => true,
        },
{
    let ghost s0 = system@;
    let initial = system.snapshot();
    let mut cycle0: Option<u64> = None;
    let mut cycle1: Option<u64> = None;
    let mut cycle2: Option<u64> = None;
    let mut step: u64 = 0;
    while step < step_limit && !(cycle0.is_some() && cycle1.is_some() && cycle2.is_some())
        invariant
            step <= step_limit,
            system.wf(),
            initial.wf(),
            s0 == old(system)@,
            initial@ == s0,
            spec_sys_steps(s0, step as nat) == Some(system@),
            match cycle0 {
                Some(c) => 1 <= c <= step && first_recurrence(s0, 0, c as nat),
                None => forall|k: nat| 1 <= k <= step ==> !#[trigger] axis_matches_at(s0, 0, k),
            },
            match cycle1 {
                Some(c) => 1 <= c <= step && first_recurrence(s0, 1, c as nat),
                None => forall|k: nat| 1 <= k <= step ==> !#[trigger] axis_matches_at(s0, 1, k),
            },
            match cycle2 {
                Some(c) => 1 <= c <= step && first_recurrence(s0, 2, c as nat),
                None => forall|k: nat| 1 <= k <= step ==> !#[trigger] axis_matches_at(s0, 2, k),
            },
        decreases step_limit - step,
    {
        match system.step() {
            Ok(()) => (),
            Err(e) => {
                return Err(e);
            },
        }
        proof {
            lemma_sys_steps_snoc(s0, step as nat);
        }
        let stepped = step + 1;
        if cycle0.is_none() {
            if system.axis_match(0, &initial) {
                proof {
                    assert(axis_matches_at(s0, 0, stepped as nat));
                }
                cycle0 = Some(stepped);
            } else {
                proof {
                    assert(!axis_matches_at(s0, 0, stepped as nat));
                }
            }
        }
        if cycle1.is_none() {
            if system.axis_match(1, &initial) {
                proof {
                    assert(axis_matches_at(s0, 1, stepped as nat));
                }
                cycle1 = Some(stepped);
            } else {
                proof {
                    assert(!axis_matches_at(s0, 1, stepped as nat));
                }
            }
        }
        if cycle2.is_none() {
            if system.axis_match(2, &initial) {
                proof {
                    assert(axis_matches_at(s0, 2, stepped as nat));
                }
                cycle2 = Some(stepped);
            } else {
                proof {
                    assert(!axis_matches_at(s0, 2, stepped as nat));
                }
            }
        }
        step = stepped;
    }
    match (cycle0, cycle1, cycle2) {
        (Some(a), Some(b), Some(c)) => match lcm3(a, b, c) {
            Ok(n) => Ok(Some(n)),
            Err(e) => Err(e),
        },
        _ => Ok(None),
    }
}

} // verus!
