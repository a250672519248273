//! Plain data of the game world: step counters, grid directions and
//! coordinates, the player's state and the random picks the world makes.
use vstd::prelude::*;
use vstd::std_specs::ops::{AddSpec, SubSpec};

verus! {

/// The engine's entity handle, carried through the library without being
/// looked into.
#[verifier::external_type_specification]
#[verifier::external_body]
pub struct ExEntity(bevy::ecs::entity::Entity);

// ------------------------------------------------------------------------------------------
// Step counters
// ------------------------------------------------------------------------------------------

/// A counter that steps through `0, 1, ..., STEPS - 1` and then starts over.
#[allow(non_camel_case_types)]
pub struct u32_cycle<const STEPS: u32>(u32);

/// The value of a cycle counter that started at `v` after `n` steps.
pub open spec fn cycle_after(v: nat, n: nat, steps: nat) -> nat
    decreases n,
{
    if n == 0 {
        v
    } else {
        (cycle_after(v, (n - 1) as nat, steps) + 1) % steps
    }
}

impl<const STEPS: u32> View for u32_cycle<STEPS> {
    type V = nat;

    closed spec fn view(&self) -> nat {
        self.0 as nat
    }
}

impl<const STEPS: u32> u32_cycle<STEPS> {
    #[verifier::type_invariant]
    spec fn in_range(self) -> bool {
        self.0 == 0 || self.0 < STEPS
    }

    /// The current step; below `STEPS` whenever `STEPS` is positive.
    pub fn value(&self) -> (r: u32)
        ensures
            r == self@,
            r == 0 || r < STEPS,
    {
        proof {
            use_type_invariant(self);
        }
        self.0
    }

    /// Advance by one step, wrapping around to zero after `STEPS - 1`.
    pub fn next(&mut self)
        requires
            STEPS > 0,
        ensures
            final(self)@ == (old(self)@ + 1) % (STEPS as nat),
            final(self)@ < STEPS,
    {
        proof {
            use_type_invariant(&*self);
        }
        self.0 = (self.0 + 1) % STEPS;
    }
}

impl<const STEPS: u32> Clone for u32_cycle<STEPS> {
    fn clone(&self) -> (r: Self)
        ensures
            r@ == self@,
    {
        proof {
            use_type_invariant(self);
        }
        u32_cycle(self.0)
    }
}

impl<const STEPS: u32> Default for u32_cycle<STEPS> {
    fn default() -> (r: Self)
        ensures
            r@ == 0,
    {
        u32_cycle(0)
    }
}

/// After `n` steps a cycle counter that started at `v` holds `(v + n) % steps`;
/// in particular `steps` steps bring it back to where it started.
pub proof fn lemma_cycle_after(v: nat, n: nat, steps: nat)
    requires
        steps > 0,
        v < steps,
    ensures
        cycle_after(v, n, steps) == (v + n) % steps,
        cycle_after(v, steps, steps) == v,
{
    lemma_cycle_after_closed(v, n, steps);
    lemma_cycle_after_closed(v, steps, steps);
    vstd::arithmetic::div_mod::lemma_mod_add_multiples_vanish(v as int, steps as int);
    vstd::arithmetic::div_mod::lemma_small_mod(v, steps);
}

proof fn lemma_cycle_after_closed(v: nat, n: nat, steps: nat)
    requires
        steps > 0,
        v < steps,
    ensures
        cycle_after(v, n, steps) == (v + n) % steps,
    decreases n,
{
    if n == 0 {
        vstd::arithmetic::div_mod::lemma_small_mod(v, steps);
    } else {
        lemma_cycle_after_closed(v, (n - 1) as nat, steps);
        let k = (v + n - 1) as int;
        vstd::arithmetic::div_mod::lemma_add_mod_noop_right(1, k, steps as int);
    }
}

/// A counter that counts up to `MAX` and then stays there.
#[allow(non_camel_case_types)]
#[derive(Debug)]
pub struct u32_bounded<const MAX: u32>(u32);

/// The value of a bounded counter that started at `v` after `n` steps.
pub open spec fn bounded_after(v: nat, n: nat, max: nat) -> nat
    decreases n,
{
    if n == 0 {
        v
    } else {
        let p = bounded_after(v, (n - 1) as nat, max);
        if p + 1 <= max {
            p + 1
        } else {
            max
        }
    }
}

impl<const MAX: u32> View for u32_bounded<MAX> {
    type V = nat;

    closed spec fn view(&self) -> nat {
        self.0 as nat
    }
}

impl<const MAX: u32> u32_bounded<MAX> {
    #[verifier::type_invariant]
    spec fn in_range(self) -> bool {
        self.0 == 0 || self.0 <= MAX
    }

    /// The current count; never above `MAX`.
    pub fn value(&self) -> (r: u32)
        ensures
            r == self@,
            r <= MAX,
    {
        proof {
            use_type_invariant(self);
        }
        self.0
    }

    /// Count one up, saturating at `MAX`.
    pub fn next(&mut self)
        requires
            MAX < u32::MAX || old(self)@ < MAX,
        ensures
            final(self)@ == if old(self)@ + 1 <= MAX {
                old(self)@ + 1
            } else {
                MAX as nat
            },
            final(self)@ <= MAX,
    {
        proof {
            use_type_invariant(&*self);
        }
        let n = self.0 + 1;
        self.0 = if n <= MAX {
            n
        } else {
            MAX
        };
    }
}

impl<const MAX: u32> Clone for u32_bounded<MAX> {
    fn clone(&self) -> (r: Self)
        ensures
            r@ == self@,
    {
        proof {
            use_type_invariant(self);
        }
        u32_bounded(self.0)
    }
}

impl<const MAX: u32> Default for u32_bounded<MAX> {
    fn default() -> (r: Self)
        ensures
            r@ == 0,
    {
        u32_bounded(0)
    }
}

/// After `n` steps a bounded counter that started at `v <= max` holds
/// `min(v + n, max)`: it rises by one each step and then stays at `max`.
pub proof fn lemma_bounded_after(v: nat, n: nat, max: nat)
    requires
        v <= max,
    ensures
        bounded_after(v, n, max) == if v + n <= max {
            v + n
        } else {
            max
        },
    decreases n,
{
    if n > 0 {
        lemma_bounded_after(v, (n - 1) as nat, max);
    }
}

// ------------------------------------------------------------------------------------------
// Random picks
// ------------------------------------------------------------------------------------------

/// One element of `coll`, chosen at random.
///
/// Calls `rand::seq::IteratorRandom::choose` on the vector's iterator with the
/// thread-local generator. The contract claims only what rand's source shows for
/// an iterator of known length: a non-empty iterator yields one of its own
/// elements. Which element comes back is left open.
#[verifier::external_body]
pub fn pick<T>(coll: Vec<T>) -> (r: T)
    requires
        coll.len() > 0,
    ensures
        coll@.contains(r),
{
    rand::seq::IteratorRandom::choose(coll.into_iter(), &mut rand::thread_rng()).unwrap()
}

/// `n` elements of `coll`, chosen at random without repetition, for `n` no
/// larger than `coll`'s length.
///
/// Calls `rand::seq::IteratorRandom::choose_multiple` with the thread-local
/// generator. Its documentation and source (reservoir sampling) give: the
/// result has `n` elements, and every element of `coll` occurs in it at most as
/// often as in `coll`. Which elements are chosen, and their order, is left
/// open. The call reserves room for `n` elements first; `n` is kept within the
/// length of `coll`, whose elements are already held in memory.
#[verifier::external_body]
fn choose_multiple<T>(coll: Vec<T>, n: usize) -> (r: Vec<T>)
    requires
        n <= coll.len(),
    ensures
        r.len() == n,
        r@.to_multiset().subset_of(coll@.to_multiset()),
{
    rand::seq::IteratorRandom::choose_multiple(coll.into_iter(), &mut rand::thread_rng(), n)
}

/// Up to `n` elements of `coll`, chosen at random without repetition: `n` of
/// them, or all of them when `coll` has fewer.
pub fn pick_multiple<T>(coll: Vec<T>, n: usize) -> (r: Vec<T>)
    ensures
        r.len() == if n <= coll.len() {
            n
        } else {
            coll.len()
        },
        r@.to_multiset().subset_of(coll@.to_multiset()),
{
    let amount = if n <= coll.len() {
        n
    } else {
        coll.len()
    };
    choose_multiple(coll, amount)
}

// ------------------------------------------------------------------------------------------
// Directions and grid coordinates
// ------------------------------------------------------------------------------------------

/// The eight compass directions on the grid, and standing still.
#[allow(non_camel_case_types)]
#[derive(Clone, Copy, PartialEq, Eq, Debug, Structural)]
pub enum Dir {
    NORTH,
    NORTHEAST,
    EAST,
    SOUTHEAST,
    SOUTH,
    SOUTHWEST,
    WEST,
    NORTHWEST,
    HERE,
}

/// A cell of the two-dimensional grid.
#[derive(Clone, Copy, PartialEq, Eq, Hash, Debug)]
pub struct Coord(pub [i32; 2]);

impl Default for Coord {
    /// The origin.
    fn default() -> (r: Self)
        ensures
            r.0[0] == 0,
            r.0[1] == 0,
    {
        Coord([0, 0])
    }
}

/// The grid step of a direction: `[dx, dy]` with north along positive `y`
/// and east along positive `x`.
pub open spec fn dir_offset(d: Dir) -> (int, int) {
    match d {
        Dir::NORTH => (0, 1),
        Dir::NORTHEAST => (1, 1),
        Dir::EAST => (1, 0),
        Dir::SOUTHEAST => (1, -1),
        Dir::SOUTH => (0, -1),
        Dir::SOUTHWEST => (-1, -1),
        Dir::WEST => (-1, 0),
        Dir::NORTHWEST => (-1, 1),
        Dir::HERE => (0, 0),
    }
}

/// `-1`, `0` or `1` as `a` is below, equal to or above `b`.
pub open spec fn sign_of(a: int, b: int) -> int {
    if a < b {
        -1
    } else if a == b {
        0
    } else {
        1
    }
}

/// The direction `Dir::from_to` reports for the two signs it computes.
pub open spec fn dir_of_signs(sx: int, sy: int) -> Dir {
    if sx < 0 {
        if sy < 0 {
            Dir::SOUTHWEST
        } else if sy == 0 {
            Dir::SOUTH
        } else {
            Dir::NORTHEAST
        }
    } else if sx == 0 {
        if sy < 0 {
            Dir::SOUTH
        } else if sy == 0 {
            Dir::HERE
        } else {
            Dir::NORTH
        }
    } else {
        if sy < 0 {
            Dir::SOUTHEAST
        } else if sy == 0 {
            Dir::EAST
        } else {
            Dir::NORTHEAST
        }
    }
}

impl Dir {
    pub open spec fn spec_is_diagonal(self) -> bool {
        self is NORTHEAST || self is SOUTHEAST || self is SOUTHWEST || self is NORTHWEST
    }

    /// Whether the direction steps along both axes at once.
    pub fn is_diagonal(&self) -> (r: bool)
        ensures
            r == self.spec_is_diagonal(),
            r == (dir_offset(*self).0 != 0 && dir_offset(*self).1 != 0),
    {
        match self {
            Dir::NORTHEAST | Dir::SOUTHEAST | Dir::SOUTHWEST | Dir::NORTHWEST => true,
            _ => false,
        }
    }

    /// A random one of the four axis directions.
    pub fn random_lateral() -> (r: Dir)
        ensures
            r == Dir::EAST || r == Dir::NORTH || r == Dir::WEST || r == Dir::SOUTH,
            !r.spec_is_diagonal(),
            r != Dir::HERE,
    {
        let options = vec![Dir::EAST, Dir::NORTH, Dir::WEST, Dir::SOUTH];
        let r = pick(options);
        r
    }

    /// A random direction, standing still included.
    pub fn random() -> (r: Dir) {
        pick(
            vec![
                Dir::NORTH,
                Dir::NORTHEAST,
                Dir::EAST,
                Dir::SOUTHEAST,
                Dir::SOUTH,
                Dir::SOUTHWEST,
                Dir::WEST,
                Dir::NORTHWEST,
                Dir::HERE,
            ],
        )
    }

    /// The direction from `orig` towards `dest`, as the game computes it: the
    /// horizontal sign compares `dest`'s x with `orig`'s x, and the vertical sign
    /// compares `dest`'s y with `orig`'s x as well.
    pub fn from_to(orig: &Coord, dest: &Coord) -> (r: Self)
        ensures
            r == dir_of_signs(
                sign_of(dest.0[0] as int, orig.0[0] as int),
                sign_of(dest.0[1] as int, orig.0[0] as int),
            ),
    {
        let ox = orig.0[0];
        let dx = dest.0[0];
        let dy = dest.0[1];
        if dx < ox {
            if dy < ox {
                Dir::SOUTHWEST
            } else if dy == ox {
                Dir::SOUTH
            } else {
                Dir::NORTHEAST
            }
        } else if dx == ox {
            if dy < ox {
                Dir::SOUTH
            } else if dy == ox {
                Dir::HERE
            } else {
                Dir::NORTH
            }
        } else {
            if dy < ox {
                Dir::SOUTHEAST
            } else if dy == ox {
                Dir::EAST
            } else {
                Dir::NORTHEAST
            }
        }
    }
}

impl From<Dir> for [i32; 2] {
    fn from(value: Dir) -> (r: Self) {
        match value {
            Dir::NORTH => [0, 1],
            Dir::NORTHEAST => [1, 1],
            Dir::EAST => [1, 0],
            Dir::SOUTHEAST => [1, -1],
            Dir::SOUTH => [0, -1],
            Dir::SOUTHWEST => [-1, -1],
            Dir::WEST => [-1, 0],
            Dir::NORTHWEST => [-1, 1],
            Dir::HERE => [0, 0],
        }
    }
}

impl vstd::std_specs::convert::FromSpecImpl<Dir> for [i32; 2] {
    open spec fn obeys_from_spec() -> bool {
        true
    }

    open spec fn from_spec(v: Dir) -> [i32; 2] {
        [dir_offset(v).0 as i32, dir_offset(v).1 as i32]
    }
}

impl From<(i32, i32)> for Coord {
    fn from(value: (i32, i32)) -> (r: Self) {
        let (a, b) = value;
        Coord([a, b])
    }
}

impl vstd::std_specs::convert::FromSpecImpl<(i32, i32)> for Coord {
    open spec fn obeys_from_spec() -> bool {
        true
    }

    open spec fn from_spec(v: (i32, i32)) -> Coord {
        Coord([v.0, v.1])
    }
}

/// The cell at column `x` and row `y`.
pub fn coord(x: i32, y: i32) -> (r: Coord)
    ensures
        r.0[0] == x,
        r.0[1] == y,
{
    Coord::from((x, y))
}

/// Whether stepping from `c` by `(dx, dy)` stays within `i32`.
pub open spec fn step_fits(c: Coord, dx: int, dy: int) -> bool {
    &&& i32::MIN <= c.0[0] + dx <= i32::MAX
    &&& i32::MIN <= c.0[1] + dy <= i32::MAX
}

impl core::ops::Add<Dir> for Coord {
    type Output = Self;

    /// The neighbouring cell one step in direction `rhs`.
    fn add(self, rhs: Dir) -> (r: Self::Output) {
        let offset: [i32; 2] = rhs.into();
        Coord([self.0[0] + offset[0], self.0[1] + offset[1]])
    }
}

impl vstd::std_specs::ops::AddSpecImpl<Dir> for Coord {
    open spec fn obeys_add_spec() -> bool {
        true
    }

    open spec fn add_req(self, rhs: Dir) -> bool {
        step_fits(self, dir_offset(rhs).0, dir_offset(rhs).1)
    }

    open spec fn add_spec(self, rhs: Dir) -> Coord {
        Coord(
            [
                (self.0[0] + dir_offset(rhs).0) as i32,
                (self.0[1] + dir_offset(rhs).1) as i32,
            ],
        )
    }
}

impl core::ops::Sub<Dir> for Coord {
    type Output = Self;

    /// The neighbouring cell one step against direction `rhs`.
    fn sub(self, rhs: Dir) -> (r: Self::Output) {
        let offset: [i32; 2] = rhs.into();
        Coord([self.0[0] - offset[0], self.0[1] - offset[1]])
    }
}

impl vstd::std_specs::ops::SubSpecImpl<Dir> for Coord {
    open spec fn obeys_sub_spec() -> bool {
        true
    }

    open spec fn sub_req(self, rhs: Dir) -> bool {
        step_fits(self, -dir_offset(rhs).0, -dir_offset(rhs).1)
    }

    open spec fn sub_spec(self, rhs: Dir) -> Coord {
        Coord(
            [
                (self.0[0] - dir_offset(rhs).0) as i32,
                (self.0[1] - dir_offset(rhs).1) as i32,
            ],
        )
    }
}

/// Stepping one cell in a direction and one cell back returns to the start.
pub proof fn lemma_step_back(c: Coord, d: Dir)
    requires
        c.add_req(d),
    ensures
        c.add_spec(d).sub_req(d),
        c.add_spec(d).sub_spec(d) == c,
{
    assert(c.add_spec(d).sub_spec(d).0 =~= c.0);
}

// ------------------------------------------------------------------------------------------
// The player
// ------------------------------------------------------------------------------------------

/// How many ticks of holding the jump key charge a jump fully.
pub const PLAYER_JUMP_CHARGE_LEVEL_MAX: u32 = 130;

/// What the player carries and how far a jump has been charged.
#[derive(Debug)]
pub struct Player {
    pub num_coffee_cups: i32,
    pub jump_charge_level: u32_bounded<PLAYER_JUMP_CHARGE_LEVEL_MAX>,
}

impl Clone for Player {
    fn clone(&self) -> (r: Self)
        ensures
            r.num_coffee_cups == self.num_coffee_cups,
            r.jump_charge_level@ == self.jump_charge_level@,
    {
        Player {
            num_coffee_cups: self.num_coffee_cups,
            jump_charge_level: self.jump_charge_level.clone(),
        }
    }
}

impl Default for Player {
    fn default() -> (r: Self)
        ensures
            r.num_coffee_cups == 0,
            r.jump_charge_level@ == 0,
    {
        Player { num_coffee_cups: 0, jump_charge_level: u32_bounded::default() }
    }
}

/// An item lying in the world that the player takes by walking up to it.
#[derive(Clone, Copy, PartialEq, Eq, Debug, Structural)]
pub enum ItemPickUp {
    CoffeeCup,
    GetFlashLight,
    HealthBoost(u32),
}

/// What picking up an item gives the player.
#[derive(Clone, Copy, PartialEq, Eq, Debug, Structural)]
pub enum PickUpReward {
    /// One more coffee cup; the new number of cups.
    CoffeeCups(i32),
    /// A flashlight to attach to the player's sprite.
    FlashLight,
}

impl Player {
    /// One tick of jump charging: holding the jump key raises the charge by one
    /// (up to the maximum), letting go of it resets the charge.
    pub fn charge_jump(&mut self, jump_held: bool)
        ensures
            final(self).num_coffee_cups == old(self).num_coffee_cups,
            final(self).jump_charge_level@ == if jump_held {
                if old(self).jump_charge_level@ + 1 <= PLAYER_JUMP_CHARGE_LEVEL_MAX {
                    old(self).jump_charge_level@ + 1
                } else {
                    PLAYER_JUMP_CHARGE_LEVEL_MAX as nat
                }
            } else {
                0
            },
    {
        if jump_held {
            self.jump_charge_level.next();
        } else {
            self.jump_charge_level = u32_bounded::default();
        }
    }

    /// Take an item: a coffee cup adds one to the player's cups, a flashlight is
    /// handed to the player. Health boosts are not part of the game yet.
    pub fn pick_up(&mut self, item: ItemPickUp) -> (r: PickUpReward)
        requires
            !(item is HealthBoost),
            item is CoffeeCup ==> old(self).num_coffee_cups < i32::MAX,
        ensures
            final(self).jump_charge_level@ == old(self).jump_charge_level@,
            item is CoffeeCup ==> {
                &&& final(self).num_coffee_cups == old(self).num_coffee_cups + 1
                &&& r == PickUpReward::CoffeeCups(final(self).num_coffee_cups)
            },
            item is GetFlashLight ==> {
                &&& final(self).num_coffee_cups == old(self).num_coffee_cups
                &&& r == PickUpReward::FlashLight
            },
    {
        match item {
            ItemPickUp::CoffeeCup => {
                self.num_coffee_cups = self.num_coffee_cups + 1;
                PickUpReward::CoffeeCups(self.num_coffee_cups)
            },
            _ => PickUpReward::FlashLight,
        }
    }
}

/// A sprite-sheet animation: `num_frames` frames, each shown for
/// `time_per_frame_in_ticks` ticks.
#[derive(Clone, Copy, PartialEq, Eq, Debug, Structural)]
pub struct TimedAnimation {
    pub num_frames: usize,
    pub time_per_frame_in_ticks: usize,
}

} // verus!
