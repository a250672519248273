//! Per-tick rules of the game world: the clock, fading messages, sprite
//! animations, the number dial and the floor of cubes that follows the player.
use vstd::prelude::*;
use crate::components::TimedAnimation;
use crate::voxels::BlockPos;
use bevy::ecs::entity::Entity;

verus! {

// ------------------------------------------------------------------------------------------
// The clock
// ------------------------------------------------------------------------------------------

/// Ticks since the game started.
#[derive(Clone, Copy, PartialEq, Eq, Debug, Default, Structural)]
pub struct TimeTicks(pub u32);

/// Advance the clock by one tick.
pub fn increment_time(time: &mut TimeTicks)
    requires
        old(time).0 < u32::MAX,
    ensures
        final(time).0 == old(time).0 + 1,
{
    time.0 = time.0 + 1;
}

// ------------------------------------------------------------------------------------------
// Messages
// ------------------------------------------------------------------------------------------

/// For how many ticks after the first a message stays up.
pub const MESSAGE_SHOW_TIME_TICKS: u32 = 230;

/// One tick of a message of age `age_ticks`: a message older than
/// `MESSAGE_SHOW_TIME_TICKS` is taken away (`true`); any other is shown for this
/// tick and grows one tick older (`false`).
pub fn show_message(age_ticks: &mut u32) -> (despawn: bool)
    ensures
        despawn == (*old(age_ticks) > MESSAGE_SHOW_TIME_TICKS),
        despawn ==> *final(age_ticks) == *old(age_ticks),
        !despawn ==> *final(age_ticks) == *old(age_ticks) + 1,
{
    if *age_ticks > MESSAGE_SHOW_TIME_TICKS {
        true
    } else {
        *age_ticks = *age_ticks + 1;
        false
    }
}

/// The age of a new message after `n` ticks, or `None` once it has been taken
/// away.
pub open spec fn message_age_after(n: nat) -> Option<nat>
    decreases n,
{
    if n == 0 {
        Some(0)
    } else {
        match message_age_after((n - 1) as nat) {
            Some(a) => if a > MESSAGE_SHOW_TIME_TICKS {
                None
            } else {
                Some(a + 1)
            },
            None => None,
        }
    }
}

/// A new message is shown on exactly `MESSAGE_SHOW_TIME_TICKS + 1` ticks and is
/// taken away on the tick after.
pub proof fn lemma_message_lifetime(n: nat)
    ensures
        message_age_after(n) == if n <= MESSAGE_SHOW_TIME_TICKS + 1 {
            Some(n)
        } else {
            None::<nat>
        },
    decreases n,
{
    if n > 0 {
        lemma_message_lifetime((n - 1) as nat);
    }
}

// ------------------------------------------------------------------------------------------
// Sprite animations
// ------------------------------------------------------------------------------------------

/// The frame an animation shows at tick `time`.
pub open spec fn animation_frame(anim: TimedAnimation, time: int) -> int {
    (time / (anim.time_per_frame_in_ticks as int)) % (anim.num_frames as int)
}

/// One tick of a sprite animation: when the frame for tick `time_ticks`
/// differs from the frame for the tick before (the tick before tick zero being
/// tick zero), the atlas index is set to the new frame; otherwise it is left.
pub fn timed_animation_system(time_ticks: &TimeTicks, animation: &TimedAnimation, atlas_index: &mut usize)
    requires
        animation.time_per_frame_in_ticks > 0,
        animation.num_frames > 0,
    ensures
        ({
            let t = time_ticks.0 as int;
            let previous = if t > 0 {
                t - 1
            } else {
                0
            };
            if animation_frame(*animation, t) != animation_frame(*animation, previous) {
                *final(atlas_index) == animation_frame(*animation, t)
            } else {
                *final(atlas_index) == *old(atlas_index)
            }
        }),
{
    let time = time_ticks.0 as usize;
    let old_index = (time.saturating_sub(1) / animation.time_per_frame_in_ticks) % animation.num_frames;
    let new_index = (time / animation.time_per_frame_in_ticks) % animation.num_frames;
    if new_index != old_index {
        *atlas_index = new_index;
    }
}

/// An animation shows a valid frame at every tick, and moves to another frame
/// exactly at the ticks that are positive multiples of the frame time, provided
/// it has more than one frame.
pub proof fn lemma_animation_frame_changes(anim: TimedAnimation, t: nat)
    requires
        anim.time_per_frame_in_ticks > 0,
        anim.num_frames > 0,
    ensures
        0 <= animation_frame(anim, t as int) < anim.num_frames,
        t > 0 ==> (animation_frame(anim, t as int) != animation_frame(anim, t - 1) <==> (t
            % (anim.time_per_frame_in_ticks as nat) == 0 && anim.num_frames > 1)),
{
    let d = anim.time_per_frame_in_ticks as int;
    let n = anim.num_frames as int;
    if t > 0 {
        let q = (t as int) / d;
        let p = (t - 1) / d;
        vstd::arithmetic::div_mod::lemma_fundamental_div_mod(t as int, d);
        vstd::arithmetic::div_mod::lemma_fundamental_div_mod(t - 1, d);
        if (t as int) % d == 0 {
            assert(p == q - 1) by (nonlinear_arith)
                requires
                    d > 0,
                    t as int == d * q + 0,
                    t - 1 == d * p + (t - 1) % d,
                    0 <= (t - 1) % d < d,
            ;
            if n > 1 {
                assert(q % n != (q - 1) % n) by {
                    vstd::arithmetic::div_mod::lemma_fundamental_div_mod(q, n);
                    vstd::arithmetic::div_mod::lemma_fundamental_div_mod(q - 1, n);
                    if q % n == (q - 1) % n {
                        assert(n * (q / n - (q - 1) / n) == 1) by (nonlinear_arith)
                            requires
                                q == n * (q / n) + q % n,
                                q - 1 == n * ((q - 1) / n) + (q - 1) % n,
                                q % n == (q - 1) % n,
                        ;
                        assert(false) by (nonlinear_arith)
                            requires
                                n > 1,
                                n * (q / n - (q - 1) / n) == 1,
                        ;
                    }
                }
            } else {
                assert(q % n == 0 && (q - 1) % n == 0);
            }
        } else {
            assert(p == q) by (nonlinear_arith)
                requires
                    d > 0,
                    t as int == d * q + (t as int) % d,
                    0 < (t as int) % d < d,
                    t - 1 == d * p + (t - 1) % d,
                    0 <= (t - 1) % d < d,
            ;
        }
    }
}

// ------------------------------------------------------------------------------------------
// The number dial
// ------------------------------------------------------------------------------------------

/// A dial showing a number that the player turns up and down when near it.
#[derive(Clone, Copy, PartialEq, Eq, Debug, Default, Structural)]
pub struct NumberThing(pub u8);

/// One tick of the dial: when the player is near, the up key adds one and the
/// down key takes one away, both wrapping around at the ends of `u8`.
pub fn number_thing(n: &mut NumberThing, player_near: bool, up_pressed: bool, down_pressed: bool)
    ensures
        ({
            let raised = if player_near && up_pressed {
                ((old(n).0 + 1) % 256) as u8
            } else {
                old(n).0
            };
            final(n).0 == if player_near && down_pressed {
                ((raised + 255) % 256) as u8
            } else {
                raised
            }
        }),
{
    if player_near {
        if up_pressed {
            n.0 = n.0.wrapping_add(1);
        }
        if down_pressed {
            n.0 = n.0.wrapping_sub(1);
        }
    }
}

/// Turning the dial up and then down (or down and then up) leaves it where it was.
pub proof fn lemma_number_thing_up_down(v: u8)
    ensures
        ((((v + 1) % 256) as u8 + 255) % 256) as u8 == v,
        ((((v + 255) % 256) as u8 + 1) % 256) as u8 == v,
{
}

// ------------------------------------------------------------------------------------------
// The floor of cubes around the player
// ------------------------------------------------------------------------------------------

/// How far from the player, in blocks, the floor of cubes reaches.
pub const CRAZY_CUBES_DIST: i32 = 8;

/// The height at which the floor of cubes lies.
pub const CRAZY_CUBES_ALTITUDE: i32 = -70;

/// Whether `p` is one of the cubes of the floor around the cell
/// `(center_x, center_z)`: at the floor's height and at most
/// `CRAZY_CUBES_DIST` away horizontally.
pub open spec fn in_cube_disc(center_x: int, center_z: int, p: BlockPos) -> bool {
    let dx = p.0 - center_x;
    let dz = p.2 - center_z;
    &&& p.1 == CRAZY_CUBES_ALTITUDE
    &&& dx * dx + dz * dz <= CRAZY_CUBES_DIST * CRAZY_CUBES_DIST
}

/// The cubes of the floor around `(center_x, center_z)`.
pub open spec fn cube_disc_set(center_x: int, center_z: int) -> Set<BlockPos> {
    Set::new(|p: BlockPos| in_cube_disc(center_x, center_z, p))
}

/// Whether the floor around `(center_x, center_z)` stays within `i32`.
pub open spec fn cube_disc_fits(center_x: i32, center_z: i32) -> bool {
    &&& i32::MIN + CRAZY_CUBES_DIST <= center_x <= i32::MAX - CRAZY_CUBES_DIST
    &&& i32::MIN + CRAZY_CUBES_DIST <= center_z <= i32::MAX - CRAZY_CUBES_DIST
}

proof fn lemma_disc_offsets(dx: int, dz: int)
    requires
        dx * dx + dz * dz <= 64,
    ensures
        -8 <= dx <= 8,
        -8 <= dz <= 8,
{
    assert(-8 <= dx <= 8 && -8 <= dz <= 8) by (nonlinear_arith)
        requires
            dx * dx + dz * dz <= 64,
    ;
}

/// Every cube of the floor around `(center_x, center_z)`, each once.
pub fn cube_disc(center_x: i32, center_z: i32) -> (r: Vec<BlockPos>)
    requires
        cube_disc_fits(center_x, center_z),
    ensures
        r@.no_duplicates(),
        r@.to_set() == cube_disc_set(center_x as int, center_z as int),
{
    let mut out: Vec<BlockPos> = Vec::new();
    let mut a: i32 = -CRAZY_CUBES_DIST;
    proof {
        assert forall|q: BlockPos| out@.contains(q) <==> (in_cube_disc(center_x as int, center_z as int, q) && q.0 - center_x < a) by {
            if in_cube_disc(center_x as int, center_z as int, q) {
                lemma_disc_offsets(q.0 - center_x, q.2 - center_z);
            }
        }
    }
    while a <= CRAZY_CUBES_DIST
        invariant
            cube_disc_fits(center_x, center_z),
            -8 <= a <= 9,
            out@.no_duplicates(),
            forall|p: BlockPos|
                out@.contains(p) <==> (in_cube_disc(center_x as int, center_z as int, p) && p.0
                    - center_x < a),
        decreases 9 - a,
    {
        let mut b: i32 = -CRAZY_CUBES_DIST;
        proof {
            assert forall|q: BlockPos| out@.contains(q) <==> (in_cube_disc(center_x as int, center_z as int, q) && (q.0 - center_x < a || (q.0 - center_x == a && q.2 - center_z < b))) by {
                if in_cube_disc(center_x as int, center_z as int, q) {
                    lemma_disc_offsets(q.0 - center_x, q.2 - center_z);
                }
            }
        }
        while b <= CRAZY_CUBES_DIST
            invariant
                cube_disc_fits(center_x, center_z),
                -8 <= a <= 8,
                -8 <= b <= 9,
                out@.no_duplicates(),
                forall|p: BlockPos|
                    out@.contains(p) <==> (in_cube_disc(center_x as int, center_z as int, p) && (p.0
                        - center_x < a || (p.0 - center_x == a && p.2 - center_z < b))),
            decreases 9 - b,
        {
            let p: BlockPos = (center_x + a, CRAZY_CUBES_ALTITUDE, center_z + b);
            let ghost before = out@;
            proof {
                assert(0 <= a * a <= 64 && 0 <= b * b <= 64) by (nonlinear_arith)
                    requires
                        -8 <= a <= 8,
                        -8 <= b <= 8,
                ;
            }
            if a * a + b * b <= CRAZY_CUBES_DIST * CRAZY_CUBES_DIST {
                out.push(p);
                proof {
                    assert(!before.contains(p));
                    assert forall|q: BlockPos| out@.contains(q) <==> (in_cube_disc(center_x as int, center_z as int, q) && (q.0 - center_x < a || (q.0 - center_x == a && q.2 - center_z < b + 1))) by {
                        if out@.contains(q) {
                            let k = choose|k: int| 0 <= k < out.len() && out@[k] == q;
                            if k < before.len() {
                                assert(before.contains(q));
                            }
                        }
                        if before.contains(q) {
                            let k = choose|k: int| 0 <= k < before.len() && before[k] == q;
                            assert(out@[k] == q);
                        }
                        if q == p {
                            assert(out@[out.len() - 1] == q);
                        }
                    }
                    assert forall|i: int, j: int| 0 <= i < out.len() && 0 <= j < out.len() && i != j implies out@[i] != out@[j] by {
                        if i < before.len() && j < before.len() {
                        } else if i < before.len() {
                            assert(before.contains(out@[i]));
                        } else if j < before.len() {
                            assert(before.contains(out@[j]));
                        }
                    }
                }
            } else {
                proof {
                    assert forall|q: BlockPos| out@.contains(q) <==> (in_cube_disc(center_x as int, center_z as int, q) && (q.0 - center_x < a || (q.0 - center_x == a && q.2 - center_z < b + 1))) by {
                        if in_cube_disc(center_x as int, center_z as int, q) && q.0 - center_x == a && q.2 - center_z == b {
                            assert(false);
                        }
                    }
                }
            }
            b = b + 1;
        }
        proof {
            assert forall|q: BlockPos| out@.contains(q) <==> (in_cube_disc(center_x as int, center_z as int, q) && q.0 - center_x < a + 1) by {
                if in_cube_disc(center_x as int, center_z as int, q) {
                    lemma_disc_offsets(q.0 - center_x, q.2 - center_z);
                }
            }
        }
        a = a + 1;
    }
    proof {
        assert forall|q: BlockPos| out@.contains(q) <==> in_cube_disc(center_x as int, center_z as int, q) by {
            if in_cube_disc(center_x as int, center_z as int, q) {
                lemma_disc_offsets(q.0 - center_x, q.2 - center_z);
            }
        }
        assert(out@.to_set() =~= cube_disc_set(center_x as int, center_z as int));
    }
    out
}

/// The cubes of the floor that exist, each with the entity that shows it, held
/// in the engine's hash map.
#[verifier::external_body]
pub struct CrazyCubes {
    map: bevy::utils::HashMap<BlockPos, Entity>,
}

/// The cubes a `CrazyCubes` holds, by position.
pub uninterp spec fn crazy_cubes_contents(c: CrazyCubes) -> Map<BlockPos, Entity>;

impl CrazyCubes {
    /// No cubes (`HashMap::default`).
    #[verifier::external_body]
    fn new() -> (r: CrazyCubes)
        ensures
            crazy_cubes_contents(r) =~= Map::empty(),
    {
        CrazyCubes { map: bevy::utils::HashMap::default() }
    }

    /// `HashMap::keys`, collected: the positions of the cubes, each once, in the
    /// order the map is walked (which is left open).
    #[verifier::external_body]
    fn positions(&self) -> (r: Vec<BlockPos>)
        ensures
            r@.no_duplicates(),
            r@.to_set() == crazy_cubes_contents(*self).dom(),
    {
        self.map.keys().copied().collect()
    }

    /// `HashMap::contains_key`: whether there is a cube at `p`.
    #[verifier::external_body]
    fn contains(&self, p: BlockPos) -> (r: bool)
        ensures
            r == crazy_cubes_contents(*self).dom().contains(p),
    {
        self.map.contains_key(&p)
    }

    /// `HashMap::remove`: takes the cube at `p` out, returning its entity.
    #[verifier::external_body]
    fn remove(&mut self, p: BlockPos) -> (r: Option<Entity>)
        ensures
            crazy_cubes_contents(*final(self)) == crazy_cubes_contents(*old(self)).remove(p),
            r == if crazy_cubes_contents(*old(self)).dom().contains(p) {
                Some(crazy_cubes_contents(*old(self))[p])
            } else {
                None::<Entity>
            },
    {
        self.map.remove(&p)
    }

    /// `HashMap::insert`: records the cube at `p`, returning the entity it replaces.
    #[verifier::external_body]
    fn insert(&mut self, p: BlockPos, e: Entity) -> (r: Option<Entity>)
        ensures
            crazy_cubes_contents(*final(self)) == crazy_cubes_contents(*old(self)).insert(p, e),
            r == if crazy_cubes_contents(*old(self)).dom().contains(p) {
                Some(crazy_cubes_contents(*old(self))[p])
            } else {
                None::<Entity>
            },
    {
        self.map.insert(p, e)
    }

    /// Record cubes that have just been spawned, each at its position.
    pub fn add_spawned(&mut self, spawned: Vec<(BlockPos, Entity)>)
        ensures
            crazy_cubes_contents(*final(self)) == insert_all(crazy_cubes_contents(*old(self)), spawned@),
    {
        let mut i: usize = 0;
        while i < spawned.len()
            invariant
                i <= spawned.len(),
                crazy_cubes_contents(*self) == insert_all(crazy_cubes_contents(*old(self)), spawned@.take(i as int)),
            decreases spawned.len() - i,
        {
            proof {
                assert(spawned@.take(i as int + 1).drop_last() =~= spawned@.take(i as int));
            }
            let (p, e) = spawned[i];
            self.insert(p, e);
            i = i + 1;
        }
        proof {
            assert(spawned@.take(spawned.len() as int) =~= spawned@);
        }
    }
}

impl Default for CrazyCubes {
    /// No cubes.
    fn default() -> (r: Self)
        ensures
            crazy_cubes_contents(r) == Map::<BlockPos, Entity>::empty(),
    {
        CrazyCubes::new()
    }
}

/// `m` with each of `entries` inserted, first to last.
pub open spec fn insert_all(m: Map<BlockPos, Entity>, entries: Seq<(BlockPos, Entity)>) -> Map<BlockPos, Entity>
    decreases entries.len(),
{
    if entries.len() == 0 {
        m
    } else {
        insert_all(m, entries.drop_last()).insert(entries.last().0, entries.last().1)
    }
}

/// A set of cube positions, held in the engine's hash set.
#[verifier::external_body]
pub struct CubeSet {
    set: bevy::utils::HashSet<BlockPos>,
}

/// The positions a `CubeSet` holds.
pub uninterp spec fn cube_set_contents(s: CubeSet) -> Set<BlockPos>;

impl CubeSet {
    /// An empty set (`HashSet::default`).
    #[verifier::external_body]
    fn new() -> (r: CubeSet)
        ensures
            cube_set_contents(r) =~= Set::empty(),
    {
        CubeSet { set: bevy::utils::HashSet::default() }
    }

    /// `HashSet::insert`: adds `p`, returning whether it was not there yet.
    #[verifier::external_body]
    fn insert(&mut self, p: BlockPos) -> (r: bool)
        ensures
            cube_set_contents(*final(self)) == cube_set_contents(*old(self)).insert(p),
            r == !cube_set_contents(*old(self)).contains(p),
    {
        self.set.insert(p)
    }

    /// `HashSet::contains`: whether `p` is in the set.
    #[verifier::external_body]
    fn contains(&self, p: BlockPos) -> (r: bool)
        ensures
            r == cube_set_contents(*self).contains(p),
    {
        self.set.contains(&p)
    }

    /// `HashSet::iter`, collected: the positions of the set, each once, in the
    /// order the set is walked (which is left open).
    #[verifier::external_body]
    fn elements(&self) -> (r: Vec<BlockPos>)
        ensures
            r@.no_duplicates(),
            r@.to_set() == cube_set_contents(*self),
    {
        self.set.iter().copied().collect()
    }
}

/// The cubes of the floor around `(center_x, center_z)`, collected into a set.
fn cube_disc_positions(center_x: i32, center_z: i32) -> (r: CubeSet)
    requires
        cube_disc_fits(center_x, center_z),
    ensures
        cube_set_contents(r) == cube_disc_set(center_x as int, center_z as int),
{
    let list = cube_disc(center_x, center_z);
    let mut set = CubeSet::new();
    let mut i: usize = 0;
    while i < list.len()
        invariant
            i <= list.len(),
            cube_set_contents(set) == list@.take(i as int).to_set(),
        decreases list.len() - i,
    {
        let p = list[i];
        proof {
            assert(list@.take(i as int + 1) =~= list@.take(i as int).push(p));
            lemma_push_contains(list@.take(i as int), p);
        }
        set.insert(p);
        proof {
            assert(cube_set_contents(set) =~= list@.take(i as int + 1).to_set());
        }
        i = i + 1;
    }
    proof {
        assert(list@.take(list.len() as int) =~= list@);
    }
    set
}

/// What one tick of the floor of cubes asks of the engine.
pub struct CubesUpdate {
    /// Cubes taken out of the floor, with their entities, to despawn.
    pub removed: Vec<(BlockPos, Entity)>,
    /// Positions of cubes to spawn and then record with `add_spawned`.
    pub to_add: Vec<BlockPos>,
}

/// One tick of the floor of cubes around the cell `(center_x, center_z)` where
/// the player stands: cubes outside the floor's reach are taken out of `cubes`
/// and handed back for despawning, and the positions within reach that have no
/// cube yet are handed back for spawning.
pub fn crazy_cubes(cubes: &mut CrazyCubes, center_x: i32, center_z: i32) -> (r: CubesUpdate)
    requires
        cube_disc_fits(center_x, center_z),
    ensures
        crazy_cubes_contents(*final(cubes)) == crazy_cubes_contents(*old(cubes)).restrict(
            cube_disc_set(center_x as int, center_z as int),
        ),
        r.removed@.map_values(|e: (BlockPos, Entity)| e.0).no_duplicates(),
        r.removed@.map_values(|e: (BlockPos, Entity)| e.0).to_set() == crazy_cubes_contents(
            *old(cubes),
        ).dom().difference(cube_disc_set(center_x as int, center_z as int)),
        forall|i: int|
            0 <= i < r.removed.len() ==> (#[trigger] r.removed@[i]).1 == crazy_cubes_contents(
                *old(cubes),
            )[r.removed@[i].0],
        r.to_add@.no_duplicates(),
        r.to_add@.to_set() == cube_disc_set(center_x as int, center_z as int).difference(
            crazy_cubes_contents(*old(cubes)).dom(),
        ),
{
    let ghost before = crazy_cubes_contents(*cubes);
    let ghost disc = cube_disc_set(center_x as int, center_z as int);
    let desired_set = cube_disc_positions(center_x, center_z);
    let present = cubes.positions();

    // Positions of cubes that are out of reach.
    let mut stale: Vec<BlockPos> = Vec::new();
    let mut i: usize = 0;
    while i < present.len()
        invariant
            i <= present.len(),
            present@.no_duplicates(),
            cube_set_contents(desired_set) == cube_disc_set(center_x as int, center_z as int),
            stale@.no_duplicates(),
            forall|p: BlockPos|
                stale@.contains(p) <==> (present@.take(i as int).contains(p) && !in_cube_disc(
                    center_x as int,
                    center_z as int,
                    p,
                )),
        decreases present.len() - i,
    {
        let p = present[i];
        let ghost old_stale = stale@;
        proof {
            assert(present@.take(i as int + 1) =~= present@.take(i as int).push(p));
            lemma_push_contains(present@.take(i as int), p);
            lemma_push_contains(old_stale, p);
            if present@.take(i as int).contains(p) {
                let k = choose|k: int| 0 <= k < i && present@.take(i as int)[k] == p;
                assert(present@[k] == present@[i as int]);
            }
        }
        let within = desired_set.contains(p);
        proof {
            assert(within == in_cube_disc(center_x as int, center_z as int, p));
        }
        if !within {
            stale.push(p);
            proof {
                lemma_push_keeps_distinct(old_stale, p);
            }
        }
        i = i + 1;
    }
    proof {
        assert(present@.take(present.len() as int) =~= present@);
    }

    // Positions within reach that have no cube yet.
    let desired = desired_set.elements();
    let mut to_add: Vec<BlockPos> = Vec::new();
    let mut j: usize = 0;
    while j < desired.len()
        invariant
            j <= desired.len(),
            desired@.no_duplicates(),
            crazy_cubes_contents(*cubes) == before,
            to_add@.no_duplicates(),
            forall|p: BlockPos|
                to_add@.contains(p) <==> (desired@.take(j as int).contains(p) && !before.dom().contains(p)),
        decreases desired.len() - j,
    {
        let p = desired[j];
        let ghost old_add = to_add@;
        proof {
            assert(desired@.take(j as int + 1) =~= desired@.take(j as int).push(p));
            lemma_push_contains(desired@.take(j as int), p);
            lemma_push_contains(old_add, p);
            if desired@.take(j as int).contains(p) {
                let k = choose|k: int| 0 <= k < j && desired@.take(j as int)[k] == p;
                assert(desired@[k] == desired@[j as int]);
            }
        }
        if !cubes.contains(p) {
            to_add.push(p);
            proof {
                lemma_push_keeps_distinct(old_add, p);
            }
        }
        j = j + 1;
    }
    proof {
        assert(desired@.take(desired.len() as int) =~= desired@);
        assert forall|p: BlockPos| desired@.contains(p) <==> disc.contains(p) by {
            assert(desired@.to_set().contains(p) == desired@.contains(p));
        }
    }

    // Take the stale cubes out.
    let mut removed: Vec<(BlockPos, Entity)> = Vec::new();
    let mut k: usize = 0;
    while k < stale.len()
        invariant
            k <= stale.len(),
            stale@.no_duplicates(),
            forall|p: BlockPos| stale@.contains(p) ==> before.dom().contains(p),
            crazy_cubes_contents(*cubes) == before.remove_keys(stale@.take(k as int).to_set()),
            removed.len() == k,
            forall|m: int| 0 <= m < k ==> (#[trigger] removed@[m]).0 == stale@[m] && removed@[m].1 == before[stale@[m]],
        decreases stale.len() - k,
    {
        let p = stale[k];
        proof {
            assert(stale@.contains(p));
            assert(!stale@.take(k as int).contains(p)) by {
                if stale@.take(k as int).contains(p) {
                    let m = choose|m: int| 0 <= m < k && stale@.take(k as int)[m] == p;
                    assert(stale@[m] == stale@[k as int]);
                }
            }
            assert(stale@.take(k as int + 1) =~= stale@.take(k as int).push(p));
            lemma_push_contains(stale@.take(k as int), p);
            assert(stale@.take(k as int + 1).to_set() =~= stale@.take(k as int).to_set().insert(p));
        }
        let e = cubes.remove(p);
        let e = e.unwrap();
        removed.push((p, e));
        proof {
            assert(before.remove_keys(stale@.take(k as int).to_set()).remove(p) =~= before.remove_keys(
                stale@.take(k as int + 1).to_set(),
            ));
        }
        k = k + 1;
    }
    proof {
        assert(stale@.take(stale.len() as int) =~= stale@);
        assert(stale@.to_set() =~= before.dom().difference(disc));
        assert(before.remove_keys(stale@.to_set()) =~= before.restrict(disc));
        assert(removed@.map_values(|e: (BlockPos, Entity)| e.0) =~= stale@);
        assert(to_add@.to_set() =~= disc.difference(before.dom()));
    }
    CubesUpdate { removed, to_add }
}

proof fn lemma_push_contains<A>(s: Seq<A>, x: A)
    ensures
        forall|p: A| #[trigger] s.push(x).contains(p) <==> (s.contains(p) || p == x),
{
    assert forall|p: A| #[trigger] s.push(x).contains(p) <==> (s.contains(p) || p == x) by {
        if s.push(x).contains(p) {
            let k = choose|k: int| 0 <= k < s.len() + 1 && s.push(x)[k] == p;
            if k < s.len() {
                assert(s[k] == p);
            }
        }
        if s.contains(p) {
            let k = choose|k: int| 0 <= k < s.len() && s[k] == p;
            assert(s.push(x)[k] == p);
        }
        if p == x {
            assert(s.push(x)[s.len() as int] == p);
        }
    }
}

proof fn lemma_push_keeps_distinct(s: Seq<BlockPos>, p: BlockPos)
    requires
        s.no_duplicates(),
        !s.contains(p),
    ensures
        s.push(p).no_duplicates(),
{
    assert forall|i: int, j: int| 0 <= i < s.len() + 1 && 0 <= j < s.len() + 1 && i != j implies s.push(p)[i] != s.push(p)[j] by {
        if i == s.len() {
            assert(s[j] != p);
        } else if j == s.len() {
            assert(s[i] != p);
        }
    }
}

/// After a tick of the floor of cubes and the recording of the cubes it asked
/// to spawn, the cubes are exactly the floor around the player.
pub proof fn lemma_cubes_follow_player(
    before: Map<BlockPos, Entity>,
    center_x: int,
    center_z: int,
    to_add: Seq<BlockPos>,
    spawned: Seq<(BlockPos, Entity)>,
)
    requires
        to_add.to_set() == cube_disc_set(center_x, center_z).difference(before.dom()),
        spawned.map_values(|e: (BlockPos, Entity)| e.0) == to_add,
    ensures
        insert_all(before.restrict(cube_disc_set(center_x, center_z)), spawned).dom()
            == cube_disc_set(center_x, center_z),
{
    lemma_insert_all_dom(before.restrict(cube_disc_set(center_x, center_z)), spawned);
    assert forall|p: BlockPos| #[trigger] cube_disc_set(center_x, center_z).contains(p) implies
        before.restrict(cube_disc_set(center_x, center_z)).dom().contains(p) || spawned.map_values(|e: (BlockPos, Entity)| e.0).contains(p) by {
        if !before.dom().contains(p) {
            assert(to_add.to_set().contains(p));
        }
    }
    assert forall|p: BlockPos| spawned.map_values(|e: (BlockPos, Entity)| e.0).contains(p) implies #[trigger] cube_disc_set(center_x, center_z).contains(p) by {
        assert(to_add.contains(p));
        assert(to_add.to_set().contains(p));
    }
    assert(insert_all(before.restrict(cube_disc_set(center_x, center_z)), spawned).dom() =~= cube_disc_set(center_x, center_z));
}

/// Once the cubes are exactly the floor around the player, a tick at the same
/// place changes nothing: no cube is taken out, none is asked for, and the
/// cubes stay as they are.
pub proof fn lemma_cubes_settled(
    before: Map<BlockPos, Entity>,
    center_x: int,
    center_z: int,
    removed: Seq<BlockPos>,
    to_add: Seq<BlockPos>,
)
    requires
        before.dom() == cube_disc_set(center_x, center_z),
        removed.to_set() == before.dom().difference(cube_disc_set(center_x, center_z)),
        to_add.to_set() == cube_disc_set(center_x, center_z).difference(before.dom()),
    ensures
        before.restrict(cube_disc_set(center_x, center_z)) == before,
        removed.len() == 0,
        to_add.len() == 0,
{
    let disc = cube_disc_set(center_x, center_z);
    assert(before.restrict(disc) =~= before);
    if removed.len() > 0 {
        assert(removed.to_set().contains(removed[0]));
    }
    if to_add.len() > 0 {
        assert(to_add.to_set().contains(to_add[0]));
    }
}

proof fn lemma_insert_all_dom(m: Map<BlockPos, Entity>, entries: Seq<(BlockPos, Entity)>)
    ensures
        forall|p: BlockPos|
            #[trigger] insert_all(m, entries).dom().contains(p) <==> (m.dom().contains(p)
                || entries.map_values(|e: (BlockPos, Entity)| e.0).contains(p)),
    decreases entries.len(),
{
    let keys = entries.map_values(|e: (BlockPos, Entity)| e.0);
    if entries.len() > 0 {
        lemma_insert_all_dom(m, entries.drop_last());
        let dk = entries.drop_last().map_values(|e: (BlockPos, Entity)| e.0);
        assert(keys =~= dk.push(entries.last().0));
        lemma_push_contains(dk, entries.last().0);
        assert forall|p: BlockPos| #[trigger] insert_all(m, entries).dom().contains(p) <==> (m.dom().contains(p) || keys.contains(p)) by {
            assert(insert_all(m, entries) == insert_all(m, entries.drop_last()).insert(entries.last().0, entries.last().1));
            assert(insert_all(m, entries.drop_last()).dom().contains(p) <==> (m.dom().contains(p) || dk.contains(p)));
        }
    } else {
        assert forall|p: BlockPos| #[trigger] insert_all(m, entries).dom().contains(p) <==> (m.dom().contains(p) || keys.contains(p)) by {
            if keys.contains(p) {
                let k = choose|k: int| 0 <= k < keys.len() && keys[k] == p;
            }
        }
    }
}

} // verus!
