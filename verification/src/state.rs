//! The state of a simulation: the particle arrays, the grid built over
//! them and the scheduler that paces them.
//!
//! A particle is an index. Its position, its predicted position, its
//! velocity and its density stand at that index in four arrays of one
//! length, which never changes: no particle is added, dropped or moved to
//! another index. What a position or a density is made of is the caller's
//! choice; the state keeps the values in step and leaves the arithmetic on
//! them to the caller. To the grid the caller hands the positions as whole
//! numbers of a unit of its choice, and the smoothing radius in that unit.

use vstd::prelude::*;
use crate::cell::{within, WorldPos};
use crate::grid::{neighbours, SpatialHashGrid};
use crate::schedule::{leftover_after, lemma_no_time_no_tick, ticks_due, FixedStepScheduler};

verus! {

/// Ticks per second of simulated time.
pub const TICK_RATE: u64 = 30;

/// The length of one tick in nanoseconds.
pub const TICK_DELTA: u64 = 1_000_000_000 / TICK_RATE;

/// Makes a vector that holds `value` at each of `count` places.
fn filled<T: Copy>(value: T, count: usize) -> (items: Vec<T>)
    ensures
        items.len() == count,
        forall|i: int| 0 <= i < count ==> items[i] == value,
{
    let mut items: Vec<T> = Vec::new();
    let mut i: usize = 0;
    while i < count
        invariant
            i <= count,
            items.len() == i,
            forall|j: int| 0 <= j < i ==> items[j] == value,
        decreases count - i,
    {
        items.push(value);
        i = i + 1;
    }
    items
}

/// A particle ensemble with its spatial grid and its scheduler. `V` is the
/// type of a position or velocity, `S` the type of a density.
pub struct State<V, S> {
    positions: Vec<V>,
    predicted_positions: Vec<V>,
    velocities: Vec<V>,
    densities: Vec<S>,
    grid: SpatialHashGrid,
    scheduler: FixedStepScheduler,
}

impl<V, S> State<V, S> {
    /// The number of particles.
    pub closed spec fn spec_particle_count(&self) -> usize {
        self.positions.len()
    }

    /// The positions, by particle.
    pub closed spec fn spec_positions(&self) -> &Vec<V> {
        &self.positions
    }

    /// The positions that the particles are expected to reach, by particle.
    pub closed spec fn spec_predicted_positions(&self) -> &Vec<V> {
        &self.predicted_positions
    }

    /// The velocities, by particle.
    pub closed spec fn spec_velocities(&self) -> &Vec<V> {
        &self.velocities
    }

    /// The densities, by particle.
    pub closed spec fn spec_densities(&self) -> &Vec<S> {
        &self.densities
    }

    /// The positions under which the grid files the particles: none before
    /// the first call of `update_spatial_lookup`, after that the positions
    /// given to the last call.
    pub closed spec fn filed(&self) -> Seq<WorldPos> {
        self.grid@
    }

    /// The smoothing radius: how far a particle reaches, and the width of a
    /// cell of the grid.
    pub closed spec fn spec_smoothing_radius(&self) -> i32 {
        self.grid.cell_size()
    }

    /// The time that the scheduler has not yet handed out as a tick, in
    /// nanoseconds.
    pub closed spec fn spec_leftover(&self) -> u64 {
        self.scheduler.leftover()
    }

    /// The grid and the scheduler are sound, and the grid has one key for
    /// each particle.
    pub closed spec fn parts_wf(&self) -> bool {
        &&& self.grid.wf()
        &&& self.grid.table_size() == self.positions.len()
        &&& self.scheduler.wf()
        &&& self.scheduler.tick_length() == TICK_DELTA
    }

    /// There is a particle, and particles reach some way; the four arrays
    /// hold one value for each particle; the grid files all particles or
    /// none; and less than a tick of time is left over.
    pub open spec fn wf(&self) -> bool {
        &&& self.particle_count() > 0
        &&& self.smoothing_radius() > 0
        &&& self.positions()@.len() == self.particle_count()
        &&& self.predicted_positions()@.len() == self.particle_count()
        &&& self.velocities()@.len() == self.particle_count()
        &&& self.densities()@.len() == self.particle_count()
        &&& self.filed().len() == 0 || self.filed().len() == self.particle_count()
        &&& self.leftover() < TICK_DELTA
        &&& self.parts_wf()
    }

    /// Makes the state of the particles at `positions`, which reach as far
    /// as `smoothing_radius`. Every velocity and every predicted position
    /// is `at_rest`, every density `no_density`; the grid files nothing
    /// yet, and no time is left over.
    pub fn new(positions: Vec<V>, at_rest: V, no_density: S, smoothing_radius: i32) -> (state:
        State<V, S>) where
        V: Copy,
        S: Copy,

        requires
            positions.len() > 0,
            smoothing_radius > 0,
        ensures
            state.wf(),
            state.particle_count() == positions.len(),
            state.smoothing_radius() == smoothing_radius,
            state.positions()@ == positions@,
            forall|i: int| 0 <= i < positions.len() ==> state.predicted_positions()@[i] == at_rest,
            forall|i: int| 0 <= i < positions.len() ==> state.velocities()@[i] == at_rest,
            forall|i: int| 0 <= i < positions.len() ==> state.densities()@[i] == no_density,
            state.filed() == Seq::<WorldPos>::empty(),
            state.leftover() == 0,
    {
        let count: usize = positions.len();
        State {
            positions,
            predicted_positions: filled(at_rest, count),
            velocities: filled(at_rest, count),
            densities: filled(no_density, count),
            grid: SpatialHashGrid::new(count, smoothing_radius),
            scheduler: FixedStepScheduler::new(TICK_DELTA),
        }
    }

    /// The smoothing radius, in the unit of the positions that are handed
    /// to the grid.
    #[verifier::when_used_as_spec(spec_smoothing_radius)]
    pub fn smoothing_radius(&self) -> (radius: i32)
        ensures
            radius == self.spec_smoothing_radius(),
    {
        self.grid.cell_size()
    }

    /// The number of particles.
    #[verifier::when_used_as_spec(spec_particle_count)]
    pub fn particle_count(&self) -> (count: usize)
        ensures
            count == self.spec_particle_count(),
    {
        self.positions.len()
    }

    /// The positions, by particle.
    #[verifier::when_used_as_spec(spec_positions)]
    pub fn positions(&self) -> (items: &Vec<V>)
        ensures
            items == self.spec_positions(),
    {
        &self.positions
    }

    /// The positions that the particles are expected to reach, by particle.
    #[verifier::when_used_as_spec(spec_predicted_positions)]
    pub fn predicted_positions(&self) -> (items: &Vec<V>)
        ensures
            items == self.spec_predicted_positions(),
    {
        &self.predicted_positions
    }

    /// The velocities, by particle.
    #[verifier::when_used_as_spec(spec_velocities)]
    pub fn velocities(&self) -> (items: &Vec<V>)
        ensures
            items == self.spec_velocities(),
    {
        &self.velocities
    }

    /// The densities, by particle.
    #[verifier::when_used_as_spec(spec_densities)]
    pub fn densities(&self) -> (items: &Vec<S>)
        ensures
            items == self.spec_densities(),
    {
        &self.densities
    }

    /// The time that the scheduler has not yet handed out as a tick, in
    /// nanoseconds.
    #[verifier::when_used_as_spec(spec_leftover)]
    pub fn leftover(&self) -> (rest: u64)
        ensures
            rest == self.spec_leftover(),
    {
        self.scheduler.leftover()
    }

    /// Everything but the arrays is as it was in `before`.
    pub open spec fn same_frame(&self, before: &Self) -> bool {
        &&& self.particle_count() == before.particle_count()
        &&& self.smoothing_radius() == before.smoothing_radius()
        &&& self.filed() == before.filed()
        &&& self.leftover() == before.leftover()
    }

    /// Moves the particle `particle` to `position`.
    pub fn set_position(&mut self, particle: usize, position: V)
        requires
            old(self).wf(),
            particle < old(self).particle_count(),
        ensures
            final(self).wf(),
            final(self).same_frame(old(self)),
            final(self).positions()@ == old(self).positions()@.update(particle as int, position),
            final(self).predicted_positions()@ == old(self).predicted_positions()@,
            final(self).velocities()@ == old(self).velocities()@,
            final(self).densities()@ == old(self).densities()@,
    {
        self.positions.set(particle, position);
    }

    /// Sets the position that the particle `particle` is expected to reach.
    pub fn set_predicted_position(&mut self, particle: usize, position: V)
        requires
            old(self).wf(),
            particle < old(self).particle_count(),
        ensures
            final(self).wf(),
            final(self).same_frame(old(self)),
            final(self).positions()@ == old(self).positions()@,
            final(self).predicted_positions()@ == old(self).predicted_positions()@.update(
                particle as int,
                position,
            ),
            final(self).velocities()@ == old(self).velocities()@,
            final(self).densities()@ == old(self).densities()@,
    {
        self.predicted_positions.set(particle, position);
    }

    /// Sets the velocity of the particle `particle`.
    pub fn set_velocity(&mut self, particle: usize, velocity: V)
        requires
            old(self).wf(),
            particle < old(self).particle_count(),
        ensures
            final(self).wf(),
            final(self).same_frame(old(self)),
            final(self).positions()@ == old(self).positions()@,
            final(self).predicted_positions()@ == old(self).predicted_positions()@,
            final(self).velocities()@ == old(self).velocities()@.update(particle as int, velocity),
            final(self).densities()@ == old(self).densities()@,
    {
        self.velocities.set(particle, velocity);
    }

    /// Sets the density at the particle `particle`.
    pub fn set_density(&mut self, particle: usize, density: S)
        requires
            old(self).wf(),
            particle < old(self).particle_count(),
        ensures
            final(self).wf(),
            final(self).same_frame(old(self)),
            final(self).positions()@ == old(self).positions()@,
            final(self).predicted_positions()@ == old(self).predicted_positions()@,
            final(self).velocities()@ == old(self).velocities()@,
            final(self).densities()@ == old(self).densities()@.update(particle as int, density),
    {
        self.densities.set(particle, density);
    }

    /// The arrays are as they were in `before`.
    pub open spec fn same_particles(&self, before: &Self) -> bool {
        &&& self.particle_count() == before.particle_count()
        &&& self.smoothing_radius() == before.smoothing_radius()
        &&& self.positions()@ == before.positions()@
        &&& self.predicted_positions()@ == before.predicted_positions()@
        &&& self.velocities()@ == before.velocities()@
        &&& self.densities()@ == before.densities()@
    }

    /// Rebuilds the grid: `world_positions` holds the position of every
    /// particle, in particle order.
    pub fn update_spatial_lookup(&mut self, world_positions: &Vec<WorldPos>)
        requires
            old(self).wf(),
            world_positions.len() == old(self).particle_count(),
        ensures
            final(self).wf(),
            final(self).same_particles(old(self)),
            final(self).leftover() == old(self).leftover(),
            final(self).filed() == world_positions@,
    {
        self.grid.update_spatial_lookup(world_positions);
    }

    /// Finds the particles within the smoothing radius of `world_pos`, as
    /// the grid has them filed: see `neighbours`. They are exactly the
    /// filed particles that are no farther from `world_pos` than the
    /// smoothing radius, which a search through all particles would find,
    /// each once.
    pub fn get_neighbours_by_pos(&self, world_pos: WorldPos) -> (found: Vec<usize>)
        requires
            self.wf(),
        ensures
            found@ == neighbours(
                self.filed(),
                self.particle_count() as int,
                self.smoothing_radius() as int,
                world_pos,
                self.smoothing_radius() as int,
            ),
            found@.no_duplicates(),
            forall|k: int|
                0 <= k < found.len() ==> found[k] < self.particle_count() && within(
                    self.filed()[found[k] as int],
                    world_pos,
                    self.smoothing_radius() as int,
                ),
            forall|i: int|
                0 <= i < self.filed().len() && within(
                    self.filed()[i],
                    world_pos,
                    self.smoothing_radius() as int,
                ) ==> found@.contains(i as usize),
    {
        self.grid.get_neighbours_by_pos(world_pos, self.grid.cell_size())
    }

    /// Takes in the time that has passed since the last update, in
    /// nanoseconds, and returns the number of ticks to run now. The
    /// particles and the grid stay as they are: the caller runs the ticks.
    pub fn update(&mut self, elapsed: u64) -> (ticks: u64)
        requires
            old(self).wf(),
        ensures
            final(self).wf(),
            final(self).same_particles(old(self)),
            final(self).filed() == old(self).filed(),
            ticks == ticks_due(old(self).leftover() as int, elapsed as int, TICK_DELTA as int),
            final(self).leftover() == leftover_after(
                old(self).leftover() as int,
                elapsed as int,
                TICK_DELTA as int,
            ),
            elapsed == 0 ==> ticks == 0 && final(self).leftover() == old(self).leftover(),
    {
        proof {
            lemma_no_time_no_tick(self.leftover() as int, TICK_DELTA as int);
        }
        self.scheduler.update(elapsed)
    }

    /// The arrays are aligned: each holds one value for each particle. This
    /// holds of every state that the functions of this type make or leave
    /// behind, so the arrays have one length before and after every tick.
    pub proof fn lemma_arrays_aligned(&self)
        requires
            self.wf(),
        ensures
            self.positions()@.len() == self.particle_count(),
            self.predicted_positions()@.len() == self.particle_count(),
            self.velocities()@.len() == self.particle_count(),
            self.densities()@.len() == self.particle_count(),
    {
    }
}

} // verus!
