//! The simulation: the entity arena together with the viewport size and the
//! tick pacing, and the scenario that seeds it.

use vstd::prelude::*;
use crate::resource::Resource;
use crate::entities::{Entities, EntitiesView};

verus! {

/// The viewport's width in cells.
pub const VIEW_WIDTH: usize = 64;

/// The viewport's height in cells.
pub const VIEW_HEIGHT: usize = 32;

/// How many ticks run each second.
pub const TICKS_PER_SECOND: u32 = 4;

/// A running simulation.
pub struct World {
    pub entities: Entities,
    /// The viewport's width and height in cells.
    pub size: (usize, usize),
    pub ticks_per_second: u32,
    /// The time budget of one tick, in milliseconds.
    pub tick_millis: u64,
    /// The number of the tick under way, counting from one.
    pub ticks: usize,
}

impl World {
    /// The world's invariant: its arena is well formed.
    pub open spec fn wf(&self) -> bool {
        self.entities.wf()
    }

    /// An empty world with a 64 by 32 viewport, four ticks a second, at its first tick.
    pub fn new() -> (r: World)
        ensures
            r.wf(),
            r.entities@.len() == 0,
            r.size == (VIEW_WIDTH, VIEW_HEIGHT),
            r.ticks_per_second == TICKS_PER_SECOND,
            r.tick_millis == 250,
            r.ticks == 1,
    {
        let per_second: u64 = TICKS_PER_SECOND as u64;
        assert(per_second == 4);
        let tick_millis: u64 = 1000 / per_second;
        assert(tick_millis == 250) by (nonlinear_arith)
            requires
                per_second == 4,
                tick_millis == 1000u64 / per_second,
        ;
        World {
            entities: Entities::new(),
            size: (VIEW_WIDTH, VIEW_HEIGHT),
            ticks_per_second: TICKS_PER_SECOND,
            tick_millis,
            ticks: 1,
        }
    }

    /// Moves resource along the arena's edges for one tick.
    pub fn update(&mut self)
        requires
            old(self).wf(),
        ensures
            final(self).wf(),
            final(self).entities@ == old(self).entities@.ticked(),
            final(self).size == old(self).size,
            final(self).ticks_per_second == old(self).ticks_per_second,
            final(self).tick_millis == old(self).tick_millis,
            final(self).ticks == old(self).ticks,
    {
        self.entities.update();
    }

    /// Closes the tick under way, which took `elapsed_millis`, and moves to
    /// the next. Returns how long to wait before the next tick starts, or
    /// `None` when the tick overran its budget.
    pub fn end_tick(&mut self, elapsed_millis: u64) -> (r: Option<u64>)
        requires
            old(self).ticks < usize::MAX,
        ensures
            final(self).ticks == old(self).ticks + 1,
            final(self).entities == old(self).entities,
            final(self).size == old(self).size,
            final(self).ticks_per_second == old(self).ticks_per_second,
            final(self).tick_millis == old(self).tick_millis,
            r == if elapsed_millis <= old(self).tick_millis {
                Some((old(self).tick_millis - elapsed_millis) as u64)
            } else {
                None::<u64>
            },
    {
        self.ticks = self.ticks + 1;
        if elapsed_millis <= self.tick_millis {
            Some(self.tick_millis - elapsed_millis)
        } else {
            None
        }
    }
}

/// The arena after the seeding scenario: a chain of five visible entities at
/// (1,1), (1,2), (2,2), (3,2), (3,3), wanting 1, 1, 2, 2, 5 and holding
/// 100, 255, 64, 192, 0.
pub open spec fn seeded(v: EntitiesView) -> EntitiesView {
    v.inserted(1, 100, (1, 1), true)
        .inserted(1, 255, (1, 2), true)
        .inserted(2, 64, (2, 2), true)
        .inserted(2, 192, (3, 2), true)
        .inserted(5, 0, (3, 3), true)
}

/// Seeds `world` with a chain of five entities.
pub fn setup_chain(world: &mut World)
    requires
        old(world).wf(),
        old(world).entities@.len() + 5 < usize::MAX,
    ensures
        final(world).wf(),
        final(world).entities@ == seeded(old(world).entities@),
        final(world).size == old(world).size,
        final(world).ticks_per_second == old(world).ticks_per_second,
        final(world).tick_millis == old(world).tick_millis,
        final(world).ticks == old(world).ticks,
{
    world.entities.insert(Resource(1), Resource(100), (1, 1), true);
    world.entities.insert(Resource(1), Resource(255), (1, 2), true);
    world.entities.insert(Resource(2), Resource(64), (2, 2), true);
    world.entities.insert(Resource(2), Resource(192), (3, 2), true);
    world.entities.insert(Resource(5), Resource(0), (3, 3), true);
}

} // verus!
