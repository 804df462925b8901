use vstd::prelude::*;

use crate::keyboard::{Keyboard, Keystate};
use crate::particle_accelerator::{
    Particle, ParticleAccelerator, ParticleHandle, Stick, WeightedParticle,
};
use crate::shape_builder::ShapeBuilder;
use crate::topology::ring_sticks;

verus! {

/// Key code of the key that turns the wheels counterclockwise (`z`).
pub const KEY_Z: i32 = 122;

/// Key code of the key that turns the wheels clockwise (`x`).
pub const KEY_X: i32 = 120;

/// The number of particles on a wheel's surface.
pub const SURFACE_DIVISIONS: usize = 8;

/// The number of particles inside a wheel.
pub const INTERIOR_DIVISIONS: usize = 6;

/// A wheel: a hub particle on the no-collision mask, a ring of surface
/// particles tied into a loop, and free interior particles. The hub is
/// placed by an attachment constraint on the surface particles.
pub struct CarWheel {
    hub_particle_handle: ParticleHandle,
    surface_particle_handles: Vec<ParticleHandle>,
    interior_particle_handles: Vec<ParticleHandle>,
}

/// The particle records a wheel adds from particle id `base` on, given the
/// accelerator after the call. Each part of the wheel (the hub, the surface,
/// the interior) has one opaque colour of its own.
pub open spec fn wheel_particles_ok(pa: Seq<Particle>, base: int) -> bool {
    &&& forall|i: int|
        base <= i < base + 15 ==> (#[trigger] pa[i]).id == i && pa[i].is_enabled && !pa[i].is_static
            && pa[i].mask == (if i == base { 0u32 } else { 1u32 }) && pa[i].color.a == 255
    &&& forall|i: int| base + 1 <= i < base + 9 ==> (#[trigger] pa[i]).color == pa[base + 1].color
    &&& forall|i: int| base + 9 <= i < base + 15 ==> (#[trigger] pa[i]).color == pa[base + 9].color
}

/// The ids of the surface particles of a wheel whose hub is particle `base`.
pub open spec fn wheel_surface_ids(base: int) -> Seq<usize> {
    Seq::new(8, |i: int| (base + 1 + i) as usize)
}

/// The ids of the interior particles of a wheel whose hub is particle `base`.
pub open spec fn wheel_interior_ids(base: int) -> Seq<usize> {
    Seq::new(6, |i: int| (base + 9 + i) as usize)
}

/// The sticks of a wheel whose hub is particle `base`: each surface particle
/// tied to the next, the last back to the first.
pub open spec fn wheel_sticks(base: int) -> Seq<Stick> {
    Seq::new(
        8,
        |i: int|
            Stick {
                particle_indicies: [
                    (base + 1 + i) as usize,
                    (base + 1 + (if i + 1 == 8 { 0 } else { i + 1 })) as usize,
                ],
                is_enabled: true,
            },
    )
}

impl CarWheel {
    pub closed spec fn hub_id(&self) -> usize {
        self.hub_particle_handle.spec_id()
    }

    pub closed spec fn surface_ids(&self) -> Seq<usize> {
        self.surface_particle_handles@.map_values(|h: ParticleHandle| h.spec_id())
    }

    pub closed spec fn interior_ids(&self) -> Seq<usize> {
        self.interior_particle_handles@.map_values(|h: ParticleHandle| h.spec_id())
    }

    /// Creates a wheel's particles and constraints: the hub on mask 0, then
    /// the eight surface particles on mask 1 tied each to the next in a loop,
    /// then the six interior particles on mask 1; last the attachment
    /// constraint that places the hub from the surface particles.
    pub fn new(particle_accelerator: &mut ParticleAccelerator) -> (w: Self)
        requires
            old(particle_accelerator).wf(),
            old(particle_accelerator).particles_view().len() + 16 < usize::MAX,
            old(particle_accelerator).sticks_view().len() + 9 < usize::MAX,
        ensures
            ({
                let base = old(particle_accelerator).particles_view().len() as int;
                let pa = *final(particle_accelerator);
                &&& pa.wf()
                &&& w.hub_id() == base
                &&& w.surface_ids() == wheel_surface_ids(base)
                &&& w.interior_ids() == wheel_interior_ids(base)
                &&& pa.particles_view().len() == base + 15
                &&& pa.particles_view().take(base) == old(particle_accelerator).particles_view()
                &&& wheel_particles_ok(pa.particles_view(), base)
                &&& pa.sticks_view() == old(particle_accelerator).sticks_view() + wheel_sticks(base)
                &&& pa.springs_view() == old(particle_accelerator).springs_view()
                &&& pa.attachments_view() == old(particle_accelerator).attachments_view().push(
                    (w.surface_ids(), Seq::empty(), base as usize),
                )
            }),
    {
        let ghost base = particle_accelerator.particles_view().len() as int;
        let ghost p0 = particle_accelerator.particles_view();
        let ghost s0 = particle_accelerator.sticks_view();
        // wheel hub - on mask layer zero, the no-collisions layer
        let mut hub_builder = ShapeBuilder::new();
        hub_builder.add_particle();
        assert(hub_builder@.particles.len() == 1);
        hub_builder.create_in_particle_accelerator(particle_accelerator, 0x0);
        assert(hub_builder@.particle_handles.len() == 1);
        let hub_handles = hub_builder.particle_handles();
        assert(hub_handles@.map_values(|p: ParticleHandle| p.spec_id())[0] == hub_handles@[0].spec_id());
        let hub_particle_handle = ParticleHandle::new(hub_handles[0].id());
        assert(hub_particle_handle.spec_id() == base);
        let ghost p1 = particle_accelerator.particles_view();
        // wheel surface
        let mut surface_builder = ShapeBuilder::new();
        surface_builder.add_adjacent_stick_circle(8);
        surface_builder.create_in_particle_accelerator(particle_accelerator, 0x1);
        let surface_particle_handles = surface_builder.copy_particle_handles();
        let ghost p2 = particle_accelerator.particles_view();
        let ghost s2 = particle_accelerator.sticks_view();
        // wheel interior
        let mut interior_builder = ShapeBuilder::new();
        interior_builder.add_circle(6);
        interior_builder.create_in_particle_accelerator(particle_accelerator, 0x1);
        let interior_particle_handles = interior_builder.copy_particle_handles();
        // the hub follows the surface
        let mut weighted_particles: Vec<WeightedParticle> = Vec::new();
        let mut i: usize = 0;
        while i < surface_particle_handles.len()
            invariant
                i <= surface_particle_handles@.len(),
                weighted_particles@.len() == i,
                forall|q: int|
                    0 <= q < i ==> (#[trigger] weighted_particles@[q]).particle_id
                        == surface_particle_handles@[q].spec_id(),
            decreases surface_particle_handles@.len() - i,
        {
            weighted_particles.push(WeightedParticle::new(surface_particle_handles[i]));
            i = i + 1;
        }
        let outgoing: Vec<WeightedParticle> = Vec::new();
        assert(outgoing@.map_values(|wp: WeightedParticle| wp.particle_id) =~= Seq::<usize>::empty());
        particle_accelerator.create_attachment_constraint(
            weighted_particles,
            outgoing,
            hub_particle_handle,
        );
        let w = Self { hub_particle_handle, surface_particle_handles, interior_particle_handles };
        proof {
            let pa = particle_accelerator.particles_view();
            assert(w.surface_ids() =~= wheel_surface_ids(base));
            assert(w.interior_ids() =~= wheel_interior_ids(base));
            assert(weighted_particles@.map_values(|wp: WeightedParticle| wp.particle_id)
                =~= w.surface_ids());
            assert(pa.take(base) =~= p0);
            assert forall|q: int| base <= q < base + 15 implies (#[trigger] pa[q]).id == q
                && pa[q].is_enabled && !pa[q].is_static && pa[q].mask == (if q == base {
                0u32
            } else {
                1u32
            }) by {
                if q == base {
                    assert(pa[q] == p1[q]);
                } else if q < base + 9 {
                    assert(pa[q] == p2[q]);
                }
            }
            assert(ring_sticks(8) =~= Seq::new(
                8,
                |i: int| (i as usize, (if i + 1 == 8 { 0 } else { i + 1 }) as usize),
            ));
            assert(particle_accelerator.sticks_view() =~= s0 + wheel_sticks(base));
        }
        w
    }

    pub fn hub_particle_handle(&self) -> (h: ParticleHandle)
        ensures
            h.spec_id() == self.hub_id(),
    {
        self.hub_particle_handle
    }

    pub fn surface_particle_handles(&self) -> (h: &Vec<ParticleHandle>)
        ensures
            h@.map_values(|p: ParticleHandle| p.spec_id()) == self.surface_ids(),
    {
        &self.surface_particle_handles
    }

    pub fn interior_particle_handles(&self) -> (h: &Vec<ParticleHandle>)
        ensures
            h@.map_values(|p: ParticleHandle| p.spec_id()) == self.interior_ids(),
    {
        &self.interior_particle_handles
    }
}

/// Whether the keyboard state holds the key down; a key not seen yet is up.
pub open spec fn key_down(keys: Map<i32, Keystate>, k: i32) -> bool {
    keys.contains_key(k) && keys[k].is_down
}

/// The keyboard state once the key has been looked up: a key not seen yet
/// is recorded as up, and was up.
pub open spec fn key_seen(keys: Map<i32, Keystate>, k: i32) -> Map<i32, Keystate> {
    if keys.contains_key(k) {
        keys
    } else {
        keys.insert(k, Keystate { is_down: false, was_down: false })
    }
}

/// A car: two wheels whose hubs are tied by an axle stick.
pub struct Car {
    pub wheels: [CarWheel; 2],
}

impl Car {
    /// Creates both wheels, then the axle stick between their hubs.
    pub fn new(particle_accelerator: &mut ParticleAccelerator) -> (c: Self)
        requires
            old(particle_accelerator).wf(),
            old(particle_accelerator).particles_view().len() + 32 < usize::MAX,
            old(particle_accelerator).sticks_view().len() + 18 < usize::MAX,
        ensures
            ({
                let base = old(particle_accelerator).particles_view().len() as int;
                let pa = *final(particle_accelerator);
                &&& pa.wf()
                &&& c.wheels[0].hub_id() == base
                &&& c.wheels[0].surface_ids() == wheel_surface_ids(base)
                &&& c.wheels[0].interior_ids() == wheel_interior_ids(base)
                &&& c.wheels[1].hub_id() == base + 15
                &&& c.wheels[1].surface_ids() == wheel_surface_ids(base + 15)
                &&& c.wheels[1].interior_ids() == wheel_interior_ids(base + 15)
                &&& pa.particles_view().len() == base + 30
                &&& pa.particles_view().take(base) == old(particle_accelerator).particles_view()
                &&& wheel_particles_ok(pa.particles_view(), base)
                &&& wheel_particles_ok(pa.particles_view(), base + 15)
                &&& pa.sticks_view() == old(particle_accelerator).sticks_view() + wheel_sticks(base)
                    + wheel_sticks(base + 15) + seq![
                    Stick { particle_indicies: [base as usize, (base + 15) as usize], is_enabled: true },
                ]
                &&& pa.springs_view() == old(particle_accelerator).springs_view()
                &&& pa.attachments_view() == old(particle_accelerator).attachments_view().push(
                    (wheel_surface_ids(base), Seq::empty(), base as usize),
                ).push((wheel_surface_ids(base + 15), Seq::empty(), (base + 15) as usize))
            }),
    {
        let ghost base = particle_accelerator.particles_view().len() as int;
        let wheel_1 = CarWheel::new(particle_accelerator);
        let ghost p1 = particle_accelerator.particles_view();
        let wheel_2 = CarWheel::new(particle_accelerator);
        // axle stick to connect the two wheel hubs
        let hub_1 = wheel_1.hub_particle_handle();
        let hub_2 = wheel_2.hub_particle_handle();
        particle_accelerator.create_stick([&hub_1, &hub_2]);
        proof {
            let pa = particle_accelerator.particles_view();
            assert(pa.take(base + 15) =~= p1);
            assert(pa.take(base) =~= p1.take(base));
            assert forall|i: int| base <= i < base + 15 implies (#[trigger] pa[i]).id == i
                && pa[i].is_enabled && !pa[i].is_static && pa[i].mask == (if i == base {
                0u32
            } else {
                1u32
            }) && pa[i].color.a == 255 by {
                assert(pa[i] == p1[i]);
            }
            assert(pa[base + 1] == p1[base + 1]);
            assert(pa[base + 9] == p1[base + 9]);
            assert forall|i: int| base + 1 <= i < base + 9 implies (#[trigger] pa[i]).color == pa[base
                + 1].color by {
                assert(pa[i] == p1[i]);
            }
            assert forall|i: int| base + 9 <= i < base + 15 implies (#[trigger] pa[i]).color == pa[base
                + 9].color by {
                assert(pa[i] == p1[i]);
            }
        }
        Self { wheels: [wheel_1, wheel_2] }
    }

    /// The turns the keys ask of the wheels this frame, in order: `z` down
    /// asks a counterclockwise turn, `x` down a clockwise one. The screen's
    /// y axis points down, so a counterclockwise turn is applied to the
    /// wheels as a force of direction -1 and a clockwise one as +1.
    pub fn update(&self, keyboard: &mut Keyboard) -> (directions: Vec<i32>)
        ensures
            directions@ == (if key_down(old(keyboard)@, KEY_Z) {
                seq![-1i32]
            } else {
                Seq::empty()
            }) + (if key_down(old(keyboard)@, KEY_X) {
                seq![1i32]
            } else {
                Seq::empty()
            }),
            final(keyboard)@ == key_seen(key_seen(old(keyboard)@, KEY_Z), KEY_X),
    {
        let mut directions: Vec<i32> = Vec::new();
        if keyboard.get_keystate(KEY_Z).is_down() {
            directions.push(-1);
        }
        if keyboard.get_keystate(KEY_X).is_down() {
            directions.push(1);
        }
        proof {
            assert(directions@ =~= (if key_down(old(keyboard)@, KEY_Z) {
                seq![-1i32]
            } else {
                Seq::empty()
            }) + (if key_down(old(keyboard)@, KEY_X) {
                seq![1i32]
            } else {
                Seq::empty()
            }));
        }
        directions
    }
}

} // verus!
