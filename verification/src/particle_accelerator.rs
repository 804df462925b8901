use std::collections::HashMap;
use vstd::prelude::*;

use crate::color::Color;
use crate::layers::{
    lemma_mask_layers_from, mask_has_layer, mask_layers, mask_layers_from, mask_to_layer_indicies,
};

verus! {

broadcast use vstd::std_specs::hash::group_hash_axioms;

/// A handle to a particle, stick, spring or attachment constraint: its
/// index in the container that made it.
#[derive(Clone, Copy, Debug)]
pub struct ParticleHandle {
    id: usize,
}

pub type StickHandle = ParticleHandle;

pub type SpringHandle = ParticleHandle;

pub type AttachmentConstraintHandle = ParticleHandle;

impl ParticleHandle {
    pub closed spec fn spec_id(self) -> usize {
        self.id
    }

    pub fn new(id: usize) -> (h: Self)
        ensures
            h.spec_id() == id,
    {
        Self { id }
    }

    pub fn id(&self) -> (id: usize)
        ensures
            id == self.spec_id(),
    {
        self.id
    }
}

/// A collision layer: the particles, by id, that collide with one another.
pub struct Layer {
    pub id: usize,
    pub particle_ids: Vec<usize>,
}

impl Layer {
    pub fn new(id: usize) -> (l: Self)
        ensures
            l.id == id,
            l.particle_ids@ == Seq::<usize>::empty(),
    {
        Self { id, particle_ids: vec![] }
    }
}

/// What the container knows of a particle beyond its geometry.
#[derive(Clone, Copy, Debug)]
pub struct Particle {
    pub id: usize,
    pub mask: u32,
    pub is_static: bool,
    pub color: Color,
    pub is_enabled: bool,
}

/// A stick constraint between two particles, by id.
#[derive(Clone, Copy, Debug)]
pub struct Stick {
    pub particle_indicies: [usize; 2],
    pub is_enabled: bool,
}

/// A spring constraint between two particles, by id.
#[derive(Clone, Copy, Debug)]
pub struct Spring {
    pub particle_indicies: [usize; 2],
    pub is_enabled: bool,
}

/// A particle that feeds or follows an attachment constraint.
#[derive(Clone, Copy, Debug)]
pub struct WeightedParticle {
    pub particle_id: usize,
}

impl WeightedParticle {
    pub fn new(particle_handle: ParticleHandle) -> (w: Self)
        ensures
            w.particle_id == particle_handle.spec_id(),
    {
        Self { particle_id: particle_handle.id }
    }
}

/// Incoming particles place the target particle; the target's movement is
/// handed on to the outgoing particles.
pub struct AttachmentConstraint {
    pub incoming_weighted_particles: Vec<WeightedParticle>,
    pub outgoing_weighted_particles: Vec<WeightedParticle>,
    pub target_particle_id: usize,
}

/// The ids, in increasing order, of the particles among `masks` whose mask
/// has `layer` set.
pub open spec fn layer_members(masks: Seq<u32>, layer: int) -> Seq<usize>
    decreases masks.len(),
{
    if masks.len() == 0 {
        Seq::empty()
    } else {
        layer_members(masks.drop_last(), layer) + (if mask_has_layer(masks.last(), layer) {
            seq![(masks.len() - 1) as usize]
        } else {
            Seq::empty()
        })
    }
}

/// `layer_members` holds exactly the ids of the particles whose mask sets the
/// layer, each below the number of particles, in strictly increasing order.
pub proof fn lemma_layer_members(masks: Seq<u32>, layer: int)
    requires
        masks.len() <= usize::MAX,
    ensures
        forall|p: usize| #[trigger]
            layer_members(masks, layer).contains(p) <==> (p < masks.len() && mask_has_layer(
                masks[p as int],
                layer,
            )),
        forall|i: int|
            0 <= i < layer_members(masks, layer).len() ==> #[trigger] layer_members(masks, layer)[i]
                < masks.len(),
        forall|i: int, j: int|
            0 <= i < j < layer_members(masks, layer).len() ==> #[trigger] layer_members(
                masks,
                layer,
            )[i] < #[trigger] layer_members(masks, layer)[j],
    decreases masks.len(),
{
    if masks.len() > 0 {
        let prev = masks.drop_last();
        lemma_layer_members(prev, layer);
        let m = layer_members(masks, layer);
        let pm = layer_members(prev, layer);
        let n = (masks.len() - 1) as usize;
        if mask_has_layer(masks.last(), layer) {
            assert(m == pm + seq![n]);
            assert forall|i: int, j: int| 0 <= i < j < m.len() implies #[trigger] m[i] < #[trigger] m[j] by {
                if j == pm.len() {
                    assert(pm[i] < prev.len());
                } else {
                    assert(m[i] == pm[i] && m[j] == pm[j]);
                }
            }
            assert forall|p: usize| #[trigger] m.contains(p) <==> (p < masks.len() && mask_has_layer(
                masks[p as int],
                layer,
            )) by {
                if m.contains(p) {
                    let i = choose|i: int| 0 <= i < m.len() && m[i] == p;
                    if i < pm.len() {
                        assert(pm.contains(p));
                        assert(prev[p as int] == masks[p as int]);
                    }
                }
                if p < masks.len() && mask_has_layer(masks[p as int], layer) {
                    if p == n {
                        assert(m[pm.len() as int] == p);
                    } else {
                        assert(prev[p as int] == masks[p as int]);
                        assert(pm.contains(p));
                        let i = choose|i: int| 0 <= i < pm.len() && pm[i] == p;
                        assert(m[i] == p);
                    }
                }
            }
        } else {
            assert(m =~= pm);
            assert forall|p: usize| #[trigger] m.contains(p) <==> (p < masks.len() && mask_has_layer(
                masks[p as int],
                layer,
            )) by {
                if p < prev.len() {
                    assert(prev[p as int] == masks[p as int]);
                }
            }
        }
    }
}

/// Adding a particle appends its id to exactly the layers its mask sets.
pub proof fn lemma_layer_members_push(masks: Seq<u32>, mask: u32, layer: int)
    ensures
        layer_members(masks.push(mask), layer) == layer_members(masks, layer) + (if mask_has_layer(
            mask,
            layer,
        ) {
            seq![masks.len() as usize]
        } else {
            Seq::empty()
        }),
{
    assert(masks.push(mask).drop_last() =~= masks);
}

/// A container for particles and constraints.
pub struct ParticleAccelerator {
    particles: Vec<Particle>,
    sticks: Vec<Stick>,
    springs: Vec<Spring>,
    attachment_constraints: Vec<AttachmentConstraint>,
    layer_map: HashMap<usize, Layer>,
}

impl ParticleAccelerator {
    pub closed spec fn particles_view(&self) -> Seq<Particle> {
        self.particles@
    }

    pub closed spec fn sticks_view(&self) -> Seq<Stick> {
        self.sticks@
    }

    pub closed spec fn springs_view(&self) -> Seq<Spring> {
        self.springs@
    }

    /// Each attachment constraint as (incoming ids, outgoing ids, target id).
    pub closed spec fn attachments_view(&self) -> Seq<(Seq<usize>, Seq<usize>, usize)> {
        self.attachment_constraints@.map_values(
            |a: AttachmentConstraint|
                (
                    a.incoming_weighted_particles@.map_values(|w: WeightedParticle| w.particle_id),
                    a.outgoing_weighted_particles@.map_values(|w: WeightedParticle| w.particle_id),
                    a.target_particle_id,
                ),
        )
    }

    /// The collision layers: layer id to the ids of its particles.
    pub closed spec fn layers_view(&self) -> Map<usize, Seq<usize>> {
        self.layer_map@.map_values(|l: Layer| l.particle_ids@)
    }

    pub open spec fn masks(&self) -> Seq<u32> {
        self.particles_view().map_values(|p: Particle| p.mask)
    }

    /// Every particle's id is its index, and the layers are exactly those set
    /// in some particle's mask, each holding the particles whose mask sets it.
    pub open spec fn wf(&self) -> bool {
        &&& self.particles_view().len() <= usize::MAX
        &&& self.sticks_view().len() <= usize::MAX
        &&& self.springs_view().len() <= usize::MAX
        &&& forall|i: int|
            0 <= i < self.particles_view().len() ==> #[trigger] self.particles_view()[i].id == i
        &&& forall|k: usize|
            #[trigger] self.layers_view().contains_key(k) <==> layer_members(
                self.masks(),
                k as int,
            ).len() > 0
        &&& forall|k: usize| #[trigger]
            self.layers_view().contains_key(k) ==> self.layers_view()[k] == layer_members(
                self.masks(),
                k as int,
            )
        &&& self.layer_ids_match()
    }

    pub closed spec fn layer_ids_match(&self) -> bool {
        forall|k: usize| #[trigger]
            self.layer_map@.contains_key(k) ==> self.layer_map@[k].id == k
    }

    pub fn new() -> (pa: Self)
        ensures
            pa.wf(),
            pa.particles_view() == Seq::<Particle>::empty(),
            pa.sticks_view() == Seq::<Stick>::empty(),
            pa.springs_view() == Seq::<Spring>::empty(),
            pa.attachments_view() == Seq::<(Seq<usize>, Seq<usize>, usize)>::empty(),
            pa.layers_view() == Map::<usize, Seq<usize>>::empty(),
    {
        let pa = Self {
            particles: vec![],
            sticks: vec![],
            springs: vec![],
            attachment_constraints: vec![],
            layer_map: HashMap::new(),
        };
        proof {
            assert(pa.masks() =~= Seq::<u32>::empty());
            assert(pa.layers_view() =~= Map::<usize, Seq<usize>>::empty());
            assert(pa.attachments_view() =~= Seq::<(Seq<usize>, Seq<usize>, usize)>::empty());
        }
        pa
    }
    /// Adds a particle with the given collision mask and colour; it starts
    /// enabled and not static, and joins every layer its mask sets. Its
    /// handle is the number of particles before the call.
    pub fn create_particle(&mut self, mask: u32, color: Color) -> (h: ParticleHandle)
        requires
            old(self).wf(),
            old(self).particles_view().len() < usize::MAX,
        ensures
            final(self).wf(),
            h.spec_id() == old(self).particles_view().len(),
            final(self).particles_view() == old(self).particles_view().push(
                Particle { id: h.spec_id(), mask, is_static: false, color, is_enabled: true },
            ),
            final(self).sticks_view() == old(self).sticks_view(),
            final(self).springs_view() == old(self).springs_view(),
            final(self).attachments_view() == old(self).attachments_view(),
            forall|k: usize| #[trigger]
                final(self).layers_view().contains_key(k) <==> (old(self).layers_view().contains_key(
                    k,
                ) || mask_has_layer(mask, k as int)),
            forall|k: usize| #[trigger]
                final(self).layers_view().contains_key(k) ==> final(self).layers_view()[k] == (if old(
                    self,
                ).layers_view().contains_key(k) {
                    old(self).layers_view()[k]
                } else {
                    Seq::empty()
                }) + (if mask_has_layer(mask, k as int) {
                    seq![h.spec_id()]
                } else {
                    Seq::empty()
                }),
    {
        let id = self.particles.len();
        let ghost old_masks = self.masks();
        let ghost new_masks = old_masks.push(mask);
        let ghost old_map = self.layer_map@;
        let layer_indicies = mask_to_layer_indicies(mask);
        proof {
            lemma_mask_layers_from(mask, 0);
            assert forall|k: usize| #[trigger] old_map.contains_key(k) implies old_map[k].id == k
                && old_map[k].particle_ids@ == layer_members(old_masks, k as int) by {
                assert(old(self).layers_view().contains_key(k));
                assert(old(self).layers_view()[k] == old_map[k].particle_ids@);
            }
            assert(layer_indicies@.take(0) =~= Seq::<usize>::empty());
        }
        let mut j: usize = 0;
        while j < layer_indicies.len()
            invariant
                j <= layer_indicies@.len(),
                layer_indicies@ == mask_layers(mask),
                id == old(self).particles_view().len(),
                old_masks == old(self).masks(),
                new_masks == old_masks.push(mask),
                old_map == old(self).layer_map@,
                old(self).wf(),
                self.particles == old(self).particles,
                self.sticks == old(self).sticks,
                self.springs == old(self).springs,
                self.attachment_constraints == old(self).attachment_constraints,
                forall|i: int, k: int|
                    0 <= i < k < layer_indicies@.len() ==> #[trigger] layer_indicies@[i]
                        < #[trigger] layer_indicies@[k],
                forall|k: usize| #[trigger]
                    self.layer_map@.contains_key(k) <==> (old_map.contains_key(k)
                        || layer_indicies@.take(j as int).contains(k)),
                forall|k: usize| #[trigger]
                    self.layer_map@.contains_key(k) ==> self.layer_map@[k].id == k
                        && self.layer_map@[k].particle_ids@ == (if layer_indicies@.take(
                        j as int,
                    ).contains(k) {
                        layer_members(new_masks, k as int)
                    } else {
                        layer_members(old_masks, k as int)
                    }),
            decreases layer_indicies@.len() - j,
        {
            let layer_index = layer_indicies[j];
            let ghost before = self.layer_map@;
            proof {
                lemma_mask_layers_from(mask, 0);
                assert(layer_indicies@[j as int] == mask_layers_from(mask, 0)[j as int]);
                assert(mask_has_layer(mask, layer_index as int));
                lemma_layer_members_push(old_masks, mask, layer_index as int);
                assert(!layer_indicies@.take(j as int).contains(layer_index)) by {
                    if layer_indicies@.take(j as int).contains(layer_index) {
                        let i = choose|i: int|
                            0 <= i < j && layer_indicies@.take(j as int)[i] == layer_index;
                        assert(layer_indicies@[i] < layer_indicies@[j as int]);
                    }
                }
                if !before.contains_key(layer_index) {
                    assert(!old(self).layers_view().contains_key(layer_index));
                    assert(layer_members(old_masks, layer_index as int).len() == 0);
                    assert(layer_members(old_masks, layer_index as int) =~= Seq::<usize>::empty());
                } else {
                    assert(old(self).layers_view().contains_key(layer_index));
                }
                assert(layer_indicies@.take(j as int + 1) =~= layer_indicies@.take(j as int).push(
                    layer_index,
                ));
            }
            let layer = self.layer_map.entry(layer_index).or_insert(Layer::new(layer_index));
            layer.particle_ids.push(id);
            proof {
                assert(self.layer_map@ == before.insert(layer_index, self.layer_map@[layer_index]));
                assert(self.layer_map@[layer_index].id == layer_index);
                assert(self.layer_map@[layer_index].particle_ids@ == layer_members(
                    new_masks,
                    layer_index as int,
                ));
            }
            proof {
                let t0 = layer_indicies@.take(j as int);
                let t1 = layer_indicies@.take(j as int + 1);
                assert forall|k: usize| t1.contains(k) <==> (t0.contains(k) || k == layer_index) by {
                    if t1.contains(k) {
                        let i = choose|i: int| 0 <= i < t1.len() && t1[i] == k;
                        if i < j {
                            assert(t0[i] == k);
                        }
                    }
                    if t0.contains(k) {
                        let i = choose|i: int| 0 <= i < t0.len() && t0[i] == k;
                        assert(t1[i] == k);
                    }
                    if k == layer_index {
                        assert(t1[j as int] == k);
                    }
                }
            }
            j = j + 1;
        }
        let particle = Particle { id, mask, is_static: false, color, is_enabled: true };
        self.particles.push(particle);
        proof {
            assert(layer_indicies@.take(j as int) =~= layer_indicies@);
            assert(self.masks() =~= new_masks);
            assert forall|k: usize| #[trigger]
                self.layers_view().contains_key(k) <==> layer_members(
                    self.masks(),
                    k as int,
                ).len() > 0 by {
                lemma_layer_members_push(old_masks, mask, k as int);
                assert(old(self).layers_view().contains_key(k) <==> old_map.contains_key(k));
                if mask_has_layer(mask, k as int) {
                    assert(layer_indicies@.contains(k));
                }
            }
            assert forall|k: usize| #[trigger]
                self.layers_view().contains_key(k) implies self.layers_view()[k] == layer_members(
                    self.masks(),
                    k as int,
                ) by {
                lemma_layer_members_push(old_masks, mask, k as int);
                if mask_has_layer(mask, k as int) {
                    assert(layer_indicies@.contains(k));
                }
            }
            assert forall|i: int|
                0 <= i < self.particles_view().len() implies #[trigger] self.particles_view()[i].id
                == i by {
                if i < old(self).particles_view().len() {
                    assert(old(self).particles_view()[i].id == i);
                }
            }
            assert forall|k: usize| #[trigger]
                self.layers_view().contains_key(k) implies self.layers_view()[k] == (if old(
                    self,
                ).layers_view().contains_key(k) {
                    old(self).layers_view()[k]
                } else {
                    Seq::empty()
                }) + (if mask_has_layer(mask, k as int) {
                    seq![id]
                } else {
                    Seq::empty()
                }) by {
                lemma_layer_members_push(old_masks, mask, k as int);
                if mask_has_layer(mask, k as int) {
                    assert(layer_indicies@.contains(k));
                }
                if !old(self).layers_view().contains_key(k) {
                    assert(layer_members(old_masks, k as int) =~= Seq::<usize>::empty());
                }
            }
        }
        ParticleHandle::new(id)
    }
    /// Well-formedness rests only on the particle records' ids and masks and
    /// on the layer map.
    proof fn lemma_wf_frame(a: &Self, b: &Self)
        requires
            a.wf(),
            b.particles@.len() == a.particles@.len(),
            b.sticks@.len() <= usize::MAX,
            b.springs@.len() <= usize::MAX,
            forall|i: int|
                0 <= i < a.particles@.len() ==> (#[trigger] b.particles@[i]).id == a.particles@[i].id
                    && b.particles@[i].mask == a.particles@[i].mask,
            b.layer_map@ == a.layer_map@,
        ensures
            b.wf(),
            b.layers_view() == a.layers_view(),
    {
        assert(b.masks() =~= a.masks());
        assert(b.layers_view() =~= a.layers_view());
        assert forall|i: int|
            0 <= i < b.particles_view().len() implies #[trigger] b.particles_view()[i].id == i by {
            assert(a.particles_view()[i].id == i);
        }
        assert forall|k: usize| #[trigger]
            b.layers_view().contains_key(k) <==> layer_members(b.masks(), k as int).len() > 0 by {
            assert(a.layers_view().contains_key(k) <==> layer_members(a.masks(), k as int).len()
                > 0);
        }
        assert forall|k: usize| #[trigger]
            b.layers_view().contains_key(k) implies b.layers_view()[k] == layer_members(
            b.masks(),
            k as int,
        ) by {
            assert(a.layers_view().contains_key(k));
        }
        assert forall|k: usize| #[trigger] b.layer_map@.contains_key(k) implies b.layer_map@[k].id
            == k by {
            assert(a.layer_map@.contains_key(k));
        }
    }

    /// Replaces the record of the particle at `index` by one with the same
    /// id and mask; the layers stay as they are.
    fn replace_particle(&mut self, index: usize, particle: Particle)
        requires
            old(self).wf(),
            index < old(self).particles_view().len(),
            particle.id == old(self).particles_view()[index as int].id,
            particle.mask == old(self).particles_view()[index as int].mask,
        ensures
            final(self).wf(),
            final(self).particles_view() == old(self).particles_view().update(index as int, particle),
            final(self).sticks_view() == old(self).sticks_view(),
            final(self).springs_view() == old(self).springs_view(),
            final(self).attachments_view() == old(self).attachments_view(),
            final(self).layers_view() == old(self).layers_view(),
    {
        self.particles.set(index, particle);
        proof {
            Self::lemma_wf_frame(old(self), self);
        }
    }

    pub fn set_particle_static(&mut self, particle_handle: &ParticleHandle, is_static: bool)
        requires
            old(self).wf(),
            particle_handle.spec_id() < old(self).particles_view().len(),
        ensures
            final(self).wf(),
            final(self).particles_view() == old(self).particles_view().update(
                particle_handle.spec_id() as int,
                Particle { is_static, ..old(self).particles_view()[particle_handle.spec_id() as int] },
            ),
            final(self).sticks_view() == old(self).sticks_view(),
            final(self).springs_view() == old(self).springs_view(),
            final(self).attachments_view() == old(self).attachments_view(),
            final(self).layers_view() == old(self).layers_view(),
    {
        let mut particle = self.particles[particle_handle.id];
        particle.is_static = is_static;
        self.replace_particle(particle_handle.id, particle);
    }

    pub fn set_particle_color(&mut self, particle_handle: &ParticleHandle, color: Color)
        requires
            old(self).wf(),
            particle_handle.spec_id() < old(self).particles_view().len(),
        ensures
            final(self).wf(),
            final(self).particles_view() == old(self).particles_view().update(
                particle_handle.spec_id() as int,
                Particle { color, ..old(self).particles_view()[particle_handle.spec_id() as int] },
            ),
            final(self).sticks_view() == old(self).sticks_view(),
            final(self).springs_view() == old(self).springs_view(),
            final(self).attachments_view() == old(self).attachments_view(),
            final(self).layers_view() == old(self).layers_view(),
    {
        let mut particle = self.particles[particle_handle.id];
        particle.color = color;
        self.replace_particle(particle_handle.id, particle);
    }

    pub fn set_particle_enabled(&mut self, particle_handle: &ParticleHandle, is_enabled: bool)
        requires
            old(self).wf(),
            particle_handle.spec_id() < old(self).particles_view().len(),
        ensures
            final(self).wf(),
            final(self).particles_view() == old(self).particles_view().update(
                particle_handle.spec_id() as int,
                Particle { is_enabled, ..old(self).particles_view()[particle_handle.spec_id() as int] },
            ),
            final(self).sticks_view() == old(self).sticks_view(),
            final(self).springs_view() == old(self).springs_view(),
            final(self).attachments_view() == old(self).attachments_view(),
            final(self).layers_view() == old(self).layers_view(),
    {
        let mut particle = self.particles[particle_handle.id];
        particle.is_enabled = is_enabled;
        self.replace_particle(particle_handle.id, particle);
    }

    /// Adds a stick between two particles; its handle is the number of sticks
    /// before the call.
    pub fn create_stick(&mut self, particle_handles: [&ParticleHandle; 2]) -> (h: StickHandle)
        requires
            old(self).wf(),
            old(self).sticks_view().len() < usize::MAX,
        ensures
            final(self).wf(),
            h.spec_id() == old(self).sticks_view().len(),
            final(self).sticks_view() == old(self).sticks_view().push(
                Stick {
                    particle_indicies: [
                        particle_handles[0].spec_id(),
                        particle_handles[1].spec_id(),
                    ],
                    is_enabled: true,
                },
            ),
            final(self).particles_view() == old(self).particles_view(),
            final(self).springs_view() == old(self).springs_view(),
            final(self).attachments_view() == old(self).attachments_view(),
            final(self).layers_view() == old(self).layers_view(),
    {
        let id = self.sticks.len();
        let stick = Stick {
            particle_indicies: [particle_handles[0].id, particle_handles[1].id],
            is_enabled: true,
        };
        self.sticks.push(stick);
        proof {
            Self::lemma_wf_frame(old(self), self);
        }
        ParticleHandle::new(id)
    }

    /// Adds a spring between two particles. Its handle carries the number of
    /// sticks (not springs) before the call, so springs created with no
    /// stick between them share a handle. The new spring is the last of the
    /// springs.
    pub fn create_spring(&mut self, particle_handles: [&ParticleHandle; 2]) -> (h: SpringHandle)
        requires
            old(self).wf(),
            old(self).springs_view().len() < usize::MAX,
        ensures
            final(self).wf(),
            h.spec_id() == old(self).sticks_view().len(),
            final(self).springs_view() == old(self).springs_view().push(
                Spring {
                    particle_indicies: [
                        particle_handles[0].spec_id(),
                        particle_handles[1].spec_id(),
                    ],
                    is_enabled: true,
                },
            ),
            final(self).particles_view() == old(self).particles_view(),
            final(self).sticks_view() == old(self).sticks_view(),
            final(self).attachments_view() == old(self).attachments_view(),
            final(self).layers_view() == old(self).layers_view(),
    {
        let id = self.sticks.len();
        let spring = Spring {
            particle_indicies: [particle_handles[0].id, particle_handles[1].id],
            is_enabled: true,
        };
        self.springs.push(spring);
        proof {
            Self::lemma_wf_frame(old(self), self);
        }
        ParticleHandle::new(id)
    }

    /// Adds an attachment constraint; its handle is the number of attachment
    /// constraints before the call.
    pub fn create_attachment_constraint(
        &mut self,
        incoming_weighted_particles: Vec<WeightedParticle>,
        outgoing_weighted_particles: Vec<WeightedParticle>,
        target_particle_id: ParticleHandle,
    ) -> (h: AttachmentConstraintHandle)
        requires
            old(self).wf(),
        ensures
            final(self).wf(),
            h.spec_id() == old(self).attachments_view().len(),
            final(self).attachments_view() == old(self).attachments_view().push(
                (
                    incoming_weighted_particles@.map_values(|w: WeightedParticle| w.particle_id),
                    outgoing_weighted_particles@.map_values(|w: WeightedParticle| w.particle_id),
                    target_particle_id.spec_id(),
                ),
            ),
            final(self).particles_view() == old(self).particles_view(),
            final(self).sticks_view() == old(self).sticks_view(),
            final(self).springs_view() == old(self).springs_view(),
            final(self).layers_view() == old(self).layers_view(),
    {
        let id = self.attachment_constraints.len();
        let constraint = AttachmentConstraint {
            incoming_weighted_particles,
            outgoing_weighted_particles,
            target_particle_id: target_particle_id.id,
        };
        self.attachment_constraints.push(constraint);
        proof {
            Self::lemma_wf_frame(old(self), self);
        }
        proof {
            assert(self.attachments_view() =~= old(self).attachments_view().push(
                (
                    incoming_weighted_particles@.map_values(|w: WeightedParticle| w.particle_id),
                    outgoing_weighted_particles@.map_values(|w: WeightedParticle| w.particle_id),
                    target_particle_id.spec_id(),
                ),
            ));
        }
        AttachmentConstraintHandle::new(id)
    }

    pub fn get_stick(&self, stick_handle: &StickHandle) -> (s: &Stick)
        requires
            stick_handle.spec_id() < self.sticks_view().len(),
        ensures
            *s == self.sticks_view()[stick_handle.spec_id() as int],
    {
        &self.sticks[stick_handle.id]
    }

    pub fn set_stick_enabled(&mut self, stick_handle: &StickHandle, is_enabled: bool)
        requires
            old(self).wf(),
            stick_handle.spec_id() < old(self).sticks_view().len(),
        ensures
            final(self).wf(),
            final(self).sticks_view() == old(self).sticks_view().update(
                stick_handle.spec_id() as int,
                Stick { is_enabled, ..old(self).sticks_view()[stick_handle.spec_id() as int] },
            ),
            final(self).particles_view() == old(self).particles_view(),
            final(self).springs_view() == old(self).springs_view(),
            final(self).attachments_view() == old(self).attachments_view(),
            final(self).layers_view() == old(self).layers_view(),
    {
        let mut stick = self.sticks[stick_handle.id];
        stick.is_enabled = is_enabled;
        self.sticks.set(stick_handle.id, stick);
        proof {
            Self::lemma_wf_frame(old(self), self);
        }
    }

    pub fn particle_count(&self) -> (n: usize)
        ensures
            n == self.particles_view().len(),
    {
        self.particles.len()
    }

    pub fn stick_count(&self) -> (n: usize)
        ensures
            n == self.sticks_view().len(),
    {
        self.sticks.len()
    }

    pub fn spring_count(&self) -> (n: usize)
        ensures
            n == self.springs_view().len(),
    {
        self.springs.len()
    }

    pub fn attachment_constraint_count(&self) -> (n: usize)
        ensures
            n == self.attachments_view().len(),
    {
        self.attachment_constraints.len()
    }

    pub fn get_particle(&self, particle_handle: &ParticleHandle) -> (p: &Particle)
        requires
            particle_handle.spec_id() < self.particles_view().len(),
        ensures
            *p == self.particles_view()[particle_handle.spec_id() as int],
    {
        &self.particles[particle_handle.id]
    }

    /// The record of the particle with the given id.
    pub fn get_particle_by_index(&self, particle_id: usize) -> (p: &Particle)
        requires
            particle_id < self.particles_view().len(),
        ensures
            *p == self.particles_view()[particle_id as int],
    {
        &self.particles[particle_id]
    }

    /// The attachment constraint with the given index.
    pub fn get_attachment_constraint(&self, index: usize) -> (a: &AttachmentConstraint)
        requires
            index < self.attachments_view().len(),
        ensures
            (
                a.incoming_weighted_particles@.map_values(|w: WeightedParticle| w.particle_id),
                a.outgoing_weighted_particles@.map_values(|w: WeightedParticle| w.particle_id),
                a.target_particle_id,
            ) == self.attachments_view()[index as int],
    {
        &self.attachment_constraints[index]
    }

    pub fn get_spring(&self, spring_index: usize) -> (s: &Spring)
        requires
            spring_index < self.springs_view().len(),
        ensures
            *s == self.springs_view()[spring_index as int],
    {
        &self.springs[spring_index]
    }

    /// The particle ids of collision layer `layer_id`, or `None` where no
    /// particle's mask sets that layer.
    pub fn layer_particle_ids(&self, layer_id: usize) -> (ids: Option<&Vec<usize>>)
        ensures
            match ids {
                Some(v) => self.layers_view().contains_key(layer_id) && v@ == self.layers_view()[layer_id],
                None => !self.layers_view().contains_key(layer_id),
            },
    {
        match self.layer_map.get(&layer_id) {
            Some(layer) => Some(&layer.particle_ids),
            None => None,
        }
    }
}

/// A particle belongs to collision layer `layer` exactly when its mask sets
/// that layer; a layer exists exactly when some particle's mask sets it.
pub proof fn lemma_layer_membership(pa: &ParticleAccelerator, layer: usize, particle_id: usize)
    requires
        pa.wf(),
    ensures
        (pa.layers_view().contains_key(layer) && pa.layers_view()[layer].contains(particle_id)) <==> (
        particle_id < pa.particles_view().len() && mask_has_layer(
            pa.particles_view()[particle_id as int].mask,
            layer as int,
        )),
        pa.layers_view().contains_key(layer) <==> exists|p: int|
            0 <= p < pa.particles_view().len() && mask_has_layer(
                #[trigger] pa.particles_view()[p].mask,
                layer as int,
            ),
{
    lemma_layer_members(pa.masks(), layer as int);
    let m = layer_members(pa.masks(), layer as int);
    if particle_id < pa.particles_view().len() {
        assert(pa.masks()[particle_id as int] == pa.particles_view()[particle_id as int].mask);
    }
    if pa.layers_view().contains_key(layer) {
        assert(m.len() > 0);
        let q = m[0];
        assert(m.contains(q));
        assert(pa.masks()[q as int] == pa.particles_view()[q as int].mask);
    }
    if exists|p: int|
        0 <= p < pa.particles_view().len() && mask_has_layer(
            #[trigger] pa.particles_view()[p].mask,
            layer as int,
        ) {
        let p = choose|p: int|
            0 <= p < pa.particles_view().len() && mask_has_layer(
                #[trigger] pa.particles_view()[p].mask,
                layer as int,
            );
        assert(pa.masks()[p] == pa.particles_view()[p].mask);
        assert(m.contains(p as usize));
    }
}

/// A particle whose mask is zero belongs to no collision layer.
pub proof fn lemma_zero_mask_in_no_layer(pa: &ParticleAccelerator, layer: usize, particle_id: usize)
    requires
        pa.wf(),
        particle_id < pa.particles_view().len(),
        pa.particles_view()[particle_id as int].mask == 0,
    ensures
        !(pa.layers_view().contains_key(layer) && pa.layers_view()[layer].contains(particle_id)),
{
    lemma_layer_membership(pa, layer, particle_id);
    if layer < 32 {
        let l = layer as u32;
        assert((0u32 >> l) & 1u32 == 0u32) by (bit_vector);
    }
}

/// Helps apply forces to groups of particles.
pub struct ParticleManipulator {}

impl ParticleManipulator {
    pub fn new() -> (m: Self)
        ensures
            m == (ParticleManipulator {}),
    {
        Self {}
    }
}

} // verus!
