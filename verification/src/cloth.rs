use std::collections::HashMap;
use vstd::prelude::*;

use crate::color::Color;
use crate::particle_accelerator::{
    Particle, ParticleAccelerator, ParticleHandle, Stick, StickHandle,
};
use crate::shape_builder::{
    grid_cell_prim, grid_fits, grid_prims, grid_sticks, lemma_grid_prims, lemma_grid_sticks_bounded, GridKind,
    ParticlePrim, ShapeBuilder,
};

verus! {

broadcast use vstd::std_specs::hash::group_hash_axioms;

/// An item is in a sequence with one more item pushed exactly when it is
/// that item or was already in the sequence.
pub proof fn lemma_push_contains<T>(s: Seq<T>, x: T, y: T)
    ensures
        s.push(x).contains(y) <==> (s.contains(y) || y == x),
{
    if s.push(x).contains(y) {
        let i = choose|i: int| 0 <= i < s.push(x).len() && s.push(x)[i] == y;
        if i < s.len() {
            assert(s[i] == y);
        }
    }
    if s.contains(y) {
        let i = choose|i: int| 0 <= i < s.len() && s[i] == y;
        assert(s.push(x)[i] == y);
    }
    if y == x {
        assert(s.push(x)[s.len() as int] == y);
    }
}

/// The colour of a particle under the mouse cursor.
pub open spec fn selected_color() -> Color {
    Color { r: 128, g: 0, b: 0, a: 255 }
}

/// The colour of a particle away from the mouse cursor.
pub open spec fn unselected_color() -> Color {
    Color { r: 0, g: 128, b: 0, a: 255 }
}

/// Whether the selection marks the particle selected.
pub open spec fn is_marked(selection: Map<usize, bool>, particle_id: usize) -> bool {
    selection.contains_key(particle_id) && selection[particle_id]
}

/// A hanging cloth: a grid of particles tied left and up, the top row
/// pinned at every other column. Mouse selection colours its particles and
/// cuts its sticks.
pub struct Cloth {
    particle_handles: Vec<ParticleHandle>,
    stick_handles: Vec<StickHandle>,
}

impl Cloth {
    pub closed spec fn particle_ids(&self) -> Seq<usize> {
        self.particle_handles@.map_values(|h: ParticleHandle| h.spec_id())
    }

    pub closed spec fn stick_ids(&self) -> Seq<usize> {
        self.stick_handles@.map_values(|h: StickHandle| h.spec_id())
    }

    /// The cloth's particles and sticks each have consecutive ids.
    pub open spec fn wf(&self) -> bool {
        &&& self.particle_ids().len() > 0 ==> forall|i: int|
            0 <= i < self.particle_ids().len() ==> #[trigger] self.particle_ids()[i]
                == self.particle_ids()[0] + i
        &&& self.stick_ids().len() > 0 ==> forall|i: int|
            0 <= i < self.stick_ids().len() ==> #[trigger] self.stick_ids()[i] == self.stick_ids()[0]
                + i
    }

    /// The cloth fits the accelerator: its particles and sticks exist there,
    /// and its sticks' ends are particles there.
    pub open spec fn fits(&self, pa: &ParticleAccelerator) -> bool {
        &&& forall|i: int|
            0 <= i < self.particle_ids().len() ==> #[trigger] self.particle_ids()[i]
                < pa.particles_view().len()
        &&& forall|i: int|
            0 <= i < self.stick_ids().len() ==> #[trigger] self.stick_ids()[i]
                < pa.sticks_view().len()
        &&& forall|i: int|
            0 <= i < self.stick_ids().len() ==> pa.sticks_view()[#[trigger] self.stick_ids()[i] as int].particle_indicies[0]
                < pa.particles_view().len() && pa.sticks_view()[self.stick_ids()[i] as int].particle_indicies[1]
                < pa.particles_view().len()
    }

    /// Creates a cloth of 11 by 11 particles on the no-collision mask (mask
    /// zero): columns and rows `0..=10` laid out as `add_cloth_grid` lays
    /// them out, all in one opaque colour.
    pub fn new(particle_accelerator: &mut ParticleAccelerator) -> (c: Self)
        requires
            old(particle_accelerator).wf(),
            old(particle_accelerator).particles_view().len() + 121 < usize::MAX,
            old(particle_accelerator).sticks_view().len() + grid_sticks(GridKind::Cloth, 0, 10, 11).len()
                < usize::MAX,
        ensures
            ({
                let base = old(particle_accelerator).particles_view().len() as int;
                let stick_base = old(particle_accelerator).sticks_view().len() as int;
                let pa = *final(particle_accelerator);
                let sticks = grid_sticks(GridKind::Cloth, 0, 10, 11);
                &&& pa.wf()
                &&& c.wf()
                &&& c.fits(&pa)
                &&& c.particle_ids() == Seq::new(121, |i: int| (base + i) as usize)
                &&& c.stick_ids() == Seq::new(sticks.len(), |i: int| (stick_base + i) as usize)
                &&& pa.particles_view().len() == base + 121
                &&& pa.particles_view().take(base) == old(particle_accelerator).particles_view()
                &&& pa.particles_view()[base].color.a == 255
                &&& forall|i: int|
                    0 <= i < 121 ==> #[trigger] pa.particles_view()[base + i] == (Particle {
                        id: (base + i) as usize,
                        mask: 0,
                        is_static: grid_prims(
                            GridKind::Cloth,
                            10,
                            11,
                            ParticlePrim { is_static: false, color: pa.particles_view()[base].color },
                        )[i].is_static,
                        color: pa.particles_view()[base].color,
                        is_enabled: true,
                    })
                &&& pa.sticks_view() == old(particle_accelerator).sticks_view() + Seq::new(
                    sticks.len(),
                    |i: int|
                        Stick {
                            particle_indicies: [
                                (base + sticks[i].0) as usize,
                                (base + sticks[i].1) as usize,
                            ],
                            is_enabled: true,
                        },
                )
                &&& pa.springs_view() == old(particle_accelerator).springs_view()
                &&& pa.attachments_view() == old(particle_accelerator).attachments_view()
            }),
    {
        let ghost base = particle_accelerator.particles_view().len() as int;
        let ghost stick_base = particle_accelerator.sticks_view().len() as int;
        let mut builder = ShapeBuilder::new();
        let ghost t = builder@.template();
        proof {
            assert(grid_fits(0, 10, 10)) by (nonlinear_arith);
        }
        builder.add_cloth_grid(10, 10);
        proof {
            lemma_grid_prims(GridKind::Cloth, 10, 11, t);
            lemma_grid_sticks_bounded(GridKind::Cloth, 0, 10, 11);
            assert(builder@.particles =~= grid_prims(GridKind::Cloth, 10, 11, t));
            assert(builder@.sticks =~= grid_sticks(GridKind::Cloth, 0, 10, 11));
            assert(builder@.springs.len() == 0);
        }
        builder.create_in_particle_accelerator(particle_accelerator, 0x0);
        let c = Cloth {
            particle_handles: builder.copy_particle_handles(),
            stick_handles: builder.copy_stick_handles(),
        };
        proof {
            let pa = particle_accelerator.particles_view();
            let prims = grid_prims(GridKind::Cloth, 10, 11, t);
            assert(c.particle_ids() =~= Seq::new(121, |i: int| (base + i) as usize));
            assert(pa.take(base) =~= old(particle_accelerator).particles_view());
            assert(prims[0int * (10int + 1) + 0int] == grid_cell_prim(GridKind::Cloth, 0, 0, t));
            assert(pa[base] == pa[base + 0]);
            assert(pa[base].color == t.color);
            assert forall|i: int| 0 <= i < 121 implies #[trigger] prims[i].color == t.color by {
                let x = i % 11;
                let y = i / 11;
                assert(i == y * 11 + x);
                assert(0 <= y < 11);
                assert(prims[y * (10 + 1) + x] == grid_cell_prim(GridKind::Cloth, x, y, t));
            }
            assert(ParticlePrim { is_static: false, color: pa[base].color } == ParticlePrim {
                is_static: false,
                color: t.color,
            });
            let sv = particle_accelerator.sticks_view();
            assert forall|i: int| 0 <= i < c.stick_ids().len() implies sv[#[trigger] c.stick_ids()[i] as int].particle_indicies[0]
                < pa.len() && sv[c.stick_ids()[i] as int].particle_indicies[1] < pa.len() by {
                assert(c.stick_ids()[i] == stick_base + i);
                assert(sv[stick_base + i] == Stick {
                    particle_indicies: [
                        (base + builder@.sticks[i].0) as usize,
                        (base + builder@.sticks[i].1) as usize,
                    ],
                    is_enabled: true,
                });
            }
        }
        c
    }

    pub fn particle_handles(&self) -> (h: &Vec<ParticleHandle>)
        ensures
            h@.map_values(|p: ParticleHandle| p.spec_id()) == self.particle_ids(),
    {
        &self.particle_handles
    }

    pub fn stick_handles(&self) -> (h: &Vec<StickHandle>)
        ensures
            h@.map_values(|p: StickHandle| p.spec_id()) == self.stick_ids(),
    {
        &self.stick_handles
    }

    /// Colours each particle by whether the mouse cursor is over it
    /// (`is_selected`, in the order of the cloth's particles) and returns the
    /// selection by particle id.
    pub fn update_selection(&self, particle_accelerator: &mut ParticleAccelerator, is_selected: &Vec<bool>) -> (selection: HashMap<usize, bool>)
        requires
            old(particle_accelerator).wf(),
            self.wf(),
            self.fits(&*old(particle_accelerator)),
            is_selected@.len() == self.particle_ids().len(),
        ensures
            final(particle_accelerator).wf(),
            final(particle_accelerator).particles_view().len() == old(particle_accelerator).particles_view().len(),
            forall|i: int|
                0 <= i < self.particle_ids().len() ==> final(particle_accelerator).particles_view()[#[trigger] self.particle_ids()[i] as int]
                    == (Particle {
                    color: if is_selected@[i] {
                        selected_color()
                    } else {
                        unselected_color()
                    },
                    ..old(particle_accelerator).particles_view()[self.particle_ids()[i] as int]
                }),
            forall|p: int|
                0 <= p < old(particle_accelerator).particles_view().len() && !self.particle_ids().contains(p as usize)
                    ==> #[trigger] final(particle_accelerator).particles_view()[p] == old(particle_accelerator).particles_view()[p],
            final(particle_accelerator).sticks_view() == old(particle_accelerator).sticks_view(),
            final(particle_accelerator).springs_view() == old(particle_accelerator).springs_view(),
            final(particle_accelerator).attachments_view() == old(particle_accelerator).attachments_view(),
            final(particle_accelerator).layers_view() == old(particle_accelerator).layers_view(),
            forall|i: int|
                0 <= i < self.particle_ids().len() ==> selection@.contains_key(#[trigger] self.particle_ids()[i])
                    && selection@[self.particle_ids()[i]] == is_selected@[i],
            forall|k: usize| #[trigger] selection@.contains_key(k) ==> self.particle_ids().contains(k),
    {
        let ghost ids = self.particle_ids();
        let ghost p0 = particle_accelerator.particles_view();
        let mut selection: HashMap<usize, bool> = HashMap::new();
        let mut i: usize = 0;
        while i < self.particle_handles.len()
            invariant
                i <= ids.len(),
                ids == self.particle_ids(),
                ids.len() == self.particle_handles@.len(),
                self.wf(),
                self.fits(&*old(particle_accelerator)),
                is_selected@.len() == ids.len(),
                p0 == old(particle_accelerator).particles_view(),
                particle_accelerator.wf(),
                particle_accelerator.particles_view().len() == p0.len(),
                forall|q: int|
                    0 <= q < i ==> particle_accelerator.particles_view()[#[trigger] ids[q] as int]
                        == (Particle {
                        color: if is_selected@[q] {
                            selected_color()
                        } else {
                            unselected_color()
                        },
                        ..p0[ids[q] as int]
                    }),
                forall|p: int|
                    0 <= p < p0.len() && !ids.take(i as int).contains(p as usize)
                        ==> #[trigger] particle_accelerator.particles_view()[p] == p0[p],
                particle_accelerator.sticks_view() == old(particle_accelerator).sticks_view(),
                particle_accelerator.springs_view() == old(particle_accelerator).springs_view(),
                particle_accelerator.attachments_view() == old(particle_accelerator).attachments_view(),
                particle_accelerator.layers_view() == old(particle_accelerator).layers_view(),
                forall|q: int|
                    0 <= q < i ==> selection@.contains_key(#[trigger] ids[q]) && selection@[ids[q]]
                        == is_selected@[q],
                forall|k: usize| #[trigger] selection@.contains_key(k) ==> ids.take(i as int).contains(k),
            decreases ids.len() - i,
        {
            let particle_handle = self.particle_handles[i];
            let selected = is_selected[i];
            let color = if selected {
                Color::rgb(128, 0, 0)
            } else {
                Color::rgb(0, 128, 0)
            };
            proof {
                assert(ids[i as int] == particle_handle.spec_id());
                assert(particle_handle.spec_id() < p0.len());
            }
            particle_accelerator.set_particle_color(&particle_handle, color);
            selection.insert(particle_handle.id(), selected);
            proof {
                assert(ids.take(i + 1) =~= ids.take(i as int).push(ids[i as int]));
                assert forall|y: usize| #[trigger] ids.take(i + 1).contains(y) <==> (ids.take(i as int).contains(y) || y == ids[i as int]) by {
                    lemma_push_contains(ids.take(i as int), ids[i as int], y);
                }
                assert forall|q: int| 0 <= q < i implies ids[q] != ids[i as int] by {
                    if ids.len() > 0 {
                        assert(ids[q] == ids[0] + q);
                        assert(ids[i as int] == ids[0] + i);
                    }
                }
            }
            i = i + 1;
        }
        proof {
            assert(ids.take(i as int) =~= ids);
        }
        selection
    }

    /// Cuts the cloth where it is selected: each of its sticks with a
    /// selected end is disabled, and so is each selected particle at the end
    /// of one of its sticks.
    pub fn cut_sticks(&self, particle_accelerator: &mut ParticleAccelerator, selection: &HashMap<usize, bool>)
        requires
            old(particle_accelerator).wf(),
            self.wf(),
            self.fits(&*old(particle_accelerator)),
        ensures
            ({
                let old_sticks = old(particle_accelerator).sticks_view();
                let old_particles = old(particle_accelerator).particles_view();
                let ids = self.stick_ids();
                let pa = *final(particle_accelerator);
                &&& pa.wf()
                &&& pa.particles_view().len() == old_particles.len()
                &&& pa.sticks_view().len() == old_sticks.len()
                &&& forall|s: int|
                    0 <= s < old_sticks.len() ==> #[trigger] pa.sticks_view()[s] == (Stick {
                        is_enabled: old_sticks[s].is_enabled && !(ids.contains(s as usize) && (
                        is_marked(selection@, old_sticks[s].particle_indicies[0]) || is_marked(
                            selection@,
                            old_sticks[s].particle_indicies[1],
                        ))),
                        ..old_sticks[s]
                    })
                &&& forall|p: int|
                    0 <= p < old_particles.len() ==> #[trigger] pa.particles_view()[p] == (Particle {
                        is_enabled: old_particles[p].is_enabled && !(is_marked(selection@, p as usize)
                            && cut_end(old_sticks, ids, ids.len() as int, p as usize)),
                        ..old_particles[p]
                    })
                &&& pa.springs_view() == old(particle_accelerator).springs_view()
                &&& pa.attachments_view() == old(particle_accelerator).attachments_view()
                &&& pa.layers_view() == old(particle_accelerator).layers_view()
            }),
    {
        let ghost ids = self.stick_ids();
        let ghost s0 = particle_accelerator.sticks_view();
        let ghost p0 = particle_accelerator.particles_view();
        let mut j: usize = 0;
        while j < self.stick_handles.len()
            invariant
                j <= ids.len(),
                ids == self.stick_ids(),
                ids.len() == self.stick_handles@.len(),
                self.wf(),
                self.fits(&*old(particle_accelerator)),
                s0 == old(particle_accelerator).sticks_view(),
                p0 == old(particle_accelerator).particles_view(),
                particle_accelerator.wf(),
                particle_accelerator.particles_view().len() == p0.len(),
                particle_accelerator.sticks_view().len() == s0.len(),
                forall|s: int|
                    0 <= s < s0.len() ==> #[trigger] particle_accelerator.sticks_view()[s] == (Stick {
                        is_enabled: s0[s].is_enabled && !(ids.take(j as int).contains(s as usize) && (
                        is_marked(selection@, s0[s].particle_indicies[0]) || is_marked(
                            selection@,
                            s0[s].particle_indicies[1],
                        ))),
                        ..s0[s]
                    }),
                forall|p: int|
                    0 <= p < p0.len() ==> #[trigger] particle_accelerator.particles_view()[p] == (Particle {
                        is_enabled: p0[p].is_enabled && !(is_marked(selection@, p as usize) && cut_end(
                            s0,
                            ids,
                            j as int,
                            p as usize,
                        )),
                        ..p0[p]
                    }),
                particle_accelerator.springs_view() == old(particle_accelerator).springs_view(),
                particle_accelerator.attachments_view() == old(particle_accelerator).attachments_view(),
                particle_accelerator.layers_view() == old(particle_accelerator).layers_view(),
            decreases ids.len() - j,
        {
            let stick_handle = self.stick_handles[j];
            proof {
                assert(ids[j as int] == stick_handle.spec_id());
                assert(stick_handle.spec_id() < s0.len());
            }
            let stick = *particle_accelerator.get_stick(&stick_handle);
            let a = stick.particle_indicies[0];
            let b = stick.particle_indicies[1];
            proof {
                assert(stick.particle_indicies == s0[ids[j as int] as int].particle_indicies);
                assert(a < p0.len() && b < p0.len());
            }
            let a_is_selected = match selection.get(&a) {
                Some(v) => *v,
                None => false,
            };
            let b_is_selected = match selection.get(&b) {
                Some(v) => *v,
                None => false,
            };
            let ghost before_p = particle_accelerator.particles_view();
            let ghost before_s = particle_accelerator.sticks_view();
            // disable the stick and particles in the mouse area
            let a_particle_handle = ParticleHandle::new(a);
            let b_particle_handle = ParticleHandle::new(b);
            if a_is_selected {
                particle_accelerator.set_particle_enabled(&a_particle_handle, false);
                particle_accelerator.set_stick_enabled(&stick_handle, false);
            }
            if b_is_selected {
                particle_accelerator.set_particle_enabled(&b_particle_handle, false);
                particle_accelerator.set_stick_enabled(&stick_handle, false);
            }
            proof {
                let x = ids[j as int];
                assert(ids.take(j + 1) =~= ids.take(j as int).push(x));
                assert forall|y: usize| #[trigger] ids.take(j + 1).contains(y) <==> (ids.take(j as int).contains(y) || y == x) by {
                    lemma_push_contains(ids.take(j as int), x, y);
                }
                assert forall|p: usize| #[trigger] cut_end(s0, ids, j + 1, p) <==> (cut_end(s0, ids, j as int, p) || p == a || p == b) by {
                    if cut_end(s0, ids, j + 1, p) {
                        let i = choose|i: int| 0 <= i < j + 1 && (s0[#[trigger] ids[i] as int].particle_indicies[0] == p
                            || s0[ids[i] as int].particle_indicies[1] == p);
                        if i < j {
                            assert(cut_end(s0, ids, j as int, p));
                        }
                    }
                    if cut_end(s0, ids, j as int, p) {
                        let i = choose|i: int| 0 <= i < j && (s0[#[trigger] ids[i] as int].particle_indicies[0] == p
                            || s0[ids[i] as int].particle_indicies[1] == p);
                        assert(0 <= i < j + 1);
                    }
                    if p == a || p == b {
                        assert(s0[ids[j as int] as int].particle_indicies[0] == a);
                    }
                }
                assert(is_marked(selection@, a) == a_is_selected);
                assert(is_marked(selection@, b) == b_is_selected);
            }
            j = j + 1;
        }
        proof {
            assert(ids.take(j as int) =~= ids);
        }
    }
}

/// Whether `particle_id` is an end of one of the first `count` sticks the
/// list `ids` names.
pub open spec fn cut_end(sticks: Seq<Stick>, ids: Seq<usize>, count: int, particle_id: usize) -> bool {
    exists|i: int|
        0 <= i < count && (sticks[#[trigger] ids[i] as int].particle_indicies[0] == particle_id
            || sticks[ids[i] as int].particle_indicies[1] == particle_id)
}

} // verus!
