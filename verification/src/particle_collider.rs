use vstd::prelude::*;

use crate::layers::mask_has_layer;
use crate::particle_accelerator::{
    lemma_layer_members, lemma_layer_membership, lemma_zero_mask_in_no_layer, layer_members, Particle,
    ParticleAccelerator,
};

verus! {

/// Whether two particles are tested against each other: not both static,
/// and both enabled.
pub open spec fn collides(particles: Seq<Particle>, a: usize, b: usize) -> bool {
    &&& !(particles[a as int].is_static && particles[b as int].is_static)
    &&& particles[a as int].is_enabled
    &&& particles[b as int].is_enabled
}

/// The pairs `(ids[ai], ids[bi])` for `ai < bi < end` that collide, in
/// increasing `bi`.
pub open spec fn row_pairs(ids: Seq<usize>, particles: Seq<Particle>, ai: int, end: int) -> Seq<
    (usize, usize),
>
    decreases end - ai,
{
    if end <= ai + 1 {
        Seq::empty()
    } else {
        row_pairs(ids, particles, ai, end - 1) + (if collides(particles, ids[ai], ids[end - 1]) {
            seq![(ids[ai], ids[end - 1])]
        } else {
            Seq::empty()
        })
    }
}

/// The colliding pairs `(ids[ai], ids[bi])` with `ai < bi` and `ai < n`, in
/// lexicographic order of `(ai, bi)`.
pub open spec fn layer_pairs(ids: Seq<usize>, particles: Seq<Particle>, n: int) -> Seq<
    (usize, usize),
>
    decreases n,
{
    if n <= 0 {
        Seq::empty()
    } else {
        layer_pairs(ids, particles, n - 1) + row_pairs(ids, particles, n - 1, ids.len() as int)
    }
}

/// Every pair of `row_pairs` comes from two positions of `ids`, the first
/// before the second, and collides.
pub proof fn lemma_row_pairs(ids: Seq<usize>, particles: Seq<Particle>, ai: int, end: int)
    requires
        0 <= ai,
        end <= ids.len(),
    ensures
        forall|x: int|
            #![trigger row_pairs(ids, particles, ai, end)[x]]
            0 <= x < row_pairs(ids, particles, ai, end).len() ==> exists|bi: int|
                #![trigger ids[bi]]
                ai < bi < end && row_pairs(ids, particles, ai, end)[x] == (ids[ai], ids[bi])
                    && collides(particles, ids[ai], ids[bi]),
    decreases end - ai,
{
    if end > ai + 1 {
        lemma_row_pairs(ids, particles, ai, end - 1);
        let r = row_pairs(ids, particles, ai, end);
        let p = row_pairs(ids, particles, ai, end - 1);
        assert forall|x: int| #![trigger r[x]] 0 <= x < r.len() implies exists|bi: int|
            #![trigger ids[bi]]
            ai < bi < end && r[x] == (ids[ai], ids[bi]) && collides(particles, ids[ai], ids[bi]) by {
            if x < p.len() {
                assert(r[x] == p[x]);
                let bi = choose|bi: int|
                    #![trigger ids[bi]]
                    ai < bi < end - 1 && p[x] == (ids[ai], ids[bi]) && collides(
                        particles,
                        ids[ai],
                        ids[bi],
                    );
                assert(r[x] == (ids[ai], ids[bi]));
            } else {
                assert(r[x] == (ids[ai], ids[end - 1]));
            }
        }
    }
}

/// Every pair of `layer_pairs` comes from two positions of `ids`, the first
/// before the second, and collides.
pub proof fn lemma_layer_pairs(ids: Seq<usize>, particles: Seq<Particle>, n: int)
    requires
        n <= ids.len(),
    ensures
        forall|x: int|
            #![trigger layer_pairs(ids, particles, n)[x]]
            0 <= x < layer_pairs(ids, particles, n).len() ==> exists|ai: int, bi: int|
                #![trigger ids[ai], ids[bi]]
                0 <= ai < bi < ids.len() && layer_pairs(ids, particles, n)[x] == (ids[ai], ids[bi])
                    && collides(particles, ids[ai], ids[bi]),
    decreases n,
{
    if n > 0 {
        lemma_layer_pairs(ids, particles, n - 1);
        lemma_row_pairs(ids, particles, n - 1, ids.len() as int);
        let l = layer_pairs(ids, particles, n);
        let p = layer_pairs(ids, particles, n - 1);
        let r = row_pairs(ids, particles, n - 1, ids.len() as int);
        assert forall|x: int| #![trigger l[x]] 0 <= x < l.len() implies exists|ai: int, bi: int|
            #![trigger ids[ai], ids[bi]]
            0 <= ai < bi < ids.len() && l[x] == (ids[ai], ids[bi]) && collides(
                particles,
                ids[ai],
                ids[bi],
            ) by {
            if x < p.len() {
                assert(l[x] == p[x]);
                let (ai, bi) = choose|ai: int, bi: int|
                    #![trigger ids[ai], ids[bi]]
                    0 <= ai < bi < ids.len() && p[x] == (ids[ai], ids[bi]) && collides(
                        particles,
                        ids[ai],
                        ids[bi],
                    );
                assert(l[x] == (ids[ai], ids[bi]));
            } else {
                assert(l[x] == r[x - p.len()]);
                let bi = choose|bi: int|
                    #![trigger ids[bi]]
                    n - 1 < bi < ids.len() && r[x - p.len()] == (ids[n - 1], ids[bi]) && collides(
                        particles,
                        ids[n - 1],
                        ids[bi],
                    );
                assert(l[x] == (ids[n - 1], ids[bi]));
            }
        }
    }
}

/// Handles the moving and colliding of particles and constraints.
pub struct ParticleCollider {}

impl ParticleCollider {
    pub fn new() -> (c: Self)
        ensures
            c == (ParticleCollider {}),
    {
        Self {}
    }

    /// How a correction between two particles is shared out, counted in
    /// halves: a static particle takes none of it, a free particle facing a
    /// static one all of it, two free particles half each. The two shares
    /// always make up the whole, so a static particle is moved only when it
    /// is the second of two static particles.
    pub fn compute_movement_weight(&self, a_is_static: bool, b_is_static: bool) -> (halves: (u8, u8))
        ensures
            halves.0 == (if a_is_static { 0u8 } else if b_is_static { 2u8 } else { 1u8 }),
            halves.0 + halves.1 == 2,
            a_is_static ==> halves.0 == 0,
            b_is_static && !a_is_static ==> halves.1 == 0,
    {
        let a_halves: u8 = if a_is_static { 0 } else if b_is_static { 2 } else { 1 };
        (a_halves, 2 - a_halves)
    }

    /// The ids of the collision layers that exist, in increasing order.
    pub fn layer_ids(&self, particle_accelerator: &ParticleAccelerator) -> (ids: Vec<usize>)
        ensures
            forall|k: usize| #[trigger]
                ids@.contains(k) <==> particle_accelerator.layers_view().contains_key(k) && k < 32,
            forall|i: int, j: int| 0 <= i < j < ids@.len() ==> #[trigger] ids@[i] < #[trigger] ids@[j],
    {
        let mut ids: Vec<usize> = Vec::new();
        let mut k: usize = 0;
        while k < 32
            invariant
                k <= 32,
                forall|q: usize| #[trigger]
                    ids@.contains(q) <==> particle_accelerator.layers_view().contains_key(q) && q < k,
                forall|i: int| 0 <= i < ids@.len() ==> #[trigger] ids@[i] < k,
                forall|i: int, j: int|
                    0 <= i < j < ids@.len() ==> #[trigger] ids@[i] < #[trigger] ids@[j],
            decreases 32 - k,
        {
            if particle_accelerator.layer_particle_ids(k).is_some() {
                let ghost before = ids@;
                ids.push(k);
                proof {
                    assert forall|q: usize| #[trigger] ids@.contains(q) <==> before.contains(q) || q
                        == k by {
                        if ids@.contains(q) {
                            let i = choose|i: int| 0 <= i < ids@.len() && ids@[i] == q;
                            if i < before.len() {
                                assert(before[i] == q);
                            }
                        }
                        if before.contains(q) {
                            let i = choose|i: int| 0 <= i < before.len() && before[i] == q;
                            assert(ids@[i] == q);
                        }
                        if q == k {
                            assert(ids@[before.len() as int] == q);
                        }
                    }
                }
            }
            k = k + 1;
        }
        ids
    }

    /// The pairs of particles of collision layer `layer_id` that the solver
    /// tests for overlap, in the order it tests them: for each position `ai`
    /// in the layer and each later position `bi`, the pair of particle ids,
    /// skipping pairs where both are static or either is disabled. Empty
    /// where the layer does not exist.
    pub fn collision_candidates(
        &self,
        particle_accelerator: &ParticleAccelerator,
        layer_id: usize,
    ) -> (pairs: Vec<(usize, usize)>)
        requires
            particle_accelerator.wf(),
        ensures
            pairs@ == (if particle_accelerator.layers_view().contains_key(layer_id) {
                let ids = particle_accelerator.layers_view()[layer_id];
                layer_pairs(ids, particle_accelerator.particles_view(), ids.len() as int)
            } else {
                Seq::empty()
            }),
    {
        let mut pairs: Vec<(usize, usize)> = Vec::new();
        match particle_accelerator.layer_particle_ids(layer_id) {
            None => pairs,
            Some(particle_ids) => {
                let ghost parts = particle_accelerator.particles_view();
                let ghost ids = particle_ids@;
                proof {
                    lemma_layer_members(particle_accelerator.masks(), layer_id as int);
                    assert(ids == layer_members(particle_accelerator.masks(), layer_id as int));
                }
                let particle_count: usize = particle_ids.len();
                let mut ai: usize = 0;
                while ai < particle_count
                    invariant
                        ai <= particle_count,
                        particle_count == ids.len(),
                        ids == particle_ids@,
                        parts == particle_accelerator.particles_view(),
                        forall|i: int| 0 <= i < ids.len() ==> #[trigger] ids[i] < parts.len(),
                        pairs@ == layer_pairs(ids, parts, ai as int),
                    decreases particle_count - ai,
                {
                    let mut bi: usize = ai + 1;
                    while bi < particle_count
                        invariant
                            ai < particle_count,
                            ai + 1 <= bi <= particle_count,
                            particle_count == ids.len(),
                            ids == particle_ids@,
                            parts == particle_accelerator.particles_view(),
                            forall|i: int| 0 <= i < ids.len() ==> #[trigger] ids[i] < parts.len(),
                            pairs@ == layer_pairs(ids, parts, ai as int) + row_pairs(
                                ids,
                                parts,
                                ai as int,
                                bi as int,
                            ),
                        decreases particle_count - bi,
                    {
                        let particle_id_a = particle_ids[ai];
                        let particle_id_b = particle_ids[bi];
                        let particle_a = particle_accelerator.get_particle_by_index(particle_id_a);
                        let particle_b = particle_accelerator.get_particle_by_index(particle_id_b);
                        let ghost before = pairs@;
                        if !(particle_a.is_static && particle_b.is_static) && particle_a.is_enabled
                            && particle_b.is_enabled {
                            pairs.push((particle_id_a, particle_id_b));
                        }
                        proof {
                            assert(pairs@ =~= layer_pairs(ids, parts, ai as int) + row_pairs(
                                ids,
                                parts,
                                ai as int,
                                bi + 1,
                            ));
                        }
                        bi = bi + 1;
                    }
                    proof {
                        assert(layer_pairs(ids, parts, ai + 1) == layer_pairs(ids, parts, ai as int)
                            + row_pairs(ids, parts, ai as int, ids.len() as int));
                    }
                    ai = ai + 1;
                }
                pairs
            },
        }
    }
}

/// Every pair the solver tests in a layer joins two particles of that layer,
/// the first before the second in it, that are enabled and not both static.
pub proof fn lemma_collision_candidates(pa: &ParticleAccelerator, layer_id: usize, x: int)
    requires
        pa.wf(),
        pa.layers_view().contains_key(layer_id),
        0 <= x < layer_pairs(
            pa.layers_view()[layer_id],
            pa.particles_view(),
            pa.layers_view()[layer_id].len() as int,
        ).len(),
    ensures
        ({
            let ids = pa.layers_view()[layer_id];
            let pair = layer_pairs(ids, pa.particles_view(), ids.len() as int)[x];
            &&& ids.contains(pair.0)
            &&& ids.contains(pair.1)
            &&& pair.0 < pair.1
            &&& collides(pa.particles_view(), pair.0, pair.1)
        }),
{
    let ids = pa.layers_view()[layer_id];
    lemma_layer_pairs(ids, pa.particles_view(), ids.len() as int);
    lemma_layer_members(pa.masks(), layer_id as int);
    let pair = layer_pairs(ids, pa.particles_view(), ids.len() as int)[x];
    let (ai, bi) = choose|ai: int, bi: int|
        #![trigger ids[ai], ids[bi]]
        0 <= ai < bi < ids.len() && layer_pairs(ids, pa.particles_view(), ids.len() as int)[x] == (
            ids[ai],
            ids[bi],
        ) && collides(pa.particles_view(), ids[ai], ids[bi]);
    assert(ids[ai] < ids[bi]);
}

/// A particle on mask zero never collides: no pair the solver tests holds
/// it, in any layer.
pub proof fn lemma_zero_mask_never_collides(pa: &ParticleAccelerator, layer_id: usize, x: int, particle_id: usize)
    requires
        pa.wf(),
        pa.layers_view().contains_key(layer_id),
        0 <= x < layer_pairs(
            pa.layers_view()[layer_id],
            pa.particles_view(),
            pa.layers_view()[layer_id].len() as int,
        ).len(),
        particle_id < pa.particles_view().len(),
        pa.particles_view()[particle_id as int].mask == 0,
    ensures
        ({
            let ids = pa.layers_view()[layer_id];
            let pair = layer_pairs(ids, pa.particles_view(), ids.len() as int)[x];
            pair.0 != particle_id && pair.1 != particle_id
        }),
{
    lemma_collision_candidates(pa, layer_id, x);
    lemma_zero_mask_in_no_layer(pa, layer_id, particle_id);
}

/// `row_pairs` holds every colliding pair of its row.
proof fn lemma_row_pairs_complete(ids: Seq<usize>, particles: Seq<Particle>, ai: int, end: int, bi: int)
    requires
        0 <= ai < bi < end <= ids.len(),
        collides(particles, ids[ai], ids[bi]),
    ensures
        row_pairs(ids, particles, ai, end).contains((ids[ai], ids[bi])),
    decreases end - ai,
{
    let r = row_pairs(ids, particles, ai, end);
    if bi == end - 1 {
        assert(r[r.len() - 1] == (ids[ai], ids[bi]));
    } else {
        lemma_row_pairs_complete(ids, particles, ai, end - 1, bi);
        let p = row_pairs(ids, particles, ai, end - 1);
        let x = choose|x: int| 0 <= x < p.len() && p[x] == (ids[ai], ids[bi]);
        assert(r[x] == p[x]);
    }
}

/// `layer_pairs` holds every colliding pair whose first position is below `n`.
proof fn lemma_layer_pairs_complete(ids: Seq<usize>, particles: Seq<Particle>, n: int, ai: int, bi: int)
    requires
        0 <= ai < n <= ids.len(),
        ai < bi < ids.len(),
        collides(particles, ids[ai], ids[bi]),
    ensures
        layer_pairs(ids, particles, n).contains((ids[ai], ids[bi])),
    decreases n,
{
    let l = layer_pairs(ids, particles, n);
    let p = layer_pairs(ids, particles, n - 1);
    let r = row_pairs(ids, particles, n - 1, ids.len() as int);
    if ai == n - 1 {
        lemma_row_pairs_complete(ids, particles, ai, ids.len() as int, bi);
        let x = choose|x: int| 0 <= x < r.len() && r[x] == (ids[ai], ids[bi]);
        assert(l[p.len() + x] == r[x]);
    } else {
        lemma_layer_pairs_complete(ids, particles, n - 1, ai, bi);
        let x = choose|x: int| 0 <= x < p.len() && p[x] == (ids[ai], ids[bi]);
        assert(l[x] == p[x]);
    }
}

/// Every two particles of a collision layer are tested against each other,
/// the lower id first, unless both are static or either is disabled: the
/// candidates of the layer hold the pair.
pub proof fn lemma_collision_candidates_complete(pa: &ParticleAccelerator, layer_id: usize, p: usize, q: usize)
    requires
        pa.wf(),
        p < q < pa.particles_view().len(),
        mask_has_layer(pa.particles_view()[p as int].mask, layer_id as int),
        mask_has_layer(pa.particles_view()[q as int].mask, layer_id as int),
        !(pa.particles_view()[p as int].is_static && pa.particles_view()[q as int].is_static),
        pa.particles_view()[p as int].is_enabled,
        pa.particles_view()[q as int].is_enabled,
    ensures
        pa.layers_view().contains_key(layer_id),
        layer_pairs(
            pa.layers_view()[layer_id],
            pa.particles_view(),
            pa.layers_view()[layer_id].len() as int,
        ).contains((p, q)),
{
    lemma_layer_membership(pa, layer_id, p);
    lemma_layer_membership(pa, layer_id, q);
    lemma_layer_members(pa.masks(), layer_id as int);
    let ids = pa.layers_view()[layer_id];
    assert(ids == layer_members(pa.masks(), layer_id as int));
    let ai = choose|ai: int| 0 <= ai < ids.len() && ids[ai] == p;
    let bi = choose|bi: int| 0 <= bi < ids.len() && ids[bi] == q;
    if bi <= ai {
        if bi < ai {
            assert(ids[bi] < ids[ai]);
        }
        assert(false);
    }
    lemma_layer_pairs_complete(ids, pa.particles_view(), ids.len() as int, ai, bi);
}

/// Draws the particles, sticks and springs of an accelerator.
pub struct ParticleRenderer {}

impl ParticleRenderer {
    pub fn new() -> (r: Self)
        ensures
            r == (ParticleRenderer {}),
    {
        Self {}
    }
}

} // verus!
