use vstd::prelude::*;

verus! {

/// The sticks of a ring of `divisions` particles: each tied to the next,
/// the last back to the first.
pub open spec fn ring_sticks(divisions: int) -> Seq<(usize, usize)> {
    Seq::new(
        (if divisions > 0 { divisions } else { 0 }) as nat,
        |i: int| (i as usize, (if i + 1 == divisions { 0 } else { i + 1 }) as usize),
    )
}

/// The spokes of a ring of `divisions` particles: each particle of the first
/// half tied to the one opposite it.
pub open spec fn spoke_sticks(divisions: int) -> Seq<(usize, usize)> {
    Seq::new((divisions / 2) as nat, |i: int| (i as usize, (i + divisions / 2) as usize))
}

/// The sticks of a ring of `divisions` particles tied each to the next.
pub fn adjacent_ring_sticks(divisions: usize) -> (sticks: Vec<(usize, usize)>)
    ensures
        sticks@ == ring_sticks(divisions as int),
{
    let mut sticks: Vec<(usize, usize)> = Vec::new();
    let mut i: usize = 0;
    while i < divisions
        invariant
            i <= divisions,
            sticks@ == ring_sticks(divisions as int).take(i as int),
        decreases divisions - i,
    {
        let next = if i + 1 == divisions {
            0
        } else {
            i + 1
        };
        sticks.push((i, next));
        i = i + 1;
        proof {
            assert(sticks@ =~= ring_sticks(divisions as int).take(i as int));
        }
    }
    proof {
        assert(sticks@ =~= ring_sticks(divisions as int));
    }
    sticks
}

/// The sticks of a spoked wheel of `divisions` particles: first the spokes
/// between opposite particles, then the ring of each particle to the next.
pub fn spoke_wheel_sticks(divisions: usize) -> (sticks: Vec<(usize, usize)>)
    ensures
        sticks@ == spoke_sticks(divisions as int) + ring_sticks(divisions as int),
        sticks@.len() == divisions / 2 + divisions,
        forall|i: int|
            0 <= i < divisions / 2 ==> #[trigger] sticks@[i] == (i as usize, (i + divisions / 2) as usize),
        forall|i: int|
            0 <= i < divisions ==> #[trigger] sticks@[divisions / 2 + i] == (i as usize, (if i + 1
                < divisions {
                i + 1
            } else {
                0
            }) as usize),
{
    let mut sticks: Vec<(usize, usize)> = Vec::new();
    let half_divisions = divisions / 2;
    let mut i: usize = 0;
    while i < half_divisions
        invariant
            i <= half_divisions,
            half_divisions == divisions / 2,
            sticks@ == spoke_sticks(divisions as int).take(i as int),
        decreases half_divisions - i,
    {
        let opposite_division = i + half_divisions;
        sticks.push((i, opposite_division));
        i = i + 1;
        proof {
            assert(sticks@ =~= spoke_sticks(divisions as int).take(i as int));
        }
    }
    let mut ring = adjacent_ring_sticks(divisions);
    proof {
        assert(spoke_sticks(divisions as int).take(i as int) =~= spoke_sticks(divisions as int));
    }
    sticks.append(&mut ring);
    proof {
        lemma_spokes_join_opposite_particles(divisions as int);
        lemma_ring_joins_neighbours(divisions as int);
    }
    sticks
}

/// Each spoke of a wheel of `n` particles joins particle `i` of the first
/// half to the particle half the wheel further on; on a wheel of an even
/// number of particles that is the one opposite it, `n / 2` steps away
/// either way round.
pub proof fn lemma_spokes_join_opposite_particles(n: int)
    requires
        0 <= n <= usize::MAX,
    ensures
        spoke_sticks(n).len() == n / 2,
        forall|i: int|
            0 <= i < n / 2 ==> (#[trigger] spoke_sticks(n)[i]).0 == i && spoke_sticks(n)[i].1 == i + n
                / 2 && spoke_sticks(n)[i].1 < n,
        n % 2 == 0 ==> forall|i: int|
            0 <= i < n / 2 ==> (#[trigger] spoke_sticks(n)[i]).1 - spoke_sticks(n)[i].0 == n / 2
                && n - (spoke_sticks(n)[i].1 - spoke_sticks(n)[i].0) == n / 2,
{
}

/// The ring of `n` particles ties each particle to the next, the last back
/// to the first: `n` sticks, each joining two neighbours.
pub proof fn lemma_ring_joins_neighbours(n: int)
    requires
        0 <= n <= usize::MAX,
    ensures
        ring_sticks(n).len() == n,
        forall|i: int|
            0 <= i < n ==> (#[trigger] ring_sticks(n)[i]).0 == i && ring_sticks(n)[i].1 == (if i + 1 < n {
                i + 1
            } else {
                0
            }),
{
}

/// The positions, among `particle_count` particles, of `count` particles
/// spread evenly from the first: every `particle_count / count`-th.
pub fn even_distribution_indicies(particle_count: usize, count: usize) -> (indicies: Vec<usize>)
    requires
        count > 0,
        particle_count > 0,
    ensures
        indicies@ == Seq::new(count as nat, |pn: int| (pn * (particle_count / count)) as usize),
        forall|k: int| 0 <= k < indicies@.len() ==> #[trigger] indicies@[k] < particle_count,
{
    let step = particle_count / count;
    let mut indicies: Vec<usize> = Vec::new();
    let mut pn: usize = 0;
    while pn < count
        invariant
            pn <= count,
            count > 0,
            particle_count > 0,
            step == particle_count / count,
            indicies@ == Seq::new(pn as nat, |q: int| (q * (particle_count / count)) as usize),
            forall|k: int| 0 <= k < indicies@.len() ==> #[trigger] indicies@[k] < particle_count,
        decreases count - pn,
    {
        proof {
            assert(pn * step < particle_count) by (nonlinear_arith)
                requires
                    pn < count,
                    step == particle_count / count,
                    count > 0,
                    particle_count > 0,
            ;
            assert(0 <= pn * step) by (nonlinear_arith)
                requires
                    pn >= 0,
                    step >= 0,
            ;
        }
        let p_idx = pn * step;
        indicies.push(p_idx);
        pn = pn + 1;
        proof {
            assert(indicies@ =~= Seq::new(pn as nat, |q: int| (q * (particle_count / count)) as usize));
        }
    }
    indicies
}

} // verus!
