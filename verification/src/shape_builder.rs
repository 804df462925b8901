use vstd::prelude::*;

use crate::color::Color;
use crate::topology::{adjacent_ring_sticks, ring_sticks};
use vstd::arithmetic::div_mod::lemma_mod_add_multiples_vanish;
use crate::particle_accelerator::{
    Particle, ParticleAccelerator, ParticleHandle, SpringHandle, Spring, Stick, StickHandle,
};

verus! {

/// What a shape knows of a particle beyond its geometry.
#[derive(Clone, Copy, PartialEq, Eq, Structural, Debug)]
pub struct ParticlePrim {
    pub is_static: bool,
    pub color: Color,
}

impl ParticlePrim {
    pub fn new(is_static: bool, color: Color) -> (p: Self)
        ensures
            p == (ParticlePrim { is_static, color }),
    {
        Self { is_static, color }
    }
}

/// A stick between two particles of the shape, by index.
#[derive(Clone, Copy, Debug)]
pub struct StickPrim {
    pub particle_indicies: [usize; 2],
}

/// A spring between two particles of the shape, by index.
#[derive(Clone, Copy, Debug)]
pub struct SpringPrim {
    pub particle_indicies: [usize; 2],
}

/// The index that `idx` names among `len` items: itself when not negative,
/// counted back from the end when negative (`-1` is the last).
pub open spec fn real_index(idx: i64, len: int) -> int {
    real_index_int(idx as int, len)
}

/// Turns a possibly negative index into one counted from the front: `-1`
/// is the last of `len` items, `-2` the one before it. An index further
/// back than the first item comes out as its `usize` cast, wrapped.
pub fn convert_to_real_index(idx: i64, len: usize) -> (r: usize)
    requires
        len <= i64::MAX,
    ensures
        r == real_index(idx, len as int) as usize,
        0 <= real_index(idx, len as int) <= usize::MAX ==> r == real_index(idx, len as int),
{
    if idx >= 0 {
        idx as usize
    } else {
        (len as i64 + idx) as usize
    }
}

/// The three grid layouts a shape builder lays out: bare particles, a cloth
/// (each particle tied left and up, every other particle of the top row
/// static) and a braced grid (tied left, up and to both upper diagonals).
#[derive(Clone, Copy, PartialEq, Eq, Structural, Debug)]
pub enum GridKind {
    Plain,
    Cloth,
    Braced,
}

/// The particle at column `x`, row `y` of a grid.
pub open spec fn grid_cell_prim(kind: GridKind, x: int, y: int, template: ParticlePrim) -> ParticlePrim {
    match kind {
        GridKind::Cloth => ParticlePrim { is_static: y == 0 && x % 2 == 0, color: template.color },
        _ => ParticlePrim { is_static: false, color: template.color },
    }
}

/// The sticks added with the particle at column `x`, row `y` of a grid of
/// columns `0..=w` whose first particle has index `base`. The particle above
/// is named by its index from the front of the builder, without `base`.
pub open spec fn grid_cell_sticks(kind: GridKind, base: int, w: int, x: int, y: int) -> Seq<(usize, usize)> {
    let idx = base + y * (w + 1) + x;
    let up = x + (y - 1) * (w + 1);
    let left: Seq<(usize, usize)> = if x != 0 {
        seq![((idx - 1) as usize, idx as usize)]
    } else {
        Seq::empty()
    };
    match kind {
        GridKind::Plain => Seq::empty(),
        GridKind::Cloth => left + (if y != 0 {
            seq![(up as usize, idx as usize)]
        } else {
            Seq::empty()
        }),
        GridKind::Braced => left + (if y != 0 {
            seq![(up as usize, idx as usize)] + (if x < w {
                seq![((up + 1) as usize, idx as usize)]
            } else {
                Seq::empty()
            }) + (if x > 0 {
                seq![((up - 1) as usize, idx as usize)]
            } else {
                Seq::empty()
            })
        } else {
            Seq::empty()
        }),
    }
}

/// The particles of the first `n` columns of row `y`.
pub open spec fn grid_row_prims(kind: GridKind, y: int, n: int, template: ParticlePrim) -> Seq<ParticlePrim>
    decreases n,
{
    if n <= 0 {
        Seq::empty()
    } else {
        grid_row_prims(kind, y, n - 1, template).push(grid_cell_prim(kind, n - 1, y, template))
    }
}

/// The particles of the first `rows` rows of a grid of columns `0..=w`.
pub open spec fn grid_prims(kind: GridKind, w: int, rows: int, template: ParticlePrim) -> Seq<ParticlePrim>
    decreases rows,
{
    if rows <= 0 {
        Seq::empty()
    } else {
        grid_prims(kind, w, rows - 1, template) + grid_row_prims(kind, rows - 1, w + 1, template)
    }
}

/// The sticks of the first `n` columns of row `y`.
pub open spec fn grid_row_sticks(kind: GridKind, base: int, w: int, y: int, n: int) -> Seq<(usize, usize)>
    decreases n,
{
    if n <= 0 {
        Seq::empty()
    } else {
        grid_row_sticks(kind, base, w, y, n - 1) + grid_cell_sticks(kind, base, w, n - 1, y)
    }
}

/// The sticks of the first `rows` rows of a grid of columns `0..=w`.
pub open spec fn grid_sticks(kind: GridKind, base: int, w: int, rows: int) -> Seq<(usize, usize)>
    decreases rows,
{
    if rows <= 0 {
        Seq::empty()
    } else {
        grid_sticks(kind, base, w, rows - 1) + grid_row_sticks(kind, base, w, rows - 1, w + 1)
    }
}

/// The number of rows a grid of `height` gets: `0..=height`, none when
/// either dimension is negative.
pub open spec fn grid_rows(width: i32, height: i32) -> int {
    if width < 0 || height < 0 {
        0
    } else {
        height + 1
    }
}

/// What a grid of the given size needs to be laid out without overflow:
/// the index of the particle above stays within `i32`, and the builder's
/// particle count within `i64`.
pub open spec fn grid_fits(len: int, width: i32, height: i32) -> bool {
    width >= 0 && height >= 0 ==> {
        &&& width < i32::MAX
        &&& (width + 1) * height - 1 <= i32::MAX
        &&& len + (width + 1) * (height + 1) <= i64::MAX
    }
}

/// The sticks `connect_adjacent_sticks` adds, from particle `i` on: each
/// particle `i` stepped by `stride` tied to the one `stick_stride` further
/// on, wrapping once past the end.
pub open spec fn adjacent_sticks_from(count: int, stride: int, stick_stride: int, i: int) -> Seq<(usize, usize)>
    decreases (if i < count { count - i } else { 0 }),
{
    if i >= count || stride <= 0 || i < 0 {
        Seq::empty()
    } else {
        let rk = real_index_int(adjacent_target(count, stick_stride, i), count);
        seq![(i as usize, rk as usize)] + adjacent_sticks_from(
            count,
            stride,
            stick_stride,
            i + stride,
        )
    }
}

/// The particle `connect_adjacent_sticks` ties particle `i` to, as the
/// possibly negative index it hands `add_stick`: `stick_stride` further on,
/// wrapping once past the last of `count` particles.
pub open spec fn adjacent_target(count: int, stick_stride: int, i: int) -> int {
    if i + stick_stride >= count {
        i + stick_stride - count
    } else {
        i + stick_stride
    }
}

/// Whether the particle that particle `i` is tied to is one of the `count`
/// particles.
pub open spec fn adjacent_target_fits(count: int, stick_stride: int, i: int) -> bool {
    0 <= real_index_int(adjacent_target(count, stick_stride, i), count) < count
}

/// The index a possibly negative index names among `len` items.
pub open spec fn real_index_int(idx: int, len: int) -> int {
    if idx >= 0 {
        idx
    } else {
        len + idx
    }
}

/// The sticks of `connect_with_stick_chain` from particle `i` on: within
/// each run of `per_line` particles, each tied to the next.
pub open spec fn chain_sticks_from(count: int, per_line: int, i: int) -> Seq<(usize, usize)>
    decreases (if i < count { count - i } else { 0 }),
{
    if i >= count || per_line <= 0 || i < 0 {
        Seq::empty()
    } else {
        Seq::new((per_line - 1) as nat, |k: int| ((i + k) as usize, (i + k + 1) as usize))
            + chain_sticks_from(count, per_line, i + per_line)
    }
}

/// A copy of a list of handles.
pub fn copy_handles(handles: &Vec<ParticleHandle>) -> (c: Vec<ParticleHandle>)
    ensures
        c@.map_values(|p: ParticleHandle| p.spec_id()) == handles@.map_values(
            |p: ParticleHandle| p.spec_id(),
        ),
{
    let mut c: Vec<ParticleHandle> = Vec::new();
    let mut i: usize = 0;
    while i < handles.len()
        invariant
            i <= handles@.len(),
            c@.len() == i,
            forall|q: int| 0 <= q < i ==> (#[trigger] c@[q]).spec_id() == handles@[q].spec_id(),
        decreases handles@.len() - i,
    {
        c.push(ParticleHandle::new(handles[i].id()));
        i = i + 1;
    }
    proof {
        assert(c@.map_values(|p: ParticleHandle| p.spec_id()) =~= handles@.map_values(
            |p: ParticleHandle| p.spec_id(),
        ));
    }
    c
}

/// The first `n` columns of a row: `n` particles, column `x` at position `x`.
pub proof fn lemma_grid_row_prims(kind: GridKind, y: int, n: int, template: ParticlePrim)
    requires
        n >= 0,
    ensures
        grid_row_prims(kind, y, n, template).len() == n,
        forall|x: int|
            0 <= x < n ==> #[trigger] grid_row_prims(kind, y, n, template)[x] == grid_cell_prim(
                kind,
                x,
                y,
                template,
            ),
    decreases n,
{
    if n > 0 {
        lemma_grid_row_prims(kind, y, n - 1, template);
    }
}

/// A grid of `rows` rows of `w + 1` columns holds `rows * (w + 1)`
/// particles, the one at column `x`, row `y` at position `y * (w + 1) + x`.
pub proof fn lemma_grid_prims(kind: GridKind, w: int, rows: int, template: ParticlePrim)
    requires
        w >= 0,
        rows >= 0,
    ensures
        grid_prims(kind, w, rows, template).len() == rows * (w + 1),
        forall|x: int, y: int|
            0 <= x <= w && 0 <= y < rows ==> #[trigger] grid_prims(kind, w, rows, template)[y * (w
                + 1) + x] == grid_cell_prim(kind, x, y, template),
    decreases rows,
{
    if rows > 0 {
        lemma_grid_prims(kind, w, rows - 1, template);
        lemma_grid_row_prims(kind, rows - 1, w + 1, template);
        let p = grid_prims(kind, w, rows - 1, template);
        let r = grid_row_prims(kind, rows - 1, w + 1, template);
        assert((rows - 1) * (w + 1) + (w + 1) == rows * (w + 1)) by (nonlinear_arith);
        assert forall|x: int, y: int| 0 <= x <= w && 0 <= y < rows implies #[trigger] grid_prims(
            kind,
            w,
            rows,
            template,
        )[y * (w + 1) + x] == grid_cell_prim(kind, x, y, template) by {
            if y < rows - 1 {
                assert(y * (w + 1) + x < (rows - 1) * (w + 1)) by (nonlinear_arith)
                    requires
                        0 <= x <= w,
                        0 <= y < rows - 1,
                ;
                assert(p[y * (w + 1) + x] == grid_cell_prim(kind, x, y, template));
            } else {
                assert(y * (w + 1) + x - p.len() == x);
                assert(r[x] == grid_cell_prim(kind, x, y, template));
            }
        }
    } else {
        assert(rows * (w + 1) == 0) by (nonlinear_arith)
            requires
                rows == 0,
        ;
    }
}

/// Every stick of the first `n` columns of row `y` joins two particles
/// before position `base + y * (w + 1) + n`, within `usize`.
pub proof fn lemma_grid_row_sticks_bounded(kind: GridKind, base: int, w: int, y: int, n: int)
    requires
        base >= 0,
        w >= 0,
        y >= 0,
        0 <= n <= w + 1,
        base + y * (w + 1) + n <= usize::MAX,
    ensures
        forall|i: int|
            0 <= i < grid_row_sticks(kind, base, w, y, n).len() ==> (#[trigger] grid_row_sticks(
                kind,
                base,
                w,
                y,
                n,
            )[i]).0 < base + y * (w + 1) + n && grid_row_sticks(kind, base, w, y, n)[i].1 < base + y
                * (w + 1) + n,
    decreases n,
{
    if n > 0 {
        lemma_grid_row_sticks_bounded(kind, base, w, y, n - 1);
        let x = n - 1;
        let idx = base + y * (w + 1) + x;
        let up = x + (y - 1) * (w + 1);
        assert(y * (w + 1) >= 0) by (nonlinear_arith)
            requires
                y >= 0,
                w >= 0,
        ;
        if y > 0 {
            assert((y - 1) * (w + 1) == y * (w + 1) - (w + 1)) by (nonlinear_arith);
            assert((y - 1) * (w + 1) >= 0) by (nonlinear_arith)
                requires
                    y >= 1,
                    w >= 0,
            ;
        }
        let cell = grid_cell_sticks(kind, base, w, x, y);
        let prev = grid_row_sticks(kind, base, w, y, n - 1);
        assert forall|i: int| 0 <= i < cell.len() implies (#[trigger] cell[i]).0 < idx + 1
            && cell[i].1 < idx + 1 by {
        }
    }
}

/// In a cloth grid of columns `0..=w` the particle at column `x`, row `y`
/// is static exactly when it is in the top row and an even column: the
/// cloth hangs from every other particle of its top edge, and every
/// particle below the top row is free.
pub proof fn lemma_cloth_grid_pins_top_row(w: int, rows: int, template: ParticlePrim, x: int, y: int)
    requires
        0 <= w,
        0 <= x <= w,
        0 <= y < rows,
    ensures
        grid_prims(GridKind::Cloth, w, rows, template).len() == rows * (w + 1),
        grid_prims(GridKind::Cloth, w, rows, template)[y * (w + 1) + x].is_static <==> (y == 0 && x % 2
            == 0),
        y > 0 ==> !grid_prims(GridKind::Cloth, w, rows, template)[y * (w + 1) + x].is_static,
        grid_prims(GridKind::Cloth, w, rows, template)[y * (w + 1) + x].color == template.color,
{
    lemma_grid_prims(GridKind::Cloth, w, rows, template);
}

/// A stick of a grid's cell is a stick of the cell's row.
proof fn lemma_row_sticks_contain_cell(kind: GridKind, base: int, w: int, y: int, n: int, x: int, e: (usize, usize))
    requires
        0 <= x < n,
        grid_cell_sticks(kind, base, w, x, y).contains(e),
    ensures
        grid_row_sticks(kind, base, w, y, n).contains(e),
    decreases n,
{
    let r = grid_row_sticks(kind, base, w, y, n);
    let p = grid_row_sticks(kind, base, w, y, n - 1);
    let c = grid_cell_sticks(kind, base, w, n - 1, y);
    if x == n - 1 {
        let i = choose|i: int| 0 <= i < c.len() && c[i] == e;
        assert(r[p.len() + i] == c[i]);
    } else {
        lemma_row_sticks_contain_cell(kind, base, w, y, n - 1, x, e);
        let i = choose|i: int| 0 <= i < p.len() && p[i] == e;
        assert(r[i] == p[i]);
    }
}

/// A stick of a grid's row is a stick of the grid.
proof fn lemma_grid_sticks_contain_row(kind: GridKind, base: int, w: int, rows: int, y: int, e: (usize, usize))
    requires
        0 <= y < rows,
        grid_row_sticks(kind, base, w, y, w + 1).contains(e),
    ensures
        grid_sticks(kind, base, w, rows).contains(e),
    decreases rows,
{
    let g = grid_sticks(kind, base, w, rows);
    let p = grid_sticks(kind, base, w, rows - 1);
    let r = grid_row_sticks(kind, base, w, rows - 1, w + 1);
    if y == rows - 1 {
        let i = choose|i: int| 0 <= i < r.len() && r[i] == e;
        assert(g[p.len() + i] == r[i]);
    } else {
        lemma_grid_sticks_contain_row(kind, base, w, rows - 1, y, e);
        let i = choose|i: int| 0 <= i < p.len() && p[i] == e;
        assert(g[i] == p[i]);
    }
}

/// The number of sticks of the first `n` columns of row `y` of a braced grid.
proof fn lemma_braced_row_sticks_len(base: int, w: int, y: int, n: int)
    requires
        0 <= w,
        0 <= n <= w + 1,
    ensures
        grid_row_sticks(GridKind::Braced, base, w, y, n).len() == (if n > 0 { n - 1 } else { 0 }) + (
        if y != 0 {
            n + (if n <= w { n } else { w }) + (if n > 0 { n - 1 } else { 0 })
        } else {
            0
        }),
    decreases n,
{
    if n > 0 {
        lemma_braced_row_sticks_len(base, w, y, n - 1);
    }
}

/// A braced grid of columns `0..=w` and rows `0..=h` ties each particle to
/// its left neighbour, and each particle below the top row to the particle
/// above it and to those above-left and above-right of it where they exist:
/// `w * (h + 1)` horizontal, `(w + 1) * h` vertical and `2 * w * h`
/// diagonal sticks. Each particle's stick to the particle above and to the
/// right joins index `x + 1 + (y - 1) * (w + 1)` of the builder to the
/// particle's own index.
pub proof fn lemma_braced_grid_sticks(base: int, w: int, h: int, x: int, y: int)
    requires
        0 <= w,
        0 <= h,
        0 <= base,
        base + (w + 1) * (h + 1) <= usize::MAX,
    ensures
        grid_sticks(GridKind::Braced, base, w, h + 1).len() == w * (h + 1) + (w + 1) * h + 2 * w * h,
        0 < y <= h && 0 <= x < w ==> grid_sticks(GridKind::Braced, base, w, h + 1).contains(
            ((x + 1 + (y - 1) * (w + 1)) as usize, (base + y * (w + 1) + x) as usize),
        ),
        0 < y <= h && 0 < x <= w ==> grid_sticks(GridKind::Braced, base, w, h + 1).contains(
            ((x - 1 + (y - 1) * (w + 1)) as usize, (base + y * (w + 1) + x) as usize),
        ),
        0 < y <= h && 0 <= x <= w ==> grid_sticks(GridKind::Braced, base, w, h + 1).contains(
            ((x + (y - 1) * (w + 1)) as usize, (base + y * (w + 1) + x) as usize),
        ),
        0 <= y <= h && 0 < x <= w ==> grid_sticks(GridKind::Braced, base, w, h + 1).contains(
            ((base + y * (w + 1) + x - 1) as usize, (base + y * (w + 1) + x) as usize),
        ),
{
    lemma_braced_grid_sticks_len(base, w, h + 1);
    assert(w * (h + 1) + h * (3 * w + 1) == w * (h + 1) + (w + 1) * h + 2 * w * h) by (nonlinear_arith);
    let c = grid_cell_sticks(GridKind::Braced, base, w, x, y);
    let idx = base + y * (w + 1) + x;
    let up = x + (y - 1) * (w + 1);
    let left: Seq<(usize, usize)> = if x != 0 {
        seq![((idx - 1) as usize, idx as usize)]
    } else {
        Seq::empty()
    };
    if 0 <= y <= h && 0 <= x <= w {
        if y > 0 {
            let upper = seq![(up as usize, idx as usize)] + (if x < w {
                seq![((up + 1) as usize, idx as usize)]
            } else {
                Seq::empty()
            }) + (if x > 0 {
                seq![((up - 1) as usize, idx as usize)]
            } else {
                Seq::empty()
            });
            assert(c == left + upper);
            assert(c[left.len() as int] == (up as usize, idx as usize));
            lemma_row_sticks_contain_cell(GridKind::Braced, base, w, y, w + 1, x, (up as usize, idx as usize));
            lemma_grid_sticks_contain_row(GridKind::Braced, base, w, h + 1, y, (up as usize, idx as usize));
            if x < w {
                assert(c[left.len() as int + 1] == ((up + 1) as usize, idx as usize));
                assert(up + 1 == x + 1 + (y - 1) * (w + 1));
                lemma_row_sticks_contain_cell(GridKind::Braced, base, w, y, w + 1, x, ((up + 1) as usize, idx as usize));
                lemma_grid_sticks_contain_row(GridKind::Braced, base, w, h + 1, y, ((up + 1) as usize, idx as usize));
            }
            if x > 0 {
                let k: int = left.len() as int + 1 + (if x < w { 1int } else { 0int });
                assert(c[k] == ((up - 1) as usize, idx as usize));
                lemma_row_sticks_contain_cell(GridKind::Braced, base, w, y, w + 1, x, ((up - 1) as usize, idx as usize));
                lemma_grid_sticks_contain_row(GridKind::Braced, base, w, h + 1, y, ((up - 1) as usize, idx as usize));
            }
        }
        if x > 0 {
            assert(c[0] == ((idx - 1) as usize, idx as usize));
            lemma_row_sticks_contain_cell(GridKind::Braced, base, w, y, w + 1, x, ((idx - 1) as usize, idx as usize));
            lemma_grid_sticks_contain_row(GridKind::Braced, base, w, h + 1, y, ((idx - 1) as usize, idx as usize));
        }
    }
}

/// The number of sticks of the first `n` columns of row `y` of a cloth grid.
proof fn lemma_cloth_row_sticks_len(base: int, w: int, y: int, n: int)
    requires
        0 <= w,
        0 <= n <= w + 1,
    ensures
        grid_row_sticks(GridKind::Cloth, base, w, y, n).len() == (if n > 0 { n - 1 } else { 0 }) + (
        if y != 0 {
            n
        } else {
            0
        }),
    decreases n,
{
    if n > 0 {
        lemma_cloth_row_sticks_len(base, w, y, n - 1);
    }
}

/// The number of sticks of the first `rows` rows of a cloth grid.
proof fn lemma_cloth_grid_sticks_len(base: int, w: int, rows: int)
    requires
        0 <= w,
        0 <= rows,
    ensures
        grid_sticks(GridKind::Cloth, base, w, rows).len() == w * rows + (if rows > 0 {
            (rows - 1) * (w + 1)
        } else {
            0
        }),
    decreases rows,
{
    if rows > 0 {
        lemma_cloth_grid_sticks_len(base, w, rows - 1);
        lemma_cloth_row_sticks_len(base, w, rows - 1, w + 1);
        let p = grid_sticks(GridKind::Cloth, base, w, rows - 1);
        let r = grid_row_sticks(GridKind::Cloth, base, w, rows - 1, w + 1);
        assert(grid_sticks(GridKind::Cloth, base, w, rows).len() == p.len() + r.len());
        assert(w * (rows - 1) + w == w * rows) by (nonlinear_arith);
        if rows > 1 {
            assert((rows - 2) * (w + 1) + (w + 1) == (rows - 1) * (w + 1)) by (nonlinear_arith);
        } else {
            assert(w * 0 == 0);
        }
    }
}

/// A cloth grid of columns `0..=w` and rows `0..=h` ties each particle to
/// its left neighbour and each particle below the top row to the particle
/// above it, and nothing else: `w * (h + 1) + (w + 1) * h` sticks. The
/// stick to the particle above joins index `x + (y - 1) * (w + 1)` of the
/// builder to the particle's own index.
pub proof fn lemma_cloth_grid_sticks(base: int, w: int, h: int, x: int, y: int)
    requires
        0 <= w,
        0 <= h,
        0 <= base,
        base + (w + 1) * (h + 1) <= usize::MAX,
    ensures
        grid_sticks(GridKind::Cloth, base, w, h + 1).len() == w * (h + 1) + (w + 1) * h,
        0 < y <= h && 0 <= x <= w ==> grid_sticks(GridKind::Cloth, base, w, h + 1).contains(
            ((x + (y - 1) * (w + 1)) as usize, (base + y * (w + 1) + x) as usize),
        ),
        0 <= y <= h && 0 < x <= w ==> grid_sticks(GridKind::Cloth, base, w, h + 1).contains(
            ((base + y * (w + 1) + x - 1) as usize, (base + y * (w + 1) + x) as usize),
        ),
{
    lemma_cloth_grid_sticks_len(base, w, h + 1);
    assert(w * (h + 1) + h * (w + 1) == w * (h + 1) + (w + 1) * h) by (nonlinear_arith);
    let c = grid_cell_sticks(GridKind::Cloth, base, w, x, y);
    let idx = base + y * (w + 1) + x;
    let up = x + (y - 1) * (w + 1);
    let left: Seq<(usize, usize)> = if x != 0 {
        seq![((idx - 1) as usize, idx as usize)]
    } else {
        Seq::empty()
    };
    if 0 <= y <= h && 0 <= x <= w {
        if y > 0 {
            assert(c == left + seq![(up as usize, idx as usize)]);
            assert(c[left.len() as int] == (up as usize, idx as usize));
            lemma_row_sticks_contain_cell(GridKind::Cloth, base, w, y, w + 1, x, (up as usize, idx as usize));
            lemma_grid_sticks_contain_row(GridKind::Cloth, base, w, h + 1, y, (up as usize, idx as usize));
        }
        if x > 0 {
            assert(c[0] == ((idx - 1) as usize, idx as usize));
            lemma_row_sticks_contain_cell(GridKind::Cloth, base, w, y, w + 1, x, ((idx - 1) as usize, idx as usize));
            lemma_grid_sticks_contain_row(GridKind::Cloth, base, w, h + 1, y, ((idx - 1) as usize, idx as usize));
        }
    }
}

/// Every particle of a plain or braced grid is free.
pub proof fn lemma_plain_and_braced_grids_are_free(kind: GridKind, w: int, rows: int, template: ParticlePrim, x: int, y: int)
    requires
        kind != GridKind::Cloth,
        0 <= w,
        0 <= x <= w,
        0 <= y < rows,
    ensures
        !grid_prims(kind, w, rows, template)[y * (w + 1) + x].is_static,
        grid_prims(kind, w, rows, template)[y * (w + 1) + x].color == template.color,
{
    lemma_grid_prims(kind, w, rows, template);
}

/// The number of sticks of the first `rows` rows of a braced grid.
proof fn lemma_braced_grid_sticks_len(base: int, w: int, rows: int)
    requires
        0 <= w,
        0 <= rows,
    ensures
        grid_sticks(GridKind::Braced, base, w, rows).len() == w * rows + (if rows > 0 {
            (rows - 1) * (3 * w + 1)
        } else {
            0
        }),
    decreases rows,
{
    if rows > 0 {
        lemma_braced_grid_sticks_len(base, w, rows - 1);
        lemma_braced_row_sticks_len(base, w, rows - 1, w + 1);
        let p = grid_sticks(GridKind::Braced, base, w, rows - 1);
        let r = grid_row_sticks(GridKind::Braced, base, w, rows - 1, w + 1);
        assert(grid_sticks(GridKind::Braced, base, w, rows).len() == p.len() + r.len());
        assert(r.len() == w + (if rows - 1 != 0 { 3 * w + 1 } else { 0 }));
        assert(w * (rows - 1) + w == w * rows) by (nonlinear_arith);
        if rows > 1 {
            assert((rows - 2) * (3 * w + 1) + (3 * w + 1) == (rows - 1) * (3 * w + 1)) by (nonlinear_arith);
        } else {
            assert(w * 0 == 0);
        }
    }
}

/// A plain grid has no sticks.
pub proof fn lemma_plain_grid_sticks(base: int, w: int, rows: int)
    ensures
        grid_sticks(GridKind::Plain, base, w, rows) == Seq::<(usize, usize)>::empty(),
    decreases rows,
{
    if rows > 0 {
        lemma_plain_grid_sticks(base, w, rows - 1);
        lemma_plain_row_sticks(base, w, rows - 1, w + 1);
        assert(grid_sticks(GridKind::Plain, base, w, rows) =~= Seq::<(usize, usize)>::empty());
    }
}

/// A row of a plain grid has no sticks.
proof fn lemma_plain_row_sticks(base: int, w: int, y: int, n: int)
    ensures
        grid_row_sticks(GridKind::Plain, base, w, y, n) == Seq::<(usize, usize)>::empty(),
    decreases n,
{
    if n > 0 {
        lemma_plain_row_sticks(base, w, y, n - 1);
        assert(grid_row_sticks(GridKind::Plain, base, w, y, n) =~= Seq::<(usize, usize)>::empty());
    }
}

/// Every stick of the first `rows` rows of a grid joins two particles before
/// position `base + rows * (w + 1)`.
pub proof fn lemma_grid_sticks_bounded(kind: GridKind, base: int, w: int, rows: int)
    requires
        base >= 0,
        w >= 0,
        rows >= 0,
        base + rows * (w + 1) <= usize::MAX,
    ensures
        forall|i: int|
            0 <= i < grid_sticks(kind, base, w, rows).len() ==> (#[trigger] grid_sticks(
                kind,
                base,
                w,
                rows,
            )[i]).0 < base + rows * (w + 1) && grid_sticks(kind, base, w, rows)[i].1 < base + rows
                * (w + 1),
    decreases rows,
{
    if rows > 0 {
        assert((rows - 1) * (w + 1) + (w + 1) == rows * (w + 1)) by (nonlinear_arith);
        assert((rows - 1) * (w + 1) >= 0) by (nonlinear_arith)
            requires
                rows >= 1,
                w >= 0,
        ;
        lemma_grid_sticks_bounded(kind, base, w, rows - 1);
        lemma_grid_row_sticks_bounded(kind, base, w, rows - 1, w + 1);
        let g = grid_sticks(kind, base, w, rows);
        let p = grid_sticks(kind, base, w, rows - 1);
        let r = grid_row_sticks(kind, base, w, rows - 1, w + 1);
        assert forall|i: int| 0 <= i < g.len() implies (#[trigger] g[i]).0 < base + rows * (w + 1)
            && g[i].1 < base + rows * (w + 1) by {
            if i < p.len() {
                assert(g[i] == p[i]);
            } else {
                assert(g[i] == r[i - p.len()]);
            }
        }
    }
}

/// Builds the particles, sticks and springs of a shape, then creates them in
/// a particle accelerator.
pub struct ShapeBuilder {
    particles: Vec<ParticlePrim>,
    sticks: Vec<StickPrim>,
    springs: Vec<SpringPrim>,
    is_static: bool,
    color: Color,
    particle_handles: Vec<ParticleHandle>,
    stick_handles: Vec<StickHandle>,
    spring_handles: Vec<SpringHandle>,
}

/// The state of a shape builder: its particles, its sticks and springs as
/// index pairs, the static flag and colour new particles get, and the ids of
/// the handles its last creation gave.
pub struct ShapeBuilderView {
    pub particles: Seq<ParticlePrim>,
    pub sticks: Seq<(usize, usize)>,
    pub springs: Seq<(usize, usize)>,
    pub is_static: bool,
    pub color: Color,
    pub particle_handles: Seq<usize>,
    pub stick_handles: Seq<usize>,
    pub spring_handles: Seq<usize>,
}

impl ShapeBuilderView {
    /// The particle every added particle is now.
    pub open spec fn template(self) -> ParticlePrim {
        ParticlePrim { is_static: self.is_static, color: self.color }
    }
}

pub open spec fn pair_of(indicies: [usize; 2]) -> (usize, usize) {
    (indicies[0], indicies[1])
}

impl View for ShapeBuilder {
    type V = ShapeBuilderView;

    closed spec fn view(&self) -> ShapeBuilderView {
        ShapeBuilderView {
            particles: self.particles@,
            sticks: self.sticks@.map_values(|s: StickPrim| pair_of(s.particle_indicies)),
            springs: self.springs@.map_values(|s: SpringPrim| pair_of(s.particle_indicies)),
            is_static: self.is_static,
            color: self.color,
            particle_handles: self.particle_handles@.map_values(|h: ParticleHandle| h.spec_id()),
            stick_handles: self.stick_handles@.map_values(|h: StickHandle| h.spec_id()),
            spring_handles: self.spring_handles@.map_values(|h: SpringHandle| h.spec_id()),
        }
    }
}

impl ShapeBuilder {
    /// An empty builder: not static, with a random opaque colour.
    pub fn new() -> (b: Self)
        ensures
            b@ == (ShapeBuilderView {
                particles: Seq::empty(),
                sticks: Seq::empty(),
                springs: Seq::empty(),
                is_static: false,
                color: b@.color,
                particle_handles: Seq::empty(),
                stick_handles: Seq::empty(),
                spring_handles: Seq::empty(),
            }),
            b@.color.a == 255,
    {
        let color = Color::random();
        let b = Self {
            particles: vec![],
            sticks: vec![],
            springs: vec![],
            is_static: false,
            color,
            particle_handles: vec![],
            stick_handles: vec![],
            spring_handles: vec![],
        };
        proof {
            assert(b@.sticks =~= Seq::<(usize, usize)>::empty());
            assert(b@.springs =~= Seq::<(usize, usize)>::empty());
            assert(b@.particle_handles =~= Seq::<usize>::empty());
            assert(b@.stick_handles =~= Seq::<usize>::empty());
            assert(b@.spring_handles =~= Seq::<usize>::empty());
        }
        b
    }

    pub fn set_color(&mut self, color: Color) -> (r: &mut Self)
        ensures
            r@ == (ShapeBuilderView { color, ..old(self)@ }),
            *final(self) == *final(r),
    {
        self.color = color;
        self
    }

    /// Sets a random opaque colour.
    pub fn set_random_color(&mut self) -> (r: &mut Self)
        ensures
            r@ == (ShapeBuilderView { color: r@.color, ..old(self)@ }),
            r@.color.a == 255,
            *final(self) == *final(r),
    {
        let color = Color::random();
        self.set_color(color)
    }

    pub fn set_static(&mut self, is_static: bool) -> (r: &mut Self)
        ensures
            r@ == (ShapeBuilderView { is_static, ..old(self)@ }),
            *final(self) == *final(r),
    {
        self.is_static = is_static;
        self
    }

    /// Adds one particle with the builder's current static flag and colour.
    pub fn add_particle(&mut self) -> (r: &mut Self)
        ensures
            r@ == (ShapeBuilderView {
                particles: old(self)@.particles.push(old(self)@.template()),
                ..old(self)@
            }),
            *final(self) == *final(r),
    {
        let prim = ParticlePrim::new(self.is_static, self.color);
        self.particles.push(prim);
        self
    }

    /// Adds a stick between the particles that `particle_indicies` name,
    /// negative indices counting back from the last particle.
    pub fn add_stick(&mut self, particle_indicies: [i64; 2]) -> (r: &mut Self)
        requires
            old(self)@.particles.len() <= i64::MAX,
            0 <= real_index(particle_indicies[0], old(self)@.particles.len() as int) < old(
                self,
            )@.particles.len(),
            0 <= real_index(particle_indicies[1], old(self)@.particles.len() as int) < old(
                self,
            )@.particles.len(),
        ensures
            r@ == (ShapeBuilderView {
                sticks: old(self)@.sticks.push(
                    (
                        real_index(particle_indicies[0], old(self)@.particles.len() as int) as usize,
                        real_index(particle_indicies[1], old(self)@.particles.len() as int) as usize,
                    ),
                ),
                ..old(self)@
            }),
            *final(self) == *final(r),
    {
        let real_particle_indicies: [usize; 2] = [
            convert_to_real_index(particle_indicies[0], self.particles.len()),
            convert_to_real_index(particle_indicies[1], self.particles.len()),
        ];
        self.sticks.push(StickPrim { particle_indicies: real_particle_indicies });
        proof {
            assert(self@.sticks =~= old(self)@.sticks.push(
                (real_particle_indicies[0], real_particle_indicies[1]),
            ));
        }
        self
    }

    /// Adds a spring between the particles that `particle_indicies` name,
    /// negative indices counting back from the last particle.
    pub fn add_spring(&mut self, particle_indicies: [i64; 2]) -> (r: &mut Self)
        requires
            old(self)@.particles.len() <= i64::MAX,
            0 <= real_index(particle_indicies[0], old(self)@.particles.len() as int) < old(
                self,
            )@.particles.len(),
            0 <= real_index(particle_indicies[1], old(self)@.particles.len() as int) < old(
                self,
            )@.particles.len(),
        ensures
            r@ == (ShapeBuilderView {
                springs: old(self)@.springs.push(
                    (
                        real_index(particle_indicies[0], old(self)@.particles.len() as int) as usize,
                        real_index(particle_indicies[1], old(self)@.particles.len() as int) as usize,
                    ),
                ),
                ..old(self)@
            }),
            *final(self) == *final(r),
    {
        let real_particle_indicies: [usize; 2] = [
            convert_to_real_index(particle_indicies[0], self.particles.len()),
            convert_to_real_index(particle_indicies[1], self.particles.len()),
        ];
        self.springs.push(SpringPrim { particle_indicies: real_particle_indicies });
        proof {
            assert(self@.springs =~= old(self)@.springs.push(
                (real_particle_indicies[0], real_particle_indicies[1]),
            ));
        }
        self
    }

    /// Removes the first particle. Sticks and springs keep their indices.
    pub fn remove_first_particle(&mut self) -> (r: &mut Self)
        requires
            old(self)@.particles.len() > 0,
        ensures
            r@ == (ShapeBuilderView { particles: old(self)@.particles.drop_first(), ..old(self)@ }),
            *final(self) == *final(r),
    {
        self.particles.remove(0);
        proof {
            assert(self@.particles =~= old(self)@.particles.drop_first());
        }
        self
    }

    /// Pushes `n` copies of the builder's current particle.
    fn push_template(&mut self, n: usize)
        ensures
            final(self)@ == (ShapeBuilderView {
                particles: old(self)@.particles + Seq::new(n as nat, |i: int| old(self)@.template()),
                ..old(self)@
            }),
    {
        let mut i: usize = 0;
        while i < n
            invariant
                i <= n,
                self@ == (ShapeBuilderView {
                    particles: old(self)@.particles + Seq::new(i as nat, |j: int| old(self)@.template()),
                    ..old(self)@
                }),
            decreases n - i,
        {
            let prim = ParticlePrim::new(self.is_static, self.color);
            self.particles.push(prim);
            i = i + 1;
            proof {
                assert(self@.particles =~= old(self)@.particles + Seq::new(
                    i as nat,
                    |j: int| old(self)@.template(),
                ));
            }
        }
    }

    /// Adds the particles of a line: `divisions` particles with the
    /// builder's current static flag and colour.
    pub fn add_line(&mut self, divisions: usize) -> (r: &mut Self)
        ensures
            r@ == (ShapeBuilderView {
                particles: old(self)@.particles + Seq::new(
                    divisions as nat,
                    |i: int| old(self)@.template(),
                ),
                ..old(self)@
            }),
            *final(self) == *final(r),
    {
        self.push_template(divisions);
        self
    }

    /// Adds the particles of a circle: `divisions` particles (none when
    /// `divisions` is not positive) with the builder's current static flag
    /// and colour.
    pub fn add_circle(&mut self, divisions: i64) -> (r: &mut Self)
        requires
            divisions <= usize::MAX,
        ensures
            r@ == (ShapeBuilderView {
                particles: old(self)@.particles + Seq::new(
                    (if divisions > 0 { divisions } else { 0 }) as nat,
                    |i: int| old(self)@.template(),
                ),
                ..old(self)@
            }),
            *final(self) == *final(r),
    {
        if divisions > 0 {
            self.push_template(divisions as usize);
        } else {
            proof {
                assert(old(self)@.particles =~= old(self)@.particles + Seq::new(
                    0,
                    |i: int| old(self)@.template(),
                ));
            }
        }
        self
    }

    /// Adds the particles of a circle and ties each of the particles `0`
    /// to `divisions - 1` to the next, the last back to particle `0`.
    pub fn add_adjacent_stick_circle(&mut self, divisions: i64) -> (r: &mut Self)
        requires
            old(self)@.particles.len() + (if divisions > 0 { divisions as int } else { 0 })
                <= i64::MAX,
            old(self)@.particles.len() + (if divisions > 0 { divisions as int } else { 0 })
                <= usize::MAX,
        ensures
            r@ == (ShapeBuilderView {
                particles: old(self)@.particles + Seq::new(
                    (if divisions > 0 { divisions } else { 0 }) as nat,
                    |i: int| old(self)@.template(),
                ),
                sticks: old(self)@.sticks + ring_sticks(divisions as int),
                ..old(self)@
            }),
            *final(self) == *final(r),
    {
        self.add_circle(divisions);
        let ghost mid = self@;
        if divisions > 0 {
            // the ring joins particles `0..divisions` counted from the builder's first particle
            let ring = adjacent_ring_sticks(divisions as usize);
            let mut j: usize = 0;
            while j < ring.len()
                invariant
                    j <= ring@.len(),
                    0 < divisions,
                    ring@ == ring_sticks(divisions as int),
                    mid.particles.len() == old(self)@.particles.len() + divisions,
                    mid.particles.len() <= i64::MAX,
                    self@ == (ShapeBuilderView {
                        sticks: old(self)@.sticks + ring_sticks(divisions as int).take(j as int),
                        ..mid
                    }),
                decreases ring@.len() - j,
            {
                let (a, b) = ring[j];
                assert(ring@[j as int] == ring_sticks(divisions as int)[j as int]);
                self.add_stick([a as i64, b as i64]);
                j = j + 1;
                proof {
                    assert(ring_sticks(divisions as int).take(j as int) =~= ring_sticks(
                        divisions as int,
                    ).take(j - 1).push((a, b)));
                }
            }
            proof {
                assert(ring_sticks(divisions as int).take(j as int) =~= ring_sticks(divisions as int));
            }
        } else {
            proof {
                assert(ring_sticks(divisions as int) =~= Seq::<(usize, usize)>::empty());
                assert(self@.sticks =~= old(self)@.sticks + ring_sticks(divisions as int));
            }
        }
        self
    }

    /// Adds the particles of a plain grid of columns `0..=width` and rows
    /// `0..=height`, row by row, none static.
    pub fn add_grid(&mut self, width: i32, height: i32) -> (r: &mut Self)
        ensures
            r@ == (ShapeBuilderView {
                particles: old(self)@.particles + grid_prims(
                    GridKind::Plain,
                    width as int,
                    grid_rows(width, height),
                    old(self)@.template(),
                ),
                sticks: old(self)@.sticks + grid_sticks(
                    GridKind::Plain,
                    old(self)@.particles.len() as int,
                    width as int,
                    grid_rows(width, height),
                ),
                ..old(self)@
            }),
            *final(self) == *final(r),
    {
        let ghost t = old(self)@.template();
        let ghost base = old(self)@.particles.len() as int;
        proof {
            lemma_plain_grid_sticks(base, width as int, grid_rows(width, height));
        }
        if width < 0 || height < 0 {
            proof {
                assert(old(self)@.particles =~= old(self)@.particles + grid_prims(
                    GridKind::Plain,
                    width as int,
                    0,
                    t,
                ));
                assert(old(self)@.sticks =~= old(self)@.sticks + Seq::<(usize, usize)>::empty());
            }
            return self;
        }
        let ghost w = width as int;
        let w64: i64 = width as i64;
        let h64: i64 = height as i64;
        let mut y: i64 = 0;
        proof {
            assert(old(self)@.particles =~= old(self)@.particles + grid_prims(GridKind::Plain, w, 0, t));
            assert(old(self)@.sticks =~= old(self)@.sticks + Seq::<(usize, usize)>::empty());
        }
        while y <= h64
            invariant
                0 <= y <= h64 + 1,
                w64 == width,
                h64 == height,
                width >= 0,
                w == width as int,
                t == old(self)@.template(),
                self@ == (ShapeBuilderView {
                    particles: old(self)@.particles + grid_prims(GridKind::Plain, w, y as int, t),
                    ..old(self)@
                }),
            decreases h64 + 1 - y,
        {
            let mut x: i64 = 0;
            proof {
                assert(self@.particles =~= old(self)@.particles + grid_prims(GridKind::Plain, w, y as int, t)
                    + grid_row_prims(GridKind::Plain, y as int, 0, t));
            }
            while x <= w64
                invariant
                    0 <= x <= w64 + 1,
                    0 <= y <= h64,
                    w64 == width,
                    h64 == height,
                    width >= 0,
                    w == width as int,
                    t == old(self)@.template(),
                    self@ == (ShapeBuilderView {
                        particles: old(self)@.particles + grid_prims(GridKind::Plain, w, y as int, t)
                            + grid_row_prims(GridKind::Plain, y as int, x as int, t),
                        ..old(self)@
                    }),
                decreases w64 + 1 - x,
            {
                let prim = ParticlePrim::new(false, self.color);
                self.particles.push(prim);
                proof {
                    assert(self@.particles =~= old(self)@.particles + grid_prims(GridKind::Plain, w, y as int, t)
                        + grid_row_prims(GridKind::Plain, y as int, x + 1, t));
                }
                x = x + 1;
            }
            proof {
                assert(self@.particles =~= old(self)@.particles + grid_prims(GridKind::Plain, w, y + 1, t));
            }
            y = y + 1;
        }
        proof {
            assert(self@.sticks =~= old(self)@.sticks + grid_sticks(
                GridKind::Plain,
                base,
                w,
                grid_rows(width, height),
            ));
        }
        self
    }

    /// Adds a cloth of columns `0..=width` and rows `0..=height`, row by row:
    /// each particle tied to the one on its left and the one above, and every
    /// other particle of the top row (even columns) static.
    pub fn add_cloth_grid(&mut self, width: i32, height: i32) -> (r: &mut Self)
        requires
            grid_fits(old(self)@.particles.len() as int, width, height),
            old(self)@.particles.len() <= i64::MAX,
        ensures
            r@ == (ShapeBuilderView {
                particles: old(self)@.particles + grid_prims(
                    GridKind::Cloth,
                    width as int,
                    grid_rows(width, height),
                    old(self)@.template(),
                ),
                sticks: old(self)@.sticks + grid_sticks(
                    GridKind::Cloth,
                    old(self)@.particles.len() as int,
                    width as int,
                    grid_rows(width, height),
                ),
                ..old(self)@
            }),
            *final(self) == *final(r),
    {
        self.add_grid_cells(GridKind::Cloth, width, height);
        self
    }

    /// Adds a braced grid of columns `0..=width` and rows `0..=height`, row
    /// by row: each particle tied to the one on its left, the one above and
    /// the two diagonally above, none static.
    pub fn add_stick_grid(&mut self, width: i32, height: i32) -> (r: &mut Self)
        requires
            grid_fits(old(self)@.particles.len() as int, width, height),
            old(self)@.particles.len() <= i64::MAX,
        ensures
            r@ == (ShapeBuilderView {
                particles: old(self)@.particles + grid_prims(
                    GridKind::Braced,
                    width as int,
                    grid_rows(width, height),
                    old(self)@.template(),
                ),
                sticks: old(self)@.sticks + grid_sticks(
                    GridKind::Braced,
                    old(self)@.particles.len() as int,
                    width as int,
                    grid_rows(width, height),
                ),
                ..old(self)@
            }),
            *final(self) == *final(r),
    {
        self.add_grid_cells(GridKind::Braced, width, height);
        self
    }

    /// Adds the particle at column `x`, row `y` of a grid and its sticks.
    fn add_grid_cell(&mut self, kind: GridKind, w64: i64, h64: i64, x: i64, y: i64, Ghost(base): Ghost<int>)
        requires
            0 <= x <= w64,
            0 <= y <= h64,
            w64 <= i32::MAX,
            h64 <= i32::MAX,
            grid_fits(base, w64 as i32, h64 as i32),
            0 <= base,
            old(self)@.particles.len() == base + y * (w64 + 1) + x,
        ensures
            final(self)@ == (ShapeBuilderView {
                particles: old(self)@.particles.push(
                    grid_cell_prim(kind, x as int, y as int, old(self)@.template()),
                ),
                sticks: old(self)@.sticks + grid_cell_sticks(kind, base, w64 as int, x as int, y as int),
                ..old(self)@
            }),
    {
        let ghost t = old(self)@.template();
        let ghost w = w64 as int;
        let ghost cols = w + 1;
        let ghost width = w64 as int;
        let ghost height = h64 as int;
        let ghost before = self@;
        let is_static = match kind {
            GridKind::Cloth => y == 0 && x % 2 == 0,
            _ => false,
        };
        let prim = ParticlePrim::new(is_static, self.color);
        proof {
            assert(y * cols + x < (height + 1) * cols) by (nonlinear_arith)
                requires
                    0 <= y <= height,
                    0 <= x < cols,
            ;
            assert((height + 1) * cols == cols * (height + 1)) by (nonlinear_arith);
            assert(prim == grid_cell_prim(kind, x as int, y as int, t));
        }
        self.particles.push(prim);
        assert(self@.particles.len() == base + y * cols + x + 1);
        if kind != GridKind::Plain && x != 0 {
            self.add_stick([-2, -1]);
        }
        if kind != GridKind::Plain && y != 0 {
            proof {
                assert((y - 1) * cols == y * cols - cols) by (nonlinear_arith);
                assert(0 <= (y - 1) * cols <= (height - 1) * cols) by (nonlinear_arith)
                    requires
                        1 <= y <= height,
                        cols >= 1,
                ;
                assert((height - 1) * cols == (width + 1) * height - cols) by (nonlinear_arith)
                    requires
                        cols == width + 1,
                ;
            }
            let up: i64 = x + (y - 1) * (w64 + 1);
            assert(up == x + (y - 1) * cols);
            self.add_stick([up, -1]);
            if kind == GridKind::Braced {
                if x < w64 {
                    self.add_stick([up + 1, -1]);
                }
                if x > 0 {
                    self.add_stick([up - 1, -1]);
                }
            }
        }
        proof {
            let cell = grid_cell_sticks(kind, base, w, x as int, y as int);
            assert(self@.sticks =~= before.sticks + cell);
        }
    }

    fn add_grid_cells(&mut self, kind: GridKind, width: i32, height: i32)
        requires
            grid_fits(old(self)@.particles.len() as int, width, height),
            old(self)@.particles.len() <= i64::MAX,
        ensures
            final(self)@ == (ShapeBuilderView {
                particles: old(self)@.particles + grid_prims(
                    kind,
                    width as int,
                    grid_rows(width, height),
                    old(self)@.template(),
                ),
                sticks: old(self)@.sticks + grid_sticks(
                    kind,
                    old(self)@.particles.len() as int,
                    width as int,
                    grid_rows(width, height),
                ),
                ..old(self)@
            }),
    {
        let ghost t = old(self)@.template();
        let ghost base = old(self)@.particles.len() as int;
        if width < 0 || height < 0 {
            proof {
                assert(old(self)@.particles =~= old(self)@.particles + grid_prims(
                    kind,
                    width as int,
                    0,
                    t,
                ));
                assert(old(self)@.sticks =~= old(self)@.sticks + grid_sticks(
                    kind,
                    base,
                    width as int,
                    0,
                ));
            }
            return ;
        }
        let ghost w = width as int;
        let ghost cols = w + 1;
        let w64: i64 = width as i64;
        let h64: i64 = height as i64;
        let mut y: i64 = 0;
        proof {
            assert(old(self)@.particles =~= old(self)@.particles + grid_prims(kind, w, 0, t));
            assert(old(self)@.sticks =~= old(self)@.sticks + grid_sticks(kind, base, w, 0));
            assert(0 * cols == 0);
            assert(cols * (height + 1) >= cols * 1) by (nonlinear_arith)
                requires
                    cols >= 1,
                    height >= 0,
            ;
        }
        while y <= h64
            invariant
                0 <= y <= h64 + 1,
                w64 == width,
                h64 == height,
                width >= 0,
                height >= 0,
                w == width as int,
                cols == w + 1,
                t == old(self)@.template(),
                base == old(self)@.particles.len(),
                grid_fits(base, width, height),
                self@.particles.len() == base + y * cols,
                self@ == (ShapeBuilderView {
                    particles: old(self)@.particles + grid_prims(kind, w, y as int, t),
                    sticks: old(self)@.sticks + grid_sticks(kind, base, w, y as int),
                    ..old(self)@
                }),
            decreases h64 + 1 - y,
        {
            let mut x: i64 = 0;
            let ghost row_start = self@;
            proof {
                assert(row_start.particles =~= old(self)@.particles + grid_prims(kind, w, y as int, t)
                    + grid_row_prims(kind, y as int, 0, t));
                assert(row_start.sticks =~= old(self)@.sticks + grid_sticks(kind, base, w, y as int)
                    + grid_row_sticks(kind, base, w, y as int, 0));
            }
            while x <= w64
                invariant
                    0 <= x <= w64 + 1,
                    0 <= y <= h64,
                    w64 == width,
                    h64 == height,
                    width >= 0,
                    height >= 0,
                    w == width as int,
                    cols == w + 1,
                    t == old(self)@.template(),
                    base == old(self)@.particles.len(),
                    grid_fits(base, width, height),
                    self@.particles.len() == base + y * cols + x,
                    self@ == (ShapeBuilderView {
                        particles: old(self)@.particles + grid_prims(kind, w, y as int, t)
                            + grid_row_prims(kind, y as int, x as int, t),
                        sticks: old(self)@.sticks + grid_sticks(kind, base, w, y as int)
                            + grid_row_sticks(kind, base, w, y as int, x as int),
                        ..old(self)@
                    }),
                decreases w64 + 1 - x,
            {
                self.add_grid_cell(kind, w64, h64, x, y, Ghost(base));
                proof {
                    assert(self@.particles =~= old(self)@.particles + grid_prims(kind, w, y as int, t)
                        + grid_row_prims(kind, y as int, x + 1, t));
                    assert(self@.sticks =~= old(self)@.sticks + grid_sticks(kind, base, w, y as int)
                        + grid_row_sticks(kind, base, w, y as int, x + 1));
                }
                x = x + 1;
            }
            proof {
                assert(y * cols + cols == (y + 1) * cols) by (nonlinear_arith);
                assert(self@.particles =~= old(self)@.particles + grid_prims(kind, w, y + 1, t));
                assert(self@.sticks =~= old(self)@.sticks + grid_sticks(kind, base, w, y + 1));
            }
            y = y + 1;
        }
    }

    /// Ties every `particle_stride`-th particle, from the first, to the one
    /// `stick_stride` further on, wrapping once past the last particle: the
    /// spokes that stiffen a wheel.
    pub fn connect_adjacent_sticks(&mut self, particle_stride: usize, stick_stride: i64) -> (r: &mut Self)
        requires
            particle_stride > 0,
            old(self)@.particles.len() <= i64::MAX,
            old(self)@.particles.len() + stick_stride <= i64::MAX,
            forall|i: int|
                0 <= i < old(self)@.particles.len() && i % (particle_stride as int) == 0
                    ==> #[trigger] adjacent_target_fits(
                    old(self)@.particles.len() as int,
                    stick_stride as int,
                    i,
                ),
        ensures
            r@ == (ShapeBuilderView {
                sticks: old(self)@.sticks + adjacent_sticks_from(
                    old(self)@.particles.len() as int,
                    particle_stride as int,
                    stick_stride as int,
                    0,
                ),
                ..old(self)@
            }),
            *final(self) == *final(r),
    {
        let particle_count = self.particles.len() as i64;
        let ghost count = particle_count as int;
        let ghost stride = particle_stride as int;
        let ghost ss = stick_stride as int;
        let mut i: i64 = 0;
        proof {
            assert(old(self)@.sticks =~= old(self)@.sticks + Seq::<(usize, usize)>::empty());
        }
        while i < particle_count
            invariant
                0 <= i <= particle_count,
                particle_count == count,
                count == old(self)@.particles.len(),
                count <= i64::MAX,
                stride == particle_stride,
                stride > 0,
                ss == stick_stride,
                count + ss <= i64::MAX,
                i < count ==> (i as int) % stride == 0,
                forall|j: int|
                    0 <= j < count && j % stride == 0 ==> #[trigger] adjacent_target_fits(count, ss, j),
                self@ == (ShapeBuilderView { sticks: self@.sticks, ..old(self)@ }),
                old(self)@.sticks + adjacent_sticks_from(count, stride, ss, 0) == self@.sticks
                    + adjacent_sticks_from(count, stride, ss, i as int),
            decreases particle_count - i,
        {
            let k = if i + stick_stride >= particle_count {
                i + stick_stride - particle_count
            } else {
                i + stick_stride
            };
            let ghost before = self@.sticks;
            proof {
                assert(adjacent_target_fits(count, ss, i as int));
                assert(k == adjacent_target(count, ss, i as int));
            }
            self.add_stick([i, k]);
            let ghost next: int = if stride >= count - i { count } else { i + stride };
            proof {
                assert(adjacent_sticks_from(count, stride, ss, i as int) == seq![
                    (i as usize, real_index(k, count) as usize),
                ] + adjacent_sticks_from(count, stride, ss, i + stride));
                assert(adjacent_sticks_from(count, stride, ss, next) == adjacent_sticks_from(
                    count,
                    stride,
                    ss,
                    i + stride,
                ));
                assert(self@.sticks + adjacent_sticks_from(count, stride, ss, next) =~= before
                    + adjacent_sticks_from(count, stride, ss, i as int));
            }
            if (particle_stride as u64) >= ((particle_count - i) as u64) {
                i = particle_count;
            } else {
                proof {
                    lemma_mod_add_multiples_vanish(i as int, stride);
                }
                i = i + particle_stride as i64;
            }
        }
        proof {
            assert(self@.sticks + adjacent_sticks_from(count, stride, ss, count) =~= self@.sticks);
        }
        self
    }

    /// Ties the particles of each run of `particles_per_line`, from the
    /// first particle on, into a chain: each to the next in its run.
    pub fn connect_with_stick_chain(&mut self, particles_per_line: usize) -> (r: &mut Self)
        requires
            particles_per_line > 0,
            old(self)@.particles.len() <= i64::MAX,
            (old(self)@.particles.len() as int) % (particles_per_line as int) == 0,
        ensures
            r@ == (ShapeBuilderView {
                sticks: old(self)@.sticks + chain_sticks_from(
                    old(self)@.particles.len() as int,
                    particles_per_line as int,
                    0,
                ),
                ..old(self)@
            }),
            *final(self) == *final(r),
    {
        let particle_count = self.particles.len() as i64;
        let ghost count = particle_count as int;
        let ghost per = particles_per_line as int;
        let mut i: i64 = 0;
        let ghost mut j: int = 0;
        let ghost m: int = count / per;
        proof {
            assert(old(self)@.sticks =~= old(self)@.sticks + Seq::<(usize, usize)>::empty());
            assert(count == m * per) by (nonlinear_arith)
                requires
                    count % per == 0,
                    per > 0,
                    m == count / per,
            ;
            assert(m >= 0) by (nonlinear_arith)
                requires
                    count >= 0,
                    per > 0,
                    m == count / per,
            ;
        }
        while i < particle_count
            invariant
                0 <= i <= particle_count,
                particle_count == count,
                count == old(self)@.particles.len(),
                count <= i64::MAX,
                per == particles_per_line,
                per > 0,
                count == m * per,
                0 <= j <= m,
                i == j * per,
                self@ == (ShapeBuilderView { sticks: self@.sticks, ..old(self)@ }),
                old(self)@.sticks + chain_sticks_from(count, per, 0) == self@.sticks
                    + chain_sticks_from(count, per, i as int),
            decreases particle_count - i,
        {
            proof {
                assert(j < m) by (nonlinear_arith)
                    requires
                        i == j * per,
                        count == m * per,
                        i < count,
                        per > 0,
                ;
                assert(i + per <= count) by (nonlinear_arith)
                    requires
                        i == j * per,
                        count == m * per,
                        j + 1 <= m,
                        per > 0,
                ;
            }
            let ghost row_start = self@.sticks;
            let run: i64 = particles_per_line as i64;
            let mut k: i64 = 0;
            while k < run - 1
                invariant
                    0 <= k <= run - 1,
                    run == per,
                    0 <= i,
                    i + per <= count,
                    count == old(self)@.particles.len(),
                    count <= i64::MAX,
                    self@ == (ShapeBuilderView { sticks: self@.sticks, ..old(self)@ }),
                    self@.sticks == row_start + Seq::new(
                        k as nat,
                        |q: int| ((i + q) as usize, (i + q + 1) as usize),
                    ),
                decreases run - 1 - k,
            {
                self.add_stick([i + k, i + k + 1]);
                k = k + 1;
                proof {
                    assert(self@.sticks =~= row_start + Seq::new(
                        k as nat,
                        |q: int| ((i + q) as usize, (i + q + 1) as usize),
                    ));
                }
            }
            proof {
                assert(self@.sticks + chain_sticks_from(count, per, i + per) =~= row_start
                    + chain_sticks_from(count, per, i as int));
                j = j + 1;
                assert(i + per == j * per) by (nonlinear_arith)
                    requires
                        i == (j - 1) * per,
                ;
            }
            i = i + run;
        }
        proof {
            assert(self@.sticks + chain_sticks_from(count, per, count) =~= self@.sticks);
        }
        self
    }

    /// Adds a static particle and a free one after it, tied by a spring.
    pub fn add_hanging_particle(&mut self) -> (r: &mut Self)
        requires
            old(self)@.particles.len() + 2 <= i64::MAX,
        ensures
            r@ == (ShapeBuilderView {
                particles: old(self)@.particles.push(
                    ParticlePrim { is_static: true, color: old(self)@.color },
                ).push(ParticlePrim { is_static: false, color: old(self)@.color }),
                springs: old(self)@.springs.push(
                    (old(self)@.particles.len() as usize, (old(self)@.particles.len() + 1) as usize),
                ),
                ..old(self)@
            }),
            *final(self) == *final(r),
    {
        self.particles.push(ParticlePrim::new(true, self.color));
        self.particles.push(ParticlePrim::new(false, self.color));
        self.add_spring([-2, -1]);
        self
    }

    pub fn particle_handles(&self) -> (h: &Vec<ParticleHandle>)
        ensures
            h@.map_values(|p: ParticleHandle| p.spec_id()) == self@.particle_handles,
    {
        &self.particle_handles
    }

    /// A copy of the particle handles of the last creation.
    pub fn copy_particle_handles(&self) -> (h: Vec<ParticleHandle>)
        ensures
            h@.map_values(|p: ParticleHandle| p.spec_id()) == self@.particle_handles,
    {
        copy_handles(&self.particle_handles)
    }

    /// A copy of the stick handles of the last creation.
    pub fn copy_stick_handles(&self) -> (h: Vec<StickHandle>)
        ensures
            h@.map_values(|p: StickHandle| p.spec_id()) == self@.stick_handles,
    {
        copy_handles(&self.stick_handles)
    }

    pub fn stick_handles(&self) -> (h: &Vec<StickHandle>)
        ensures
            h@.map_values(|p: StickHandle| p.spec_id()) == self@.stick_handles,
    {
        &self.stick_handles
    }

    pub fn spring_handles(&self) -> (h: &Vec<SpringHandle>)
        ensures
            h@.map_values(|p: SpringHandle| p.spec_id()) == self@.spring_handles,
    {
        &self.spring_handles
    }

    pub fn sticks(&self) -> (s: &Vec<StickPrim>)
        ensures
            s@.map_values(|t: StickPrim| pair_of(t.particle_indicies)) == self@.sticks,
    {
        &self.sticks
    }

    pub fn springs(&self) -> (s: &Vec<SpringPrim>)
        ensures
            s@.map_values(|t: SpringPrim| pair_of(t.particle_indicies)) == self@.springs,
    {
        &self.springs
    }

    pub fn is_static(&self) -> (b: bool)
        ensures
            b == self@.is_static,
    {
        self.is_static
    }

    pub fn color(&self) -> (c: Color)
        ensures
            c == self@.color,
    {
        self.color
    }

    pub fn particles(&self) -> (p: &Vec<ParticlePrim>)
        ensures
            p@ == self@.particles,
    {
        &self.particles
    }

    /// Creates the shape in `particle_accelerator` with collision mask
    /// `mask`: its particles in order (taking ids from the accelerator's
    /// particle count on, with their static flags and colours), then its
    /// sticks and springs between the matching particles. The handles are
    /// kept in the builder.
    pub fn create_in_particle_accelerator(
        &mut self,
        particle_accelerator: &mut ParticleAccelerator,
        mask: u32,
    ) -> (r: &mut Self)
        requires
            old(particle_accelerator).wf(),
            old(particle_accelerator).particles_view().len() + old(self)@.particles.len()
                < usize::MAX,
            old(particle_accelerator).sticks_view().len() + old(self)@.sticks.len() <= usize::MAX,
            old(particle_accelerator).springs_view().len() + old(self)@.springs.len() <= usize::MAX,
            forall|i: int|
                0 <= i < old(self)@.sticks.len() ==> (#[trigger] old(self)@.sticks[i]).0 < old(
                    self,
                )@.particles.len() && old(self)@.sticks[i].1 < old(self)@.particles.len(),
            forall|i: int|
                0 <= i < old(self)@.springs.len() ==> (#[trigger] old(self)@.springs[i]).0 < old(
                    self,
                )@.particles.len() && old(self)@.springs[i].1 < old(self)@.particles.len(),
        ensures
            ({
                let base = old(particle_accelerator).particles_view().len();
                let stick_base = old(particle_accelerator).sticks_view().len();
                let shape = old(self)@;
                &&& r@ == (ShapeBuilderView {
                    particle_handles: Seq::new(shape.particles.len(), |i: int| (base + i) as usize),
                    stick_handles: Seq::new(shape.sticks.len(), |i: int| (stick_base + i) as usize),
                    spring_handles: Seq::new(
                        shape.springs.len(),
                        |i: int| (stick_base + shape.sticks.len()) as usize,
                    ),
                    ..shape
                })
                &&& final(particle_accelerator).wf()
                &&& final(particle_accelerator).particles_view() == old(
                    particle_accelerator,
                ).particles_view() + Seq::new(
                    shape.particles.len(),
                    |i: int|
                        Particle {
                            id: (base + i) as usize,
                            mask,
                            is_static: shape.particles[i].is_static,
                            color: shape.particles[i].color,
                            is_enabled: true,
                        },
                )
                &&& final(particle_accelerator).sticks_view() == old(
                    particle_accelerator,
                ).sticks_view() + Seq::new(
                    shape.sticks.len(),
                    |i: int|
                        Stick {
                            particle_indicies: [
                                (base + shape.sticks[i].0) as usize,
                                (base + shape.sticks[i].1) as usize,
                            ],
                            is_enabled: true,
                        },
                )
                &&& final(particle_accelerator).springs_view() == old(
                    particle_accelerator,
                ).springs_view() + Seq::new(
                    shape.springs.len(),
                    |i: int|
                        Spring {
                            particle_indicies: [
                                (base + shape.springs[i].0) as usize,
                                (base + shape.springs[i].1) as usize,
                            ],
                            is_enabled: true,
                        },
                )
                &&& final(particle_accelerator).attachments_view() == old(
                    particle_accelerator,
                ).attachments_view()
            }),
            *final(self) == *final(r),
    {
        let ghost base = particle_accelerator.particles_view().len();
        let ghost stick_base = particle_accelerator.sticks_view().len();
        let ghost shape = self@;
        let ghost pa0 = particle_accelerator.particles_view();
        let mut particle_handles: Vec<ParticleHandle> = Vec::new();
        let mut i: usize = 0;
        while i < self.particles.len()
            invariant
                i <= self.particles@.len(),
                self@ == shape,
                base == old(particle_accelerator).particles_view().len(),
                stick_base == old(particle_accelerator).sticks_view().len(),
                pa0 == old(particle_accelerator).particles_view(),
                base + shape.particles.len() < usize::MAX,
                particle_accelerator.wf(),
                particle_accelerator.particles_view() == pa0 + Seq::new(
                    i as nat,
                    |q: int|
                        Particle {
                            id: (base + q) as usize,
                            mask,
                            is_static: shape.particles[q].is_static,
                            color: shape.particles[q].color,
                            is_enabled: true,
                        },
                ),
                particle_accelerator.sticks_view() == old(particle_accelerator).sticks_view(),
                particle_accelerator.springs_view() == old(particle_accelerator).springs_view(),
                particle_accelerator.attachments_view() == old(
                    particle_accelerator,
                ).attachments_view(),
                particle_handles@.map_values(|h: ParticleHandle| h.spec_id()) == Seq::new(
                    i as nat,
                    |q: int| (base + q) as usize,
                ),
            decreases self.particles@.len() - i,
        {
            let prim = self.particles[i];
            let particle_handle = particle_accelerator.create_particle(mask, prim.color);
            particle_accelerator.set_particle_static(&particle_handle, prim.is_static);
            let ghost prev_handles = particle_handles@;
            particle_handles.push(particle_handle);
            i = i + 1;
            proof {
                assert(particle_handles@.map_values(|h: ParticleHandle| h.spec_id()) =~= prev_handles.map_values(
                    |h: ParticleHandle| h.spec_id(),
                ).push(particle_handle.spec_id()));
                assert(particle_accelerator.particles_view() =~= pa0 + Seq::new(
                    i as nat,
                    |q: int|
                        Particle {
                            id: (base + q) as usize,
                            mask,
                            is_static: shape.particles[q].is_static,
                            color: shape.particles[q].color,
                            is_enabled: true,
                        },
                ));
                assert(particle_handles@.map_values(|h: ParticleHandle| h.spec_id()) =~= Seq::new(
                    i as nat,
                    |q: int| (base + q) as usize,
                ));
            }
        }
        let ghost hv = particle_handles@.map_values(|h: ParticleHandle| h.spec_id());
        let ghost sticks0 = particle_accelerator.sticks_view();
        let mut stick_handles: Vec<StickHandle> = Vec::new();
        let mut j: usize = 0;
        while j < self.sticks.len()
            invariant
                j <= self.sticks@.len(),
                self@ == shape,
                particle_handles@.len() == shape.particles.len(),
                hv == particle_handles@.map_values(|h: ParticleHandle| h.spec_id()),
                hv == Seq::new(shape.particles.len(), |q: int| (base + q) as usize),
                base + shape.particles.len() < usize::MAX,
                forall|q: int|
                    0 <= q < shape.sticks.len() ==> (#[trigger] shape.sticks[q]).0
                        < shape.particles.len() && shape.sticks[q].1 < shape.particles.len(),
                stick_base == sticks0.len(),
                stick_base + shape.sticks.len() <= usize::MAX,
                particle_accelerator.wf(),
                particle_accelerator.sticks_view() == sticks0 + Seq::new(
                    j as nat,
                    |q: int|
                        Stick {
                            particle_indicies: [
                                (base + shape.sticks[q].0) as usize,
                                (base + shape.sticks[q].1) as usize,
                            ],
                            is_enabled: true,
                        },
                ),
                particle_accelerator.particles_view() == pa0 + Seq::new(
                    shape.particles.len(),
                    |q: int|
                        Particle {
                            id: (base + q) as usize,
                            mask,
                            is_static: shape.particles[q].is_static,
                            color: shape.particles[q].color,
                            is_enabled: true,
                        },
                ),
                particle_accelerator.springs_view() == old(particle_accelerator).springs_view(),
                particle_accelerator.attachments_view() == old(
                    particle_accelerator,
                ).attachments_view(),
                stick_handles@.map_values(|h: StickHandle| h.spec_id()) == Seq::new(
                    j as nat,
                    |q: int| (stick_base + q) as usize,
                ),
            decreases self.sticks@.len() - j,
        {
            let stick = self.sticks[j];
            proof {
                assert(shape.sticks[j as int] == pair_of(stick.particle_indicies));
                assert(hv[stick.particle_indicies[0] as int] == particle_handles@[stick.particle_indicies[0] as int].spec_id());
                assert(hv[stick.particle_indicies[1] as int] == particle_handles@[stick.particle_indicies[1] as int].spec_id());
            }
            let stick_handle = particle_accelerator.create_stick(
                [
                    &particle_handles[stick.particle_indicies[0]],
                    &particle_handles[stick.particle_indicies[1]],
                ],
            );
            let ghost prev_handles = stick_handles@;
            stick_handles.push(stick_handle);
            j = j + 1;
            proof {
                assert(stick_handles@.map_values(|h: StickHandle| h.spec_id()) =~= prev_handles.map_values(
                    |h: StickHandle| h.spec_id(),
                ).push(stick_handle.spec_id()));
                assert(particle_accelerator.sticks_view() =~= sticks0 + Seq::new(
                    j as nat,
                    |q: int|
                        Stick {
                            particle_indicies: [
                                (base + shape.sticks[q].0) as usize,
                                (base + shape.sticks[q].1) as usize,
                            ],
                            is_enabled: true,
                        },
                ));
                assert(stick_handles@.map_values(|h: StickHandle| h.spec_id()) =~= Seq::new(
                    j as nat,
                    |q: int| (stick_base + q) as usize,
                ));
            }
        }
        let ghost springs0 = particle_accelerator.springs_view();
        let mut spring_handles: Vec<SpringHandle> = Vec::new();
        let mut k: usize = 0;
        while k < self.springs.len()
            invariant
                k <= self.springs@.len(),
                self@ == shape,
                particle_handles@.len() == shape.particles.len(),
                hv == particle_handles@.map_values(|h: ParticleHandle| h.spec_id()),
                hv == Seq::new(shape.particles.len(), |q: int| (base + q) as usize),
                base + shape.particles.len() < usize::MAX,
                forall|q: int|
                    0 <= q < shape.springs.len() ==> (#[trigger] shape.springs[q]).0
                        < shape.particles.len() && shape.springs[q].1 < shape.particles.len(),
                springs0 == old(particle_accelerator).springs_view(),
                springs0.len() + shape.springs.len() <= usize::MAX,
                particle_accelerator.wf(),
                particle_accelerator.springs_view() == springs0 + Seq::new(
                    k as nat,
                    |q: int|
                        Spring {
                            particle_indicies: [
                                (base + shape.springs[q].0) as usize,
                                (base + shape.springs[q].1) as usize,
                            ],
                            is_enabled: true,
                        },
                ),
                particle_accelerator.sticks_view().len() == stick_base + shape.sticks.len(),
                particle_accelerator.sticks_view() == sticks0 + Seq::new(
                    shape.sticks.len(),
                    |q: int|
                        Stick {
                            particle_indicies: [
                                (base + shape.sticks[q].0) as usize,
                                (base + shape.sticks[q].1) as usize,
                            ],
                            is_enabled: true,
                        },
                ),
                particle_accelerator.particles_view() == pa0 + Seq::new(
                    shape.particles.len(),
                    |q: int|
                        Particle {
                            id: (base + q) as usize,
                            mask,
                            is_static: shape.particles[q].is_static,
                            color: shape.particles[q].color,
                            is_enabled: true,
                        },
                ),
                particle_accelerator.attachments_view() == old(
                    particle_accelerator,
                ).attachments_view(),
                spring_handles@.map_values(|h: SpringHandle| h.spec_id()) == Seq::new(
                    k as nat,
                    |q: int| (stick_base + shape.sticks.len()) as usize,
                ),
            decreases self.springs@.len() - k,
        {
            let spring = self.springs[k];
            proof {
                assert(shape.springs[k as int] == pair_of(spring.particle_indicies));
                assert(hv[spring.particle_indicies[0] as int] == particle_handles@[spring.particle_indicies[0] as int].spec_id());
                assert(hv[spring.particle_indicies[1] as int] == particle_handles@[spring.particle_indicies[1] as int].spec_id());
            }
            let spring_handle = particle_accelerator.create_spring(
                [
                    &particle_handles[spring.particle_indicies[0]],
                    &particle_handles[spring.particle_indicies[1]],
                ],
            );
            let ghost prev_handles = spring_handles@;
            spring_handles.push(spring_handle);
            k = k + 1;
            proof {
                assert(spring_handles@.map_values(|h: SpringHandle| h.spec_id()) =~= prev_handles.map_values(
                    |h: SpringHandle| h.spec_id(),
                ).push(spring_handle.spec_id()));
                assert(particle_accelerator.springs_view() =~= springs0 + Seq::new(
                    k as nat,
                    |q: int|
                        Spring {
                            particle_indicies: [
                                (base + shape.springs[q].0) as usize,
                                (base + shape.springs[q].1) as usize,
                            ],
                            is_enabled: true,
                        },
                ));
                assert(spring_handles@.map_values(|h: SpringHandle| h.spec_id()) =~= Seq::new(
                    k as nat,
                    |q: int| (stick_base + shape.sticks.len()) as usize,
                ));
            }
        }
        self.particle_handles = particle_handles;
        self.stick_handles = stick_handles;
        self.spring_handles = spring_handles;
        proof {
            assert(self@ =~= (ShapeBuilderView {
                particle_handles: Seq::new(shape.particles.len(), |q: int| (base + q) as usize),
                stick_handles: Seq::new(shape.sticks.len(), |q: int| (stick_base + q) as usize),
                spring_handles: Seq::new(
                    shape.springs.len(),
                    |q: int| (stick_base + shape.sticks.len()) as usize,
                ),
                ..shape
            }));
        }
        self
    }
}

} // verus!
