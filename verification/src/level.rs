use vstd::prelude::*;
use rand::Rng;

verus! {

#[verifier::external_type_specification]
#[verifier::external_body]
pub struct ExLcg128Xsl64(rand_pcg::Lcg128Xsl64);

/// Calls `rng.gen_range(0..bound)` on a `rand_pcg::Pcg64`: a value drawn
/// uniformly from `0..bound`. The contract claims only that the value is
/// below `bound`; which value comes out rests on the generator's state.
#[verifier::external_body]
fn random_below(rng: &mut rand_pcg::Lcg128Xsl64, bound: u128) -> (r: u128)
    requires
        bound > 0,
    ensures
        r < bound,
{
    rng.gen_range(0..bound)
}

/// Spawn chances are counted in hundredths: 100 is a chance of one.
pub const SPAWN_CHANCE_ONE: u32 = 100;

/// The block the car starts on; only ever the first block of a level.
#[derive(Clone, Copy, PartialEq, Eq, Structural, Debug)]
pub struct SpawnOperation {}

/// A straight block of random width and slope.
#[derive(Clone, Copy, PartialEq, Eq, Structural, Debug)]
pub struct StraightLevelBlock {}

/// A sheer drop.
#[derive(Clone, Copy, PartialEq, Eq, Structural, Debug)]
pub struct CliffOperation {}

/// A funnel of liquid particles.
#[derive(Clone, Copy, PartialEq, Eq, Structural, Debug)]
pub struct FluidFunnel {}

/// A wobbly cube of particles held by sticks.
#[derive(Clone, Copy, PartialEq, Eq, Structural, Debug)]
pub struct JellyCube {}

/// A drop that turns the level back the other way.
#[derive(Clone, Copy, PartialEq, Eq, Structural, Debug)]
pub struct DropDirectionReverse {}

/// A level building operation, one of the known blocks.
#[derive(Clone, Copy, PartialEq, Eq, Structural, Debug)]
pub enum LevelBuilderOperation {
    Spawn(SpawnOperation),
    StraightLevelBlock(StraightLevelBlock),
    Cliff(CliffOperation),
    FluidFunnel(FluidFunnel),
    JellyCube(JellyCube),
    DropDirectionReverse(DropDirectionReverse),
}

impl LevelBuilderOperation {
    /// The chance, in hundredths, the operation is picked with before any
    /// operation prepares the choice.
    pub open spec fn spec_default_spawn_chance(self) -> u32 {
        match self {
            LevelBuilderOperation::Cliff(_) => 50,
            LevelBuilderOperation::JellyCube(_) => 50,
            LevelBuilderOperation::DropDirectionReverse(_) => 80,
            _ => SPAWN_CHANCE_ONE,
        }
    }

    /// The name of the operation's block type.
    pub open spec fn spec_operation_name(self) -> Seq<char> {
        match self {
            LevelBuilderOperation::Spawn(_) => "SpawnOperation"@,
            LevelBuilderOperation::StraightLevelBlock(_) => "StraightLevelBlock"@,
            LevelBuilderOperation::Cliff(_) => "CliffOperation"@,
            LevelBuilderOperation::FluidFunnel(_) => "FluidFunnel"@,
            LevelBuilderOperation::JellyCube(_) => "JellyCube"@,
            LevelBuilderOperation::DropDirectionReverse(_) => "DropDirectionReverse"@,
        }
    }

    /// The name of the operation's block type.
    pub fn operation_name(&self) -> (name: &'static str)
        ensures
            name@ == self.spec_operation_name(),
    {
        match self {
            LevelBuilderOperation::Spawn(_) => "SpawnOperation",
            LevelBuilderOperation::StraightLevelBlock(_) => "StraightLevelBlock",
            LevelBuilderOperation::Cliff(_) => "CliffOperation",
            LevelBuilderOperation::FluidFunnel(_) => "FluidFunnel",
            LevelBuilderOperation::JellyCube(_) => "JellyCube",
            LevelBuilderOperation::DropDirectionReverse(_) => "DropDirectionReverse",
        }
    }

    pub fn default_spawn_chance(&self) -> (chance: u32)
        ensures
            chance == self.spec_default_spawn_chance(),
    {
        match self {
            LevelBuilderOperation::Cliff(_) => 50,
            LevelBuilderOperation::JellyCube(_) => 50,
            LevelBuilderOperation::DropDirectionReverse(_) => 80,
            _ => SPAWN_CHANCE_ONE,
        }
    }

    pub open spec fn is_spawn(self) -> bool {
        self is Spawn
    }

    /// Lets the operation change the chances before one is picked. The
    /// spawn operation keeps only itself for the first block and removes
    /// itself from every later one; the others change nothing.
    pub fn prepare(&self, is_first: bool, chances: &mut Vec<(u32, LevelBuilderOperation)>)
        ensures
            final(chances)@ == (if self.is_spawn() {
                spawn_prepared(is_first, old(chances)@)
            } else {
                old(chances)@
            }),
    {
        match self {
            LevelBuilderOperation::Spawn(op) => op.prepare(is_first, chances),
            _ => {},
        }
    }
}

/// The chances after the spawn operation prepared them: for the first
/// block every other operation's chance is zero, for later blocks the
/// spawn operation's.
pub open spec fn spawn_prepared(is_first: bool, chances: Seq<(u32, LevelBuilderOperation)>) -> Seq<
    (u32, LevelBuilderOperation),
> {
    chances.map_values(
        |c: (u32, LevelBuilderOperation)|
            if is_first != c.1.is_spawn() {
                (0u32, c.1)
            } else {
                c
            },
    )
}

impl SpawnOperation {
    pub fn prepare(&self, is_first: bool, chances: &mut Vec<(u32, LevelBuilderOperation)>)
        ensures
            final(chances)@ == spawn_prepared(is_first, old(chances)@),
    {
        let mut i: usize = 0;
        while i < chances.len()
            invariant
                i <= chances@.len(),
                chances@.len() == old(chances)@.len(),
                forall|q: int|
                    0 <= q < i ==> #[trigger] chances@[q] == spawn_prepared(
                        is_first,
                        old(chances)@,
                    )[q],
                forall|q: int| i <= q < chances@.len() ==> #[trigger] chances@[q] == old(chances)@[q],
            decreases chances@.len() - i,
        {
            let (chance, op) = chances[i];
            let is_spawn = match op {
                LevelBuilderOperation::Spawn(_) => true,
                _ => false,
            };
            if is_first != is_spawn {
                chances.set(i, (0, op));
            }
            i = i + 1;
        }
        proof {
            assert(chances@ =~= spawn_prepared(is_first, old(chances)@));
        }
    }
}

/// The sum of the chances.
pub open spec fn total_chance(chances: Seq<(u32, LevelBuilderOperation)>) -> int
    decreases chances.len(),
{
    if chances.len() == 0 {
        0
    } else {
        total_chance(chances.drop_last()) + chances.last().0
    }
}

/// The sum of the chances.
pub fn total_spawn_chance(chances: &Vec<(u32, LevelBuilderOperation)>) -> (t: u128)
    ensures
        t == total_chance(chances@),
{
    let mut total: u128 = 0;
    let mut i: usize = 0;
    while i < chances.len()
        invariant
            i <= chances@.len(),
            total == total_chance(chances@.take(i as int)),
            total <= 0xffff_ffff * i,
        decreases chances@.len() - i,
    {
        proof {
            assert(chances@.take(i + 1).drop_last() =~= chances@.take(i as int));
        }
        total = total + chances[i].0 as u128;
        i = i + 1;
    }
    proof {
        assert(chances@.take(i as int) =~= chances@);
    }
    total
}

/// The operation a value in `1..=total_chance(chances)` picks: going
/// through the operations in order, the first whose chance the value does
/// not exceed, the value lowered by each chance passed.
pub open spec fn picked(chances: Seq<(u32, LevelBuilderOperation)>, value: int) -> Option<
    LevelBuilderOperation,
>
    decreases chances.len(),
{
    if chances.len() == 0 {
        None
    } else if value <= chances[0].0 {
        Some(chances[0].1)
    } else {
        picked(chances.drop_first(), value - chances[0].0)
    }
}

/// The operation the draw `draw` from `0..total_chance(chances)` picks.
pub open spec fn picked_by_draw(chances: Seq<(u32, LevelBuilderOperation)>, draw: int) -> Option<
    LevelBuilderOperation,
> {
    picked(chances, draw + 1)
}

/// The operation a draw picks: the draw `d` from `0..total` picks the
/// operation whose share of `1..=total` holds `d + 1`; an operation with
/// chance zero is never picked.
pub fn select_by_draw(chances: &Vec<(u32, LevelBuilderOperation)>, draw: u128) -> (op: Option<
    LevelBuilderOperation,
>)
    requires
        draw < u128::MAX,
    ensures
        op == picked(chances@, draw + 1),
{
    let mut value: u128 = draw + 1;
    let mut i: usize = 0;
    assert(chances@.skip(0) =~= chances@);
    while i < chances.len()
        invariant
            i <= chances@.len(),
            value >= 1,
            picked(chances@, draw + 1) == picked(chances@.skip(i as int), value as int),
        decreases chances@.len() - i,
    {
        let (chance, op) = chances[i];
        proof {
            assert(chances@.skip(i as int)[0] == chances@[i as int]);
            assert(chances@.skip(i as int).drop_first() =~= chances@.skip(i + 1));
        }
        if value <= chance as u128 {
            return Some(op);
        }
        value = value - chance as u128;
        i = i + 1;
    }
    None
}

/// The registered level building operations, in registration order.
pub struct LevelBuilderOperationRegistry {
    operations: Vec<LevelBuilderOperation>,
}

impl View for LevelBuilderOperationRegistry {
    type V = Seq<LevelBuilderOperation>;

    closed spec fn view(&self) -> Seq<LevelBuilderOperation> {
        self.operations@
    }
}

impl LevelBuilderOperationRegistry {
    pub fn new() -> (r: Self)
        ensures
            r@ == Seq::<LevelBuilderOperation>::empty(),
    {
        Self { operations: Vec::new() }
    }

    pub fn register(&mut self, level_builder_operation: LevelBuilderOperation) -> (r: &mut Self)
        ensures
            r@ == old(self)@.push(level_builder_operation),
            *final(self) == *final(r),
    {
        self.operations.push(level_builder_operation);
        self
    }

    pub fn len(&self) -> (n: usize)
        ensures
            n == self@.len(),
    {
        self.operations.len()
    }

    pub fn clone(&self) -> (c: Self)
        ensures
            c@ == self@,
    {
        let mut c = LevelBuilderOperationRegistry::new();
        let mut i: usize = 0;
        while i < self.operations.len()
            invariant
                i <= self@.len(),
                c@ == self@.take(i as int),
            decreases self@.len() - i,
        {
            c.register(self.operations[i]);
            i = i + 1;
            proof {
                assert(c@ =~= self@.take(i as int));
            }
        }
        proof {
            assert(self@.take(i as int) =~= self@);
        }
        c
    }

    pub fn operations(&self) -> (ops: &Vec<LevelBuilderOperation>)
        ensures
            ops@ == self@,
    {
        &self.operations
    }
}

/// Each registered operation with its default chance.
pub open spec fn default_chances(ops: Seq<LevelBuilderOperation>) -> Seq<(u32, LevelBuilderOperation)> {
    ops.map_values(|op: LevelBuilderOperation| (op.spec_default_spawn_chance(), op))
}

/// The chances once every registered operation prepared them.
pub open spec fn prepared_chances(ops: Seq<LevelBuilderOperation>, is_first: bool) -> Seq<
    (u32, LevelBuilderOperation),
> {
    if exists|i: int| 0 <= i < ops.len() && (#[trigger] ops[i]).is_spawn() {
        spawn_prepared(is_first, default_chances(ops))
    } else {
        default_chances(ops)
    }
}

/// Whether some draw below the total chance of a block picks `op`.
pub open spec fn drawable(ops: Seq<LevelBuilderOperation>, is_first: bool, op: LevelBuilderOperation) -> bool {
    exists|d: int|
        0 <= d < total_chance(prepared_chances(ops, is_first)) && Some(op) == #[trigger] picked_by_draw(
            prepared_chances(ops, is_first),
            d,
        )
}

/// Picks the operations that build a level, block by block.
pub struct LevelBuilder {
    level_builder_operations_registry: LevelBuilderOperationRegistry,
}

impl LevelBuilder {
    pub closed spec fn operations_view(&self) -> Seq<LevelBuilderOperation> {
        self.level_builder_operations_registry@
    }

    pub fn new(level_builder_operations_registry: LevelBuilderOperationRegistry) -> (b: Self)
        ensures
            b.operations_view() == level_builder_operations_registry@,
    {
        Self { level_builder_operations_registry }
    }

    /// The chances of the registered operations for a block, each operation
    /// having prepared them in registration order.
    pub fn spawn_chances(&self, is_first: bool) -> (chances: Vec<(u32, LevelBuilderOperation)>)
        ensures
            chances@ == prepared_chances(self.operations_view(), is_first),
    {
        let ops = self.level_builder_operations_registry.operations();
        let mut chances: Vec<(u32, LevelBuilderOperation)> = Vec::new();
        let mut i: usize = 0;
        while i < ops.len()
            invariant
                i <= ops@.len(),
                ops@ == self.operations_view(),
                chances@ == default_chances(ops@).take(i as int),
            decreases ops@.len() - i,
        {
            let op = ops[i];
            chances.push((op.default_spawn_chance(), op));
            i = i + 1;
            proof {
                assert(chances@ =~= default_chances(ops@).take(i as int));
            }
        }
        proof {
            assert(chances@ =~= default_chances(ops@));
        }
        let ghost defaults = chances@;
        let mut j: usize = 0;
        while j < ops.len()
            invariant
                j <= ops@.len(),
                ops@ == self.operations_view(),
                defaults == default_chances(ops@),
                chances@ == (if exists|q: int| 0 <= q < j && (#[trigger] ops@[q]).is_spawn() {
                    spawn_prepared(is_first, defaults)
                } else {
                    defaults
                }),
            decreases ops@.len() - j,
        {
            ops[j].prepare(is_first, &mut chances);
            proof {
                assert(spawn_prepared(is_first, spawn_prepared(is_first, defaults))
                    =~= spawn_prepared(is_first, defaults));
                if ops@[j as int].is_spawn() {
                    assert(exists|q: int| 0 <= q < j + 1 && (#[trigger] ops@[q]).is_spawn());
                } else if exists|q: int| 0 <= q < j + 1 && (#[trigger] ops@[q]).is_spawn() {
                    let q = choose|q: int| 0 <= q < j + 1 && (#[trigger] ops@[q]).is_spawn();
                    assert(q < j);
                }
            }
            j = j + 1;
        }
        chances
    }

    /// Picks the operation for a block: each registered operation prepares
    /// the chances, then a draw from `rng` below their total picks one.
    pub fn choose_operation(&self, is_first: bool, rng: &mut rand_pcg::Lcg128Xsl64) -> (op: Option<
        LevelBuilderOperation,
    >)
        requires
            total_chance(prepared_chances(self.operations_view(), is_first)) > 0,
        ensures
            op is Some,
            exists|d: int|
                0 <= d < total_chance(prepared_chances(self.operations_view(), is_first)) && op
                    == #[trigger] picked_by_draw(prepared_chances(self.operations_view(), is_first), d),
    {
        let chances = self.spawn_chances(is_first);
        let total = total_spawn_chance(&chances);
        let draw = random_below(rng, total);
        let op = select_by_draw(&chances, draw);
        proof {
            lemma_picked_has_chance(chances@, draw + 1);
        }
        assert(op == picked_by_draw(chances@, draw as int));
        op
    }

    /// Picks the operations of a level of `num_blocks` blocks, block by
    /// block, the first block marked first; the picked operations in block
    /// order. Where the spawn operation is registered the level starts with
    /// it, and no later block is a spawn.
    pub fn generate(&mut self, num_blocks: i32, rng: &mut rand_pcg::Lcg128Xsl64) -> (operations: Vec<
        LevelBuilderOperation,
    >)
        requires
            num_blocks > 0 ==> total_chance(prepared_chances(old(self).operations_view(), true)) > 0,
            num_blocks > 1 ==> total_chance(prepared_chances(old(self).operations_view(), false)) > 0,
        ensures
            final(self).operations_view() == old(self).operations_view(),
            operations@.len() == (if num_blocks > 0 { num_blocks as int } else { 0 }),
            forall|b: int|
                0 <= b < operations@.len() ==> drawable(old(self).operations_view(), b == 0, #[trigger] operations@[b]),
            operations@.len() > 0 && (exists|i: int|
                0 <= i < old(self).operations_view().len() && (#[trigger] old(self).operations_view()[i]).is_spawn())
                ==> operations@[0].is_spawn(),
            forall|b: int| 0 < b < operations@.len() ==> !(#[trigger] operations@[b]).is_spawn(),
    {
        let ghost ops = self.operations_view();
        let mut operations: Vec<LevelBuilderOperation> = Vec::new();
        let mut bi: i32 = 0;
        while bi < num_blocks
            invariant
                0 <= bi,
                num_blocks > 0 ==> bi <= num_blocks,
                num_blocks <= 0 ==> bi == 0,
                self.operations_view() == ops,
                num_blocks > 0 ==> total_chance(prepared_chances(ops, true)) > 0,
                num_blocks > 1 ==> total_chance(prepared_chances(ops, false)) > 0,
                operations@.len() == bi,
                forall|b: int| 0 <= b < operations@.len() ==> drawable(ops, b == 0, #[trigger] operations@[b]),
                operations@.len() > 0 && (exists|i: int| 0 <= i < ops.len() && (#[trigger] ops[i]).is_spawn())
                    ==> operations@[0].is_spawn(),
                forall|b: int| 0 < b < operations@.len() ==> !(#[trigger] operations@[b]).is_spawn(),
            decreases num_blocks - bi,
        {
            let is_first = bi == 0;
            let op = self.choose_operation(is_first, rng);
            let picked_op = op.unwrap();
            let ghost d = choose|d: int|
                0 <= d < total_chance(prepared_chances(ops, is_first)) && op
                    == #[trigger] picked_by_draw(prepared_chances(ops, is_first), d);
            proof {
                if is_first {
                    if exists|i: int| 0 <= i < ops.len() && (#[trigger] ops[i]).is_spawn() {
                        lemma_first_block_spawns(ops, d + 1);
                    }
                } else {
                    lemma_later_blocks_never_spawn(ops, d + 1);
                }
            }
            let ghost before = operations@;
            operations.push(picked_op);
            proof {
                assert(drawable(ops, is_first, picked_op)) by {
                    assert(Some(picked_op) == picked_by_draw(prepared_chances(ops, is_first), d));
                }
                assert forall|b: int|
                    0 <= b < operations@.len() implies drawable(ops, b == 0, #[trigger] operations@[b]) by {
                    if b < before.len() {
                        assert(operations@[b] == before[b]);
                    } else {
                        assert(b == bi);
                    }
                }
            }
            bi = bi + 1;
        }
        operations
    }
}

/// The total chance, taking the chances from the front.
pub proof fn lemma_total_chance_front(chances: Seq<(u32, LevelBuilderOperation)>)
    requires
        chances.len() > 0,
    ensures
        total_chance(chances) == chances[0].0 + total_chance(chances.drop_first()),
    decreases chances.len(),
{
    if chances.len() > 1 {
        lemma_total_chance_front(chances.drop_last());
        assert(chances.drop_last().drop_first() =~= chances.drop_first().drop_last());
        assert(chances.drop_first().last() == chances.last());
        assert(total_chance(chances.drop_first()) == total_chance(chances.drop_first().drop_last())
            + chances.drop_first().last().0);
        assert(chances.drop_last()[0] == chances[0]);
    } else {
        assert(chances.drop_first().len() == 0);
        assert(chances.drop_last().len() == 0);
        assert(total_chance(chances.drop_first()) == 0);
        assert(total_chance(chances.drop_last()) == 0);
        assert(chances.last() == chances[0]);
    }
}

/// A value within the total picks an operation whose chance is not zero.
pub proof fn lemma_picked_has_chance(chances: Seq<(u32, LevelBuilderOperation)>, value: int)
    requires
        1 <= value <= total_chance(chances),
    ensures
        exists|i: int|
            0 <= i < chances.len() && (#[trigger] chances[i]).0 > 0 && picked(chances, value) == Some(
                chances[i].1,
            ),
    decreases chances.len(),
{
    if chances.len() == 0 {
    } else {
        lemma_total_chance_front(chances);
        if value <= chances[0].0 {
            assert(chances[0].0 > 0);
        } else {
            lemma_picked_has_chance(chances.drop_first(), value - chances[0].0);
            let i = choose|i: int|
                0 <= i < chances.drop_first().len() && (#[trigger] chances.drop_first()[i]).0 > 0
                    && picked(chances.drop_first(), value - chances[0].0) == Some(
                    chances.drop_first()[i].1,
                );
            assert(chances[i + 1] == chances.drop_first()[i]);
        }
    }
}

/// The first block of a level is always the spawn operation, where it is
/// registered: any draw picks it.
pub proof fn lemma_first_block_spawns(ops: Seq<LevelBuilderOperation>, value: int)
    requires
        exists|i: int| 0 <= i < ops.len() && (#[trigger] ops[i]).is_spawn(),
        1 <= value <= total_chance(prepared_chances(ops, true)),
    ensures
        picked(prepared_chances(ops, true), value) matches Some(op) && op.is_spawn(),
{
    let c = prepared_chances(ops, true);
    lemma_picked_has_chance(c, value);
    let i = choose|i: int| 0 <= i < c.len() && (#[trigger] c[i]).0 > 0 && picked(c, value) == Some(c[i].1);
    assert(c[i] == (if true != default_chances(ops)[i].1.is_spawn() {
        (0u32, default_chances(ops)[i].1)
    } else {
        default_chances(ops)[i]
    }));
}

/// After the first block the spawn operation is never picked again.
pub proof fn lemma_later_blocks_never_spawn(ops: Seq<LevelBuilderOperation>, value: int)
    requires
        1 <= value <= total_chance(prepared_chances(ops, false)),
    ensures
        picked(prepared_chances(ops, false), value) matches Some(op) && !op.is_spawn(),
{
    let c = prepared_chances(ops, false);
    lemma_picked_has_chance(c, value);
    let i = choose|i: int| 0 <= i < c.len() && (#[trigger] c[i]).0 > 0 && picked(c, value) == Some(c[i].1);
    if exists|q: int| 0 <= q < ops.len() && (#[trigger] ops[q]).is_spawn() {
        assert(c[i] == (if false != default_chances(ops)[i].1.is_spawn() {
            (0u32, default_chances(ops)[i].1)
        } else {
            default_chances(ops)[i]
        }));
    } else {
        assert(c[i].1 == ops[i]);
    }
}

} // verus!
