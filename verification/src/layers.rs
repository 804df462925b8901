use vstd::prelude::*;

verus! {

/// Whether collision layer `layer` is set in `mask` (bit `layer`, counting
/// from the least significant bit).
pub open spec fn mask_has_layer(mask: u32, layer: int) -> bool {
    0 <= layer < 32 && (mask >> (layer as u32)) & 1u32 == 1u32
}

/// The layers set in `mask` from `start` upwards, in increasing order.
pub open spec fn mask_layers_from(mask: u32, start: int) -> Seq<usize>
    decreases 32 - start,
{
    if start < 0 || start >= 32 {
        Seq::empty()
    } else {
        (if mask_has_layer(mask, start) {
            seq![start as usize]
        } else {
            Seq::empty()
        }) + mask_layers_from(mask, start + 1)
    }
}

/// The layers set in `mask`, in increasing order.
pub open spec fn mask_layers(mask: u32) -> Seq<usize> {
    mask_layers_from(mask, 0)
}

proof fn lemma_shift_step(mask: u32, i: u32)
    requires
        i < 31,
    ensures
        (mask >> i) >> 1u32 == mask >> ((i + 1) as u32),
{
    assert((mask >> i) >> 1u32 == mask >> ((i + 1) as u32)) by (bit_vector)
        requires
            i < 31,
    ;
}

proof fn lemma_shift_last(mask: u32)
    ensures
        (mask >> 31u32) >> 1u32 == 0u32,
{
    assert((mask >> 31u32) >> 1u32 == 0u32) by (bit_vector);
}

proof fn lemma_shift_zero_bit(mask: u32, i: u32, j: u32)
    requires
        i <= j < 32,
        mask >> i == 0u32,
    ensures
        (mask >> j) & 1u32 == 0u32,
{
    assert((mask >> j) & 1u32 == 0u32) by (bit_vector)
        requires
            i <= j < 32,
            mask >> i == 0u32,
    ;
}

proof fn lemma_no_layers_above(mask: u32, i: int)
    requires
        0 <= i <= 32,
        i < 32 ==> mask >> (i as u32) == 0u32,
    ensures
        mask_layers_from(mask, i) == Seq::<usize>::empty(),
    decreases 32 - i,
{
    if i < 32 {
        lemma_shift_zero_bit(mask, i as u32, i as u32);
        if i + 1 < 32 {
            assert(mask >> ((i + 1) as u32) == 0u32) by {
                lemma_shift_step(mask, i as u32);
                assert((0u32 >> 1u32) == 0u32) by (bit_vector);
            }
        }
        lemma_no_layers_above(mask, i + 1);
        assert(mask_layers_from(mask, i) =~= Seq::<usize>::empty());
    }
}

/// Every entry of `mask_layers_from(mask, start)` is a set layer at or
/// above `start`, the entries increase strictly, and every set layer at or
/// above `start` occurs.
pub proof fn lemma_mask_layers_from(mask: u32, start: int)
    requires
        0 <= start <= 32,
    ensures
        forall|i: int|
            0 <= i < mask_layers_from(mask, start).len() ==> start <= #[trigger] mask_layers_from(
                mask,
                start,
            )[i] < 32 && mask_has_layer(mask, mask_layers_from(mask, start)[i] as int),
        forall|i: int, j: int|
            0 <= i < j < mask_layers_from(mask, start).len() ==> #[trigger] mask_layers_from(
                mask,
                start,
            )[i] < #[trigger] mask_layers_from(mask, start)[j],
        forall|k: int|
            start <= k < 32 && mask_has_layer(mask, k) ==> mask_layers_from(mask, start).contains(
                k as usize,
            ),
    decreases 32 - start,
{
    if start < 32 {
        lemma_mask_layers_from(mask, start + 1);
        let rest = mask_layers_from(mask, start + 1);
        let s = mask_layers_from(mask, start);
        if mask_has_layer(mask, start) {
            assert(s == seq![start as usize] + rest);
            assert forall|k: int| start <= k < 32 && mask_has_layer(mask, k) implies s.contains(
                k as usize,
            ) by {
                if k == start {
                    assert(s[0] == k as usize);
                } else {
                    let idx = choose|idx: int| 0 <= idx < rest.len() && rest[idx] == k as usize;
                    assert(s[idx + 1] == k as usize);
                }
            }
        } else {
            assert(s =~= rest);
        }
    }
}

/// The layers whose bit is set in `mask`, in increasing order: "mask to
/// layer indices".
pub fn mask_to_layer_indicies(mask: u32) -> (indicies: Vec<usize>)
    ensures
        indicies@ == mask_layers(mask),
{
    let mut indicies: Vec<usize> = Vec::new();
    let mut tmp_mask: u32 = mask;
    let mut idx: u32 = 0;
    assert(mask >> 0u32 == mask) by (bit_vector);
    while tmp_mask != 0
        invariant
            idx <= 32,
            idx < 32 ==> tmp_mask == mask >> idx,
            idx == 32 ==> tmp_mask == 0u32,
            indicies@ + mask_layers_from(mask, idx as int) == mask_layers(mask),
        decreases 32 - idx,
    {
        let ghost old_indicies = indicies@;
        if (tmp_mask & 1u32) == 1u32 {
            indicies.push(idx as usize);
        }
        proof {
            let rest = mask_layers_from(mask, idx + 1);
            if mask_has_layer(mask, idx as int) {
                assert(indicies@ + rest =~= old_indicies + mask_layers_from(mask, idx as int));
            } else {
                assert(indicies@ + rest =~= old_indicies + mask_layers_from(mask, idx as int));
            }
            if idx < 31 {
                lemma_shift_step(mask, idx);
            } else {
                lemma_shift_last(mask);
            }
        }
        tmp_mask = tmp_mask >> 1u32;
        idx = idx + 1;
    }
    proof {
        lemma_no_layers_above(mask, idx as int);
        assert(indicies@ =~= indicies@ + mask_layers_from(mask, idx as int));
    }
    indicies
}

} // verus!
