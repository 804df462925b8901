use vstd::prelude::*;

use crate::keyboard::KeyboardEvent;
use vstd::arithmetic::div_mod::{lemma_add_mod_noop_right, lemma_mod_self_0, lemma_small_mod};

verus! {

/// Key code of the key that changes scene (`` ` ``, the `~` key).
pub const KEY_BACKQUOTE: i32 = 96;

/// The scene shown after an event: the `~` key going down moves to the next
/// registered scene, wrapping round to the first; any other event keeps the
/// current one, as does a press with no scene registered.
pub fn scene_after_event(current_scene_idx: usize, scene_count: usize, event: KeyboardEvent) -> (idx: usize)
    ensures
        idx == (if event == KeyboardEvent::KeyDown(Some(KEY_BACKQUOTE)) && scene_count > 0 {
            ((current_scene_idx + 1) % (scene_count as int)) as usize
        } else {
            current_scene_idx
        }),
{
    match event {
        KeyboardEvent::KeyDown(Some(kc)) => {
            if kc == KEY_BACKQUOTE && scene_count > 0 {
                // counted from the remainder, so that the next index cannot overflow
                let r = current_scene_idx % scene_count;
                proof {
                    lemma_add_mod_noop_right(1, current_scene_idx as int, scene_count as int);
                    if r + 1 < scene_count {
                        lemma_small_mod((r + 1) as nat, scene_count as nat);
                    } else {
                        lemma_mod_self_0(scene_count as int);
                    }
                }
                if r + 1 == scene_count {
                    0
                } else {
                    r + 1
                }
            } else {
                current_scene_idx
            }
        },
        _ => current_scene_idx,
    }
}

} // verus!
