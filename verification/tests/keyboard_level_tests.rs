use rand_pcg::Pcg64;
use rand::SeedableRng;
use rust_verlet::keyboard::{Keyboard, KeyboardEvent, Keystate};
use rust_verlet::level::{
    select_by_draw, total_spawn_chance, CliffOperation, DropDirectionReverse, FluidFunnel, JellyCube,
    LevelBuilder, LevelBuilderOperation, LevelBuilderOperationRegistry, SpawnOperation,
    StraightLevelBlock,
};

#[test]
fn keystate_update_remembers_the_current_state() {
    let mut k = Keystate::new();
    assert!(!k.is_down());
    k.is_down = true;
    assert!(!k.was_down);
    k.update();
    assert!(k.was_down && k.is_down());
    k.is_down = false;
    k.update();
    assert!(!k.was_down && !k.is_down());
}

#[test]
fn keyboard_tracks_key_events() {
    let mut kb = Keyboard::new();
    assert_eq!(*kb.get_keystate(122), Keystate { is_down: false, was_down: false });
    kb.process_event(KeyboardEvent::KeyDown(Some(122)));
    assert!(kb.get_keystate(122).is_down());
    assert!(!kb.get_keystate(122).was_down);
    kb.update();
    assert!(kb.get_keystate(122).was_down);
    kb.process_event(KeyboardEvent::KeyUp(Some(122)));
    assert!(!kb.get_keystate(122).is_down());
    assert!(kb.get_keystate(122).was_down);
    kb.process_event(KeyboardEvent::KeyDown(None));
    kb.process_event(KeyboardEvent::Other);
    kb.update();
    assert_eq!(*kb.get_keystate(122), Keystate { is_down: false, was_down: false });
    assert_eq!(*kb.get_keystate(120), Keystate { is_down: false, was_down: false });
}

fn registry() -> LevelBuilderOperationRegistry {
    let mut r = LevelBuilderOperationRegistry::new();
    r.register(LevelBuilderOperation::Spawn(SpawnOperation {}))
        .register(LevelBuilderOperation::StraightLevelBlock(StraightLevelBlock {}))
        .register(LevelBuilderOperation::Cliff(CliffOperation {}))
        .register(LevelBuilderOperation::FluidFunnel(FluidFunnel {}))
        .register(LevelBuilderOperation::JellyCube(JellyCube {}))
        .register(LevelBuilderOperation::DropDirectionReverse(DropDirectionReverse {}));
    r
}

#[test]
fn default_spawn_chances_in_hundredths() {
    let r = registry();
    let chances: Vec<u32> = r.operations().iter().map(|op| op.default_spawn_chance()).collect();
    assert_eq!(chances, vec![100, 100, 50, 100, 50, 80]);
    assert_eq!(r.operations()[2].operation_name(), "CliffOperation");
    assert_eq!(r.len(), 6);
    assert_eq!(r.clone().operations(), r.operations());
}

#[test]
fn spawn_chances_keep_spawn_first_and_drop_it_later() {
    let b = LevelBuilder::new(registry());
    let first: Vec<u32> = b.spawn_chances(true).iter().map(|c| c.0).collect();
    assert_eq!(first, vec![100, 0, 0, 0, 0, 0]);
    let later: Vec<u32> = b.spawn_chances(false).iter().map(|c| c.0).collect();
    assert_eq!(later, vec![0, 100, 50, 100, 50, 80]);
}

#[test]
fn a_draw_picks_the_operation_whose_share_holds_it() {
    let b = LevelBuilder::new(registry());
    let later = b.spawn_chances(false);
    let straight = LevelBuilderOperation::StraightLevelBlock(StraightLevelBlock {});
    let cliff = LevelBuilderOperation::Cliff(CliffOperation {});
    let reverse = LevelBuilderOperation::DropDirectionReverse(DropDirectionReverse {});
    assert_eq!(select_by_draw(&later, 0), Some(straight));
    assert_eq!(select_by_draw(&later, 99), Some(straight));
    assert_eq!(select_by_draw(&later, 100), Some(cliff));
    assert_eq!(select_by_draw(&later, 379), Some(reverse));
    assert_eq!(select_by_draw(&later, 380), None);
}

#[test]
fn the_first_block_is_always_spawn_and_later_ones_never() {
    let b = LevelBuilder::new(registry());
    let mut rng = Pcg64::seed_from_u64(7);
    for _ in 0..50 {
        let op = b.choose_operation(true, &mut rng).unwrap();
        assert_eq!(op, LevelBuilderOperation::Spawn(SpawnOperation {}));
    }
    for _ in 0..200 {
        let op = b.choose_operation(false, &mut rng).unwrap();
        assert_ne!(op, LevelBuilderOperation::Spawn(SpawnOperation {}));
    }
}

#[test]
fn draws_reach_every_operation_with_a_chance() {
    let b = LevelBuilder::new(registry());
    let mut rng = Pcg64::seed_from_u64(1);
    let mut seen = std::collections::HashSet::new();
    for _ in 0..2000 {
        seen.insert(b.choose_operation(false, &mut rng).unwrap().operation_name());
    }
    assert_eq!(seen.len(), 5);
}

#[test]
fn generate_picks_one_operation_per_block_spawn_first() {
    let mut b = LevelBuilder::new(registry());
    let mut rng = Pcg64::seed_from_u64(42);
    let ops = b.generate(20, &mut rng);
    assert_eq!(ops.len(), 20);
    assert_eq!(ops[0], LevelBuilderOperation::Spawn(SpawnOperation {}));
    for op in ops.iter().skip(1) {
        assert_ne!(*op, LevelBuilderOperation::Spawn(SpawnOperation {}));
    }
    assert!(b.generate(0, &mut rng).is_empty());
    assert!(b.generate(-3, &mut rng).is_empty());
}

#[test]
fn total_spawn_chance_sums_the_chances() {
    let b = LevelBuilder::new(registry());
    assert_eq!(total_spawn_chance(&b.spawn_chances(false)), 380);
    assert_eq!(total_spawn_chance(&b.spawn_chances(true)), 100);
    assert_eq!(total_spawn_chance(&Vec::new()), 0);
    let big = vec![(u32::MAX, LevelBuilderOperation::Cliff(CliffOperation {})); 3];
    assert_eq!(total_spawn_chance(&big), 3 * u32::MAX as u128);
}
