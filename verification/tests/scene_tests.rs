use std::collections::HashMap;
use rust_verlet::car::{Car, CarWheel, KEY_X, KEY_Z};
use rust_verlet::cloth::Cloth;
use rust_verlet::color::Color;
use rust_verlet::keyboard::{Keyboard, KeyboardEvent};
use rust_verlet::particle_accelerator::ParticleAccelerator;
use rust_verlet::topology::{adjacent_ring_sticks, even_distribution_indicies, spoke_wheel_sticks};

#[test]
fn wheel_hub_is_on_the_no_collision_mask() {
    let mut pa = ParticleAccelerator::new();
    pa.create_particle(0x1, Color::rgb(0, 0, 0));
    let w = CarWheel::new(&mut pa);
    assert_eq!(w.hub_particle_handle().id(), 1);
    let surface: Vec<usize> = w.surface_particle_handles().iter().map(|h| h.id()).collect();
    assert_eq!(surface, (2..10).collect::<Vec<usize>>());
    let interior: Vec<usize> = w.interior_particle_handles().iter().map(|h| h.id()).collect();
    assert_eq!(interior, (10..16).collect::<Vec<usize>>());
    assert_eq!(pa.get_particle_by_index(1).mask, 0);
    assert_eq!(pa.get_particle_by_index(2).mask, 1);
    assert_eq!(pa.stick_count(), 8);
    assert_eq!(pa.get_stick(&rust_verlet::particle_accelerator::ParticleHandle::new(7)).particle_indicies, [9, 2]);
    let att = pa.get_attachment_constraint(0);
    assert_eq!(att.target_particle_id, 1);
    let incoming: Vec<usize> = att.incoming_weighted_particles.iter().map(|w| w.particle_id).collect();
    assert_eq!(incoming, surface);
    assert!(pa.layer_particle_ids(0).unwrap().iter().all(|id| *id != 1));
}

#[test]
fn car_axle_joins_the_hubs() {
    let mut pa = ParticleAccelerator::new();
    let car = Car::new(&mut pa);
    assert_eq!(car.wheels[0].hub_particle_handle().id(), 0);
    assert_eq!(car.wheels[1].hub_particle_handle().id(), 15);
    assert_eq!(pa.particle_count(), 30);
    assert_eq!(pa.stick_count(), 17);
    assert_eq!(pa.get_stick(&rust_verlet::particle_accelerator::ParticleHandle::new(16)).particle_indicies, [0, 15]);
    assert_eq!(pa.attachment_constraint_count(), 2);
}

#[test]
fn car_wheels_keep_their_particle_records_and_sticks() {
    let mut pa = ParticleAccelerator::new();
    pa.create_particle(0x1, Color::rgb(0, 0, 0));
    let car = Car::new(&mut pa);
    for base in [1usize, 16] {
        let p = pa.get_particle_by_index(base);
        assert_eq!((p.id, p.mask, p.is_static, p.is_enabled), (base, 0, false, true));
        for id in base + 1..base + 15 {
            let p = pa.get_particle_by_index(id);
            assert_eq!((p.id, p.mask, p.is_static, p.is_enabled), (id, 1, false, true));
        }
    }
    let surface: Vec<usize> = car.wheels[1].surface_particle_handles().iter().map(|h| h.id()).collect();
    assert_eq!(surface, (17..25).collect::<Vec<usize>>());
    let interior: Vec<usize> = car.wheels[1].interior_particle_handles().iter().map(|h| h.id()).collect();
    assert_eq!(interior, (25..31).collect::<Vec<usize>>());
    assert_eq!(pa.get_stick(&rust_verlet::particle_accelerator::ParticleHandle::new(8)).particle_indicies, [17, 18]);
    assert_eq!(pa.get_stick(&rust_verlet::particle_accelerator::ParticleHandle::new(15)).particle_indicies, [24, 17]);
    assert_eq!(pa.get_attachment_constraint(1).target_particle_id, 16);
    assert_eq!(pa.spring_count(), 0);
}

#[test]
fn car_keys_turn_the_wheels() {
    let mut pa = ParticleAccelerator::new();
    let car = Car::new(&mut pa);
    let mut kb = Keyboard::new();
    assert!(car.update(&mut kb).is_empty());
    kb.process_event(KeyboardEvent::KeyDown(Some(KEY_Z)));
    assert_eq!(car.update(&mut kb), vec![-1]);
    kb.process_event(KeyboardEvent::KeyDown(Some(KEY_X)));
    assert_eq!(car.update(&mut kb), vec![-1, 1]);
    kb.process_event(KeyboardEvent::KeyUp(Some(KEY_Z)));
    assert_eq!(car.update(&mut kb), vec![1]);
}

#[test]
fn cloth_is_pinned_along_the_top_and_cut_where_selected() {
    let mut pa = ParticleAccelerator::new();
    let cloth = Cloth::new(&mut pa);
    assert_eq!(pa.particle_count(), 121);
    assert_eq!(pa.stick_count(), 220);
    for x in 0..11 {
        assert_eq!(pa.get_particle_by_index(x).is_static, x % 2 == 0);
    }
    assert!(!pa.get_particle_by_index(11).is_static);
    assert!(pa.layer_particle_ids(0).is_none());
    let mut is_selected = vec![false; 121];
    is_selected[12] = true;
    let selection = cloth.update_selection(&mut pa, &is_selected);
    assert_eq!(selection.len(), 121);
    assert_eq!(pa.get_particle_by_index(12).color, Color::rgb(128, 0, 0));
    assert_eq!(pa.get_particle_by_index(13).color, Color::rgb(0, 128, 0));
    cloth.cut_sticks(&mut pa, &selection);
    assert!(!pa.get_particle_by_index(12).is_enabled);
    assert!(pa.get_particle_by_index(13).is_enabled);
    let cut: Vec<usize> = (0..pa.stick_count())
        .filter(|s| !pa.get_stick(&rust_verlet::particle_accelerator::ParticleHandle::new(*s)).is_enabled)
        .collect();
    // particle 12 (column 1, row 1) is tied left to 11, up to 1, and from 13 and 23
    assert_eq!(cut.len(), 4);
    let mut none: HashMap<usize, bool> = HashMap::new();
    none.insert(40, false);
    cloth.cut_sticks(&mut pa, &none);
    assert!(pa.get_particle_by_index(40).is_enabled);
}

#[test]
fn wheel_stick_patterns() {
    assert_eq!(adjacent_ring_sticks(3), vec![(0, 1), (1, 2), (2, 0)]);
    assert_eq!(
        spoke_wheel_sticks(4),
        vec![(0, 2), (1, 3), (0, 1), (1, 2), (2, 3), (3, 0)]
    );
    assert_eq!(spoke_wheel_sticks(8).len(), 12);
    assert_eq!(even_distribution_indicies(10, 3), vec![0, 3, 6]);
    assert_eq!(even_distribution_indicies(2, 4), vec![0, 0, 0, 0]);
}

#[test]
fn car_update_records_unseen_keys_as_up() {
    let mut pa = ParticleAccelerator::new();
    let car = Car::new(&mut pa);
    let mut kb = Keyboard::new();
    assert!(car.update(&mut kb).is_empty());
    assert!(!kb.get_keystate(KEY_Z).is_down() && !kb.get_keystate(KEY_Z).was_down);
    assert!(!kb.get_keystate(KEY_X).is_down() && !kb.get_keystate(KEY_X).was_down);
    assert!(car.update(&mut kb).is_empty());
}

#[test]
fn each_wheel_part_and_the_cloth_have_one_opaque_colour() {
    let mut pa = ParticleAccelerator::new();
    Car::new(&mut pa);
    for base in [0usize, 15] {
        assert_eq!(pa.get_particle_by_index(base).color.a, 255);
        let surface = pa.get_particle_by_index(base + 1).color;
        let interior = pa.get_particle_by_index(base + 9).color;
        assert_eq!((surface.a, interior.a), (255, 255));
        for id in base + 1..base + 9 {
            assert_eq!(pa.get_particle_by_index(id).color, surface);
        }
        for id in base + 9..base + 15 {
            assert_eq!(pa.get_particle_by_index(id).color, interior);
        }
    }
    let cloth = Cloth::new(&mut pa);
    let first = pa.get_particle_by_index(cloth.particle_handles()[0].id()).color;
    assert_eq!(first.a, 255);
    for h in cloth.particle_handles().iter() {
        assert_eq!(pa.get_particle_by_index(h.id()).color, first);
    }
}
