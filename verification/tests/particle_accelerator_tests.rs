use rust_verlet::color::Color;
use rust_verlet::layers::mask_to_layer_indicies;
use rust_verlet::particle_accelerator::{ParticleAccelerator, ParticleHandle, WeightedParticle};
use rust_verlet::particle_collider::{ParticleCollider, ParticleRenderer};

#[test]
fn mask_to_layer_indicies_lists_set_bits_in_order() {
    assert_eq!(mask_to_layer_indicies(0b1011), vec![0, 1, 3]);
    assert_eq!(mask_to_layer_indicies(0x1), vec![0]);
    assert_eq!(mask_to_layer_indicies(0x0), Vec::<usize>::new());
    assert_eq!(mask_to_layer_indicies(0x8000_0000), vec![31]);
    assert_eq!(mask_to_layer_indicies(u32::MAX), (0..32).collect::<Vec<usize>>());
}

#[test]
fn particle_handles_count_up_from_zero() {
    let mut pa = ParticleAccelerator::new();
    let red = Color::rgb(255, 0, 0);
    let a = pa.create_particle(0x1, red);
    let b = pa.create_particle(0x3, red);
    let c = pa.create_particle(0x0, red);
    assert_eq!(a.id(), 0);
    assert_eq!(b.id(), 1);
    assert_eq!(c.id(), 2);
    assert_eq!(pa.particle_count(), 3);
    let p = pa.get_particle(&b);
    assert_eq!(p.id, 1);
    assert_eq!(p.mask, 0x3);
    assert!(!p.is_static);
    assert!(p.is_enabled);
    assert_eq!(p.color, Color { r: 255, g: 0, b: 0, a: 255 });
}

#[test]
fn particles_join_the_layers_their_mask_sets() {
    let mut pa = ParticleAccelerator::new();
    let col = Color::rgb(1, 2, 3);
    pa.create_particle(0x1, col);
    pa.create_particle(0x2, col);
    pa.create_particle(0x3, col);
    pa.create_particle(0x0, col);
    pa.create_particle(0x4, col);
    assert_eq!(pa.layer_particle_ids(0).unwrap(), &vec![0, 2]);
    assert_eq!(pa.layer_particle_ids(1).unwrap(), &vec![1, 2]);
    assert_eq!(pa.layer_particle_ids(2).unwrap(), &vec![4]);
    assert!(pa.layer_particle_ids(3).is_none());
    assert!(pa.layer_particle_ids(31).is_none());
}

#[test]
fn setters_change_only_their_particle() {
    let mut pa = ParticleAccelerator::new();
    let col = Color::rgb(1, 2, 3);
    let a = pa.create_particle(0x1, col);
    let b = pa.create_particle(0x1, col);
    pa.set_particle_static(&a, true);
    pa.set_particle_enabled(&b, false);
    pa.set_particle_color(&b, Color::rgb(9, 9, 9));
    assert!(pa.get_particle(&a).is_static);
    assert!(pa.get_particle(&a).is_enabled);
    assert_eq!(pa.get_particle(&a).color, col);
    assert!(!pa.get_particle(&b).is_static);
    assert!(!pa.get_particle(&b).is_enabled);
    assert_eq!(pa.get_particle(&b).color, Color::rgb(9, 9, 9));
    assert_eq!(pa.layer_particle_ids(0).unwrap(), &vec![0, 1]);
}

#[test]
fn sticks_springs_and_attachments_get_handles() {
    let mut pa = ParticleAccelerator::new();
    let col = Color::rgb(0, 0, 0);
    let a = pa.create_particle(0x1, col);
    let b = pa.create_particle(0x1, col);
    let c = pa.create_particle(0x1, col);
    let s0 = pa.create_stick([&a, &b]);
    let s1 = pa.create_stick([&b, &c]);
    assert_eq!(s0.id(), 0);
    assert_eq!(s1.id(), 1);
    assert_eq!(pa.get_stick(&s1).particle_indicies, [1, 2]);
    assert!(pa.get_stick(&s1).is_enabled);
    pa.set_stick_enabled(&s0, false);
    assert!(!pa.get_stick(&s0).is_enabled);
    assert!(pa.get_stick(&s1).is_enabled);
    // a spring's handle carries the number of sticks made before it
    let sp = pa.create_spring([&a, &c]);
    assert_eq!(sp.id(), 2);
    assert_eq!(pa.spring_count(), 1);
    assert_eq!(pa.get_spring(0).particle_indicies, [0, 2]);
    let incoming = vec![WeightedParticle::new(a), WeightedParticle::new(b)];
    let h = pa.create_attachment_constraint(incoming, vec![], c);
    assert_eq!(h.id(), 0);
    let att = pa.get_attachment_constraint(0);
    assert_eq!(att.target_particle_id, 2);
    assert_eq!(att.incoming_weighted_particles.len(), 2);
    assert_eq!(att.incoming_weighted_particles[1].particle_id, 1);
    assert!(att.outgoing_weighted_particles.is_empty());
}

#[test]
fn particle_handle_keeps_its_id() {
    let h = ParticleHandle::new(42);
    assert_eq!(h.id(), 42);
    let copy = h.clone();
    assert_eq!(copy.id(), 42);
}

#[test]
fn collision_candidates_follow_layer_order_and_skip_static_or_disabled() {
    let mut pa = ParticleAccelerator::new();
    let col = Color::rgb(0, 0, 0);
    let p0 = pa.create_particle(0x1, col);
    let _p1 = pa.create_particle(0x1, col);
    let p2 = pa.create_particle(0x1, col);
    let p3 = pa.create_particle(0x1, col);
    let _p4 = pa.create_particle(0x2, col);
    pa.set_particle_static(&p0, true);
    pa.set_particle_static(&p2, true);
    pa.set_particle_enabled(&p3, false);
    let collider = ParticleCollider::new();
    let pairs = collider.collision_candidates(&pa, 0);
    // (0,2) is static against static; anything with 3 is disabled
    assert_eq!(pairs, vec![(0, 1), (1, 2)]);
    assert_eq!(collider.collision_candidates(&pa, 1), Vec::<(usize, usize)>::new());
    assert_eq!(collider.collision_candidates(&pa, 5), Vec::<(usize, usize)>::new());
    assert_eq!(collider.layer_ids(&pa), vec![0, 1]);
}

#[test]
fn zero_mask_particle_never_collides() {
    let mut pa = ParticleAccelerator::new();
    let col = Color::rgb(0, 0, 0);
    pa.create_particle(0x1, col);
    let hub = pa.create_particle(0x0, col);
    pa.create_particle(0x1, col);
    let collider = ParticleCollider::new();
    for layer in collider.layer_ids(&pa) {
        for (a, b) in collider.collision_candidates(&pa, layer) {
            assert_ne!(a, hub.id());
            assert_ne!(b, hub.id());
        }
    }
    assert_eq!(collider.collision_candidates(&pa, 0), vec![(0, 2)]);
}

#[test]
fn renderer_and_collider_are_stateless() {
    let _r = ParticleRenderer::new();
    let _c = ParticleCollider::new();
    let _m = rust_verlet::particle_accelerator::ParticleManipulator::new();
}

#[test]
fn static_particles_take_no_share_of_a_correction() {
    let collider = ParticleCollider::new();
    assert_eq!(collider.compute_movement_weight(false, false), (1, 1));
    assert_eq!(collider.compute_movement_weight(true, false), (0, 2));
    assert_eq!(collider.compute_movement_weight(false, true), (2, 0));
    assert_eq!(collider.compute_movement_weight(true, true), (0, 2));
}
