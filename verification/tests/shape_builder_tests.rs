use rust_verlet::color::Color;
use rust_verlet::particle_accelerator::ParticleAccelerator;
use rust_verlet::shape_builder::{convert_to_real_index, ParticlePrim, ShapeBuilder};

fn stick_pairs(b: &ShapeBuilder) -> Vec<(usize, usize)> {
    b.sticks().iter().map(|s| (s.particle_indicies[0], s.particle_indicies[1])).collect()
}

fn spring_pairs(b: &ShapeBuilder) -> Vec<(usize, usize)> {
    b.springs().iter().map(|s| (s.particle_indicies[0], s.particle_indicies[1])).collect()
}

fn statics(b: &ShapeBuilder) -> Vec<bool> {
    b.particles().iter().map(|p| p.is_static).collect()
}

#[test]
fn negative_indices_count_back_from_the_end() {
    assert_eq!(convert_to_real_index(-1, 5), 4);
    assert_eq!(convert_to_real_index(-2, 5), 3);
    assert_eq!(convert_to_real_index(-5, 5), 0);
    assert_eq!(convert_to_real_index(0, 5), 0);
    assert_eq!(convert_to_real_index(3, 5), 3);
}

#[test]
fn an_index_before_the_first_wraps() {
    assert_eq!(convert_to_real_index(-6, 5), usize::MAX);
    assert_eq!(convert_to_real_index(-7, 5), usize::MAX - 1);
}

#[test]
fn new_builder_is_empty_opaque_and_not_static() {
    let b = ShapeBuilder::new();
    assert!(b.particles().is_empty());
    assert!(b.sticks().is_empty());
    assert!(b.springs().is_empty());
    assert!(!b.is_static());
    assert_eq!(b.color().a, 255);
}

#[test]
fn particles_take_the_current_static_flag_and_colour() {
    let mut b = ShapeBuilder::new();
    let red = Color::rgb(255, 0, 0);
    b.set_color(red).set_static(true).add_particle().set_static(false).add_particle();
    assert_eq!(
        b.particles(),
        &vec![ParticlePrim { is_static: true, color: red }, ParticlePrim { is_static: false, color: red }]
    );
    b.set_random_color();
    assert_eq!(b.color().a, 255);
}

#[test]
fn chain_of_two_particles_with_relative_stick() {
    let mut b = ShapeBuilder::new();
    b.add_particle().add_particle().add_stick([-2, -1]);
    assert_eq!(stick_pairs(&b), vec![(0, 1)]);
    b.add_particle().add_stick([0, -1]);
    assert_eq!(stick_pairs(&b), vec![(0, 1), (0, 2)]);
}

#[test]
fn remove_first_particle_keeps_stick_indices() {
    let mut b = ShapeBuilder::new();
    b.add_particle().set_static(true).add_particle().add_stick([0, 1]);
    b.remove_first_particle();
    assert_eq!(statics(&b), vec![true]);
    assert_eq!(stick_pairs(&b), vec![(0, 1)]);
}

#[test]
fn line_and_circle_add_particles() {
    let mut b = ShapeBuilder::new();
    b.set_static(true).add_line(3);
    assert_eq!(statics(&b), vec![true, true, true]);
    b.set_static(false).add_circle(2);
    assert_eq!(statics(&b), vec![true, true, true, false, false]);
    b.add_circle(-4);
    assert_eq!(b.particles().len(), 5);
}

#[test]
fn adjacent_stick_circle_closes_the_ring() {
    let mut b = ShapeBuilder::new();
    b.add_adjacent_stick_circle(4);
    assert_eq!(b.particles().len(), 4);
    assert_eq!(stick_pairs(&b), vec![(0, 1), (1, 2), (2, 3), (3, 0)]);
}

#[test]
fn connect_adjacent_sticks_wraps_once() {
    let mut b = ShapeBuilder::new();
    b.add_circle(4).connect_adjacent_sticks(1, 1);
    assert_eq!(stick_pairs(&b), vec![(0, 1), (1, 2), (2, 3), (3, 0)]);
    let mut c = ShapeBuilder::new();
    c.add_circle(4).connect_adjacent_sticks(2, 2);
    assert_eq!(stick_pairs(&c), vec![(0, 2), (2, 0)]);
    let mut d = ShapeBuilder::new();
    d.add_circle(5).connect_adjacent_sticks(3, -1);
    assert_eq!(stick_pairs(&d), vec![(0, 4), (3, 2)]);
}

#[test]
fn connect_adjacent_sticks_takes_any_stride_that_lands_on_a_particle() {
    let mut b = ShapeBuilder::new();
    b.add_circle(8).connect_adjacent_sticks(8, 9);
    assert_eq!(stick_pairs(&b), vec![(0, 1)]);
    let mut c = ShapeBuilder::new();
    c.add_circle(8).connect_adjacent_sticks(4, 11);
    assert_eq!(stick_pairs(&c), vec![(0, 3), (4, 7)]);
}

#[test]
fn stick_chain_ties_each_run() {
    let mut b = ShapeBuilder::new();
    b.add_line(6).connect_with_stick_chain(3);
    assert_eq!(stick_pairs(&b), vec![(0, 1), (1, 2), (3, 4), (4, 5)]);
    let mut c = ShapeBuilder::new();
    c.add_line(4).connect_with_stick_chain(1);
    assert!(stick_pairs(&c).is_empty());
}

#[test]
fn cloth_grid_pins_even_columns_of_the_top_row() {
    let mut b = ShapeBuilder::new();
    b.add_cloth_grid(2, 1);
    assert_eq!(statics(&b), vec![true, false, true, false, false, false]);
    assert_eq!(stick_pairs(&b), vec![(0, 1), (1, 2), (0, 3), (3, 4), (1, 4), (4, 5), (2, 5)]);
}

#[test]
fn cloth_grid_names_the_particle_above_from_the_front() {
    let mut b = ShapeBuilder::new();
    b.add_particle().add_cloth_grid(1, 1);
    assert_eq!(stick_pairs(&b), vec![(1, 2), (0, 3), (3, 4), (1, 4)]);
}

#[test]
fn stick_grid_braces_both_diagonals() {
    let mut b = ShapeBuilder::new();
    b.add_stick_grid(1, 1);
    assert_eq!(statics(&b), vec![false, false, false, false]);
    assert_eq!(stick_pairs(&b), vec![(0, 1), (0, 2), (1, 2), (2, 3), (1, 3), (0, 3)]);
}

#[test]
fn plain_grid_has_no_sticks_and_negative_sizes_add_nothing() {
    let mut b = ShapeBuilder::new();
    b.set_static(true).add_grid(2, 2);
    assert_eq!(statics(&b), vec![false; 9]);
    assert!(b.sticks().is_empty());
    b.add_grid(-1, 3).add_cloth_grid(3, -1).add_stick_grid(-2, -2);
    assert_eq!(b.particles().len(), 9);
}

#[test]
fn hanging_particle_is_a_static_anchor_and_a_spring() {
    let mut b = ShapeBuilder::new();
    b.add_particle().add_hanging_particle();
    assert_eq!(statics(&b), vec![false, true, false]);
    assert_eq!(spring_pairs(&b), vec![(1, 2)]);
    b.add_spring([0, -1]);
    assert_eq!(spring_pairs(&b), vec![(1, 2), (0, 2)]);
}

#[test]
fn created_shape_offsets_its_indices() {
    let mut pa = ParticleAccelerator::new();
    pa.create_particle(0x1, Color::rgb(0, 0, 0));
    let a = pa.create_particle(0x1, Color::rgb(0, 0, 0));
    let b2 = pa.create_particle(0x1, Color::rgb(0, 0, 0));
    pa.create_stick([&a, &b2]);
    let mut b = ShapeBuilder::new();
    let green = Color::rgb(0, 255, 0);
    b.set_color(green).set_static(true).add_particle().set_static(false).add_particle().add_particle();
    b.add_stick([0, 1]).add_stick([1, 2]).add_spring([0, 2]).add_spring([2, 1]);
    b.create_in_particle_accelerator(&mut pa, 0x2);
    let ids: Vec<usize> = b.particle_handles().iter().map(|h| h.id()).collect();
    assert_eq!(ids, vec![3, 4, 5]);
    let sticks: Vec<usize> = b.stick_handles().iter().map(|h| h.id()).collect();
    assert_eq!(sticks, vec![1, 2]);
    let springs: Vec<usize> = b.spring_handles().iter().map(|h| h.id()).collect();
    assert_eq!(springs, vec![3, 3]);
    assert_eq!(pa.particle_count(), 6);
    assert!(pa.get_particle_by_index(3).is_static);
    assert!(!pa.get_particle_by_index(4).is_static);
    assert_eq!(pa.get_particle_by_index(5).color, green);
    assert_eq!(pa.get_particle_by_index(5).mask, 0x2);
    assert_eq!(pa.stick_count(), 3);
    assert_eq!(pa.get_stick(&b.stick_handles()[0]).particle_indicies, [3, 4]);
    assert_eq!(pa.get_stick(&b.stick_handles()[1]).particle_indicies, [4, 5]);
    assert_eq!(pa.get_spring(1).particle_indicies, [5, 4]);
    assert_eq!(pa.layer_particle_ids(1).unwrap(), &vec![3, 4, 5]);
}
