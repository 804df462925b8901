# rust_verlet

A verlet particle simulation: particles on collision layers, tied by sticks,
springs and attachment constraints, built into shapes (lines, circles,
grids, cloth, wheels) and driven by a car, a cloth and a level generator.

- `src/` is the verified library. It holds what the simulation decides:
  which particles, sticks, springs and attachments exist and in what order
  their ids come, which collision layers a mask puts a particle in, which
  pairs may collide, how shapes are laid out, what the keyboard and the car
  ask for, how the cloth is selected and cut, and which level blocks are
  picked. Every function there carries a contract proved by Verus.
- `app/` is the SDL front end: the window and event loop, the mouse, the
  floating-point positions, forces and constraint lengths beside the
  library's accelerator, the verlet integration, and drawing. `cargo run --
  level` prints the blocks of the day's level instead.
- `tests/` exercises the library on concrete values.

Controls: `~` changes scene; in the car scene `z` and `x` turn the wheels,
the mouse wheel sizes the cursor, the left button pulls the cloth and the
right button cuts it.
