# bevy_game

The rules of a small voxel adventure game, written in Verus and proved against
their contracts. The engine side (rendering, physics, input, assets) is a Bevy
application under `app/` that calls into the library.

- `src/components.rs`: step counters for animations, compass directions and grid
  cells, the player's jump charge and item pick-ups, random picks.
- `src/voxels.rs`: block types and textures, sorting placed blocks into chunks,
  the solid ball of blocks, building the world's chunks.
- `src/setup.rs`: the level text format and what each tile character spawns.
- `src/update.rs`: the clock, fading messages, sprite animation frames, the
  number dial and the floor of cubes that follows the player.
- `src/jumpy_penguin.rs`: closed paths travelled by drifting icebergs.
- `src/ui.rs`: layout of text pop-ups.
- `src/assetstuff.rs`: pixel data of the generated textures.
- `tests/`: tests of the library on concrete values.
