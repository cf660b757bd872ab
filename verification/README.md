# rustcraft

The game logic of a voxel sandbox game, verified with Verus, and the program
around it.

- `src/` is the verified library: coordinates, chunks and their light, the
  flood fill that propagates block and sky light, chunk meshing, items,
  stacks and the player's inventory, the crafting trie, dropped items, when
  entities search a path, the input state, the screens of the game, chat
  commands and the glyph lines of font metrics files. Calls into `scanlex`
  (tokenising a chat line), `rand` (random ticks) and `std::sync::Arc` go
  through a few trusted wrappers, each with its contract stated next to it.
- `app/` is the program: the window and OpenGL rendering (`sdl2`, `gl`,
  `cgmath`, `image`), sound (`alto`, `lewton`), content and chunk files
  (`toml`, `serde`, `bincode`), entities (`hecs`, `pathfinding`) and the
  font atlas, calling the library for the game's rules: screens and input,
  inventory moves, commands, light, meshes and the font metrics. What stays
  in `app/` is floating-point work (motion, collision, the view ray, terrain
  noise, the path search itself) and input/output. The window shows the
  chunks only: menus, text and the timing of block breaking are not drawn
  or kept.
- `tests/` runs the library on concrete values.
