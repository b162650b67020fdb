# BeaverBuilds

A colony game about beavers, a river and its droughts, on a reactive layer for
Bevy's world: parts of a scene say what they depend on, and are drawn anew when,
and only when, that changes. The rules of the game and the reactive layer are a
library that Verus verifies.

- `src/` is the library.
  - `tick`, `ecs`, `table`, `scan`, `dep`, `reactor`, `hierarchy`, `runner`,
    `async_value`, `trace`: the reactive layer. `ecs` and `tick` hold all that is trusted
    of Bevy.
  - `sim`: the map, the water, the seasons, trees, beavers and their jobs,
    buildings, production, path finding, the whole colony (`colony`, `accord`)
    and the two governors that can play it (`governor`, `demo`).
  - `interact`, `menu`, `session`, `cinema`, `chronicle`, `hud`, `text`, `look`,
    `model`: what the player does and sees, as far as it is no matter of floating
    point.
- `tests/` runs the library, on a real `World` where it reads one.
- `app/` is the program around it: window, clock, meshes, colours, tasks.

Measures are integers. Depths are in millionths of a level, places and sizes in
millionths of a tile, times in microseconds, stores in halves of a unit. Entities
are the bits of Bevy's `Entity`.

`app/paint.rs` calls Bevy's renderer and needs, beyond the features that
`Cargo.toml` names, `bevy_pbr`, `bevy_winit`, `mesh_picking` and `png`.
