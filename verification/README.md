# pumpkin_world

Server-side world logic, verified with Verus.

- `chunk_levels`, `chunk_loading`: chunk tickets and the loading level of
  every chunk. The levels always equal the lowest level that any ticket asks
  (a ticket of level `l` asks `l + d` at Chebyshev distance `d`, up to the
  unload level 49); adding and removing tickets keeps them so, and pending
  generation-stage changes are collected for the level channel.
- `chunk_view_lut`: the concentric Chebyshev rings and squares of chunk
  offsets, and the nearest-first chunk lists of each view distance.
- `sculk`, `sculk_patch`: sculk veins spreading across block faces, sculk
  placement, sensor and shrieker growths, over a block level held as plain
  values (unbounded, bounded by a proto chunk, or reading fluids as a
  generation cache), always over a palette of the default states of the
  blocks it places. Random draws are passed in as rolls.
- `detector_rail`, `client_tick_end`: the decisions of a detector rail and of
  the end of a client tick; the world effects are the caller's.

`app/` holds what is not verified: source generation for the offset tables
(with `proc-macro2` and `quote`) and the text of the level dump.
