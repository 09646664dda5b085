# tilt_paint

A pressure- and tilt-sensitive drawing canvas. The library (`src/`) holds the
parts that are verified with Verus:

- `geometry`: pixel points and rectangles, and the grid of 256x256 display
  tiles, with the proof that the tiles partition the canvas.
- `model`: the canvas as mathematical values (pixels, tiles, dirty flags, the
  key of each tile image), the store contents the canvas is kept in step
  with, and the laws about them.
- `canvas`: the canvas itself: construction, clearing, dabs, dirty-tile
  tracking and the upload of dirty tiles into bevy's image store.
- `input`: the pointer state machine: strokes per pointer, the brush-resize
  gesture, pen and mouse events.
- `tool`: the pen and the eraser.
- `display`: presentation modes and the vsync toggle.
- `image_store`: the few trusted calls into bevy (creating tile images,
  replacing their data).

`app/` is the bevy application around it: windowing, event reading, and the
floating-point brush geometry (pressure and tilt shaping, dab coverage and
colour blending), which calls into the library for every canvas change and
every input decision.
