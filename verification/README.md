# mypaint

The integer core of a painting brush engine, verified with Verus.

- `src/` is the verified library:
  - `brushmodes`: run-length dab masks drawn onto premultiplied fix15 RGBA
    buffers in four blend modes, the luminosity transfer of the colour mode,
    and the weighted colour sums under a mask;
  - `fifo`, `operationqueue`: a queue and per-tile operation queues with the
    set of tiles that have work waiting;
  - `tilemap`: a square grid of tiles centred on the origin;
  - `mypaint_rectangle`: the bounding box that grows to include points;
  - `mypaint_mapping`, `mypaint_brush`, `mypaint_brush_settings_gen`: brush
    settings as mappings of the brush inputs, the brush states and their
    bookkeeping;
  - `rng_double`: the integer step of the PCG generator.
- `app/` holds the C interface (raw pointers, boxes handed out and freed),
  the floating-point brush dynamics and colour conversions, and calls into the
  surface.
- `tests/` runs the library on concrete values.
