# niri_effects

Backdrop blur and cursor effects for a Wayland compositor, with the decisions
verified by Verus.

The library in `src/` performs no I/O. It holds the state of the effects and says
what is to be done: GPU work is handed out as a list of operations, and textures,
programs and files are asked for one at a time and fed back as plain values.

- `gpu`, `float_bits`: the vocabulary of GPU work, and floating-point numbers
  carried by their bit patterns.
- `kawase`, `multigrid`, `jfa`: the dual Kawase blur, the multigrid Poisson solve,
  and the region mask built from jump flooding and that solve.
- `custom_blur`, `blur_program`, `blur_options`: shader pipelines, their programs,
  and the options of a blur.
- `blur`, `custom_render`, `custom_laws`: the state of a blur, rendering through a
  shader pipeline step by step, and the laws of it.
- `icon`, `cursor_image`, `keyed_cache`, `cursor`: cursor icons, cursor files,
  and the caches of named cursors and their textures.
- `sdf`, `cursor_effect`, `hashing`: signed distances of a silhouette, and the
  cursor drawn through the shader pipeline.

`tests/` runs the library. `app/` draws with it on a smithay renderer: it executes
the plans with OpenGL ES, computes what is floating point, and reads the files.
