# glaphica

A library for drawing on tiles, verified with Verus, and a program around it that
talks to the GPU.

A document is cut into tiles of 126 by 126 pixels, which lie with a gutter of one
pixel in slots of 128 by 128 of atlas textures. The library decides what happens
to these tiles: which of them a stroke touches, which have to be drawn again,
which groups can be drawn from a cache, in which order strokes are merged into
layers, and what the GPU is told. The contracts of its functions say what they
decide, and Verus proves that they do.

## Layout

- `src/` is the library. It does no input or output: a function takes what the
  GPU reported as plain values and hands back a plan.
  - `model`, `tiles`, `atlas`, `images`: tiles, their keys and places, and images.
  - `protocol`, `render_protocol`: the messages between the parts of the program.
  - `renderer`: view operations, brushes, merges, the planning of frames, the
    caches of groups, reading pixels back.
  - `gpu_runtime`: where tiles are in the textures, and the passes, copies and
    draws that a frame is made of.
  - `collections`, `blocks`, `scalar`, `text`: maps and sets by key, bits of tiles,
    the bits of floating-point numbers, decimal text.
- `tests/` runs the library.
- `app/` holds what needs a GPU, floating-point numbers or files. It carries the
  plans out.

## What is taken on trust

Calls into other crates stand behind small functions whose contracts are believed
rather than proved: the keys of slotmap, the bits of bitvec, the casts of bytemuck
between words and bytes, and what wgpu says of features, limits and formats. The
doc comment of each says what is claimed of it. Documents, increments of messages
and targets of brushes are traits for the users of the library to implement; what
is proved through them holds of implementations that keep the contracts.

Shader sources are not part of this repository: the program takes them as text.

## Switches

`app/` logs to the standard error when one of these variables is set to anything
but `0`, unless `GLAPHICA_QUIET` is set too:

- `GLAPHICA_PERF_LOG`: the work of frames and merges, and how long merges take.
- `GLAPHICA_BRUSH_TRACE`: errors of the device while merges are under way.
- `GLAPHICA_RENDER_TREE_TRACE`: which trees are bound.
- `GLAPHICA_DEBUG_GPU_EXEC_TRACE`: the first steps that the GPU is given, as many
  as `GLAPHICA_DEBUG_GPU_EXEC_TRACE_MAX` says.
