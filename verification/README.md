# sci

A reader and interpreter for the resources of early Sierra adventure games
(SCI0), written in Verus: every function of the library carries a contract and
is proved against it.

## Layout

- `src/resource.rs`, `src/resource/decompress.rs`: the resource map, resource
  headers and the Huffman decompressor.
- `src/picture.rs`: picture resources decoded into drawing operations
  (lines, patterns, flood fills) on a 320 x 190 canvas.
- `src/view.rs`: view resources (groups of run-length encoded cels).
- `src/graphics.rs`: the EGA palette, drawing operations and the flood fill on a
  pixel buffer.
- `src/script.rs`: script resources (exports, classes, objects, strings).
- `src/pmachine/`: the p-machine that runs the scripts: registers, objects, the
  heap of lists, the instruction set, the kernel calls, and an engine that stops
  for the outside work a game asks for (drawing, waiting, reading the clock).
- `app/main.rs`: the program around the library: it reads the game's files,
  shows the screen and feeds the engine the time and the player's input.

The proofs cover `src/`; the tests under `tests/` run the library on concrete
values.

## Design notes

- The machine keeps its loaded scripts and made objects in maps and vectors that
  it owns and changes through `&mut self`. A cache that grows through a shared
  reference (as `elsa::FrozenMap` does, its `insert` taking `&self`) cannot carry
  a Verus contract: what it holds would have to change while the reference to it
  stays the same value. Objects also change in place (their properties), which a
  map handing out only shared references does not allow without interior
  mutability.
- Helpers such as finding the first matching position or grouping items are
  written as verified loops with their own contracts rather than called from an
  iterator library.
