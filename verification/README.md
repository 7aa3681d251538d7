# server

A voxel game server's world storage, written in Verus and proved.

The world is cut into chunks of 32×32×32 cells, sixteen chunks tall. Each
cell holds a slab packed into two 16-bit words. A tile placed at a cell takes
a column of slabs: a base slab with the tile, its variant and its height, and
one trunk slab per level above, which holds a small number or the index of a
shared object stored with the chunk of that level.

Modules:

- `prelude`, `point`, `chunk`: indices, positions, chunk cells and columns.
- `slab`: the packing of slabs, with the decoding that every operation is
  stated against.
- `layout`, `tile`, `tiles`: what a tile puts in its column, the tile set,
  and the built-in tiles.
- `cluster`: placing columns and reading them back. The cluster's invariant
  (every column is whole, every object index is stored) is a type invariant;
  `lemma_read_after_place`, `lemma_place_occupies` and
  `lemma_placed_cells_taken` state what placing guarantees to later reads, and `lemma_walk` what a walk over a chunk's
  columns hands out. `Cluster::place` writes the column that the tile's own
  `place` gave.
- `tile`: besides the tile set, `lemma_get_by_name` (a name finds the tile of
  its slot) and `lemma_walk` (the walk over a tile set hands out slots 1, 2,
  ... in order).
- `declare`, `shader`, `uniform`, `texture`, `pass`, `mesh`: the parts of the
  renderer that are plain logic: GLSL type names and literals, the GLSL source
  of a shader with its `$NAME` constants filled in, texture parameters.
- `rectangle`, `vector`: integer rectangles and vectors.
- `config`: the server's address.

`app/main.rs` is the server program: it reads `Server.toml`, builds the tile
set and accepts connections.
