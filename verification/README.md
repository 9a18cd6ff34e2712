# vector_terrain

Converts a PMTiles archive of Terrarium-encoded elevation tiles (WebP) into a
PMTiles archive of Mapbox vector tiles holding contour lines (metres and feet)
and hillshading bands.

- `src/` is the verified library:
  - `tile.rs`: tile addresses, PMTiles id decoding, the 3x3 neighbourhood of a tile;
  - `grid.rs`: the padded elevation grid, in fixed point (1/256 m);
  - `elevation_reader.rs`: decoding a tile and copying it, or the strip of it
    that a neighbour contributes, into the grid;
  - `geometry.rs`: rings of tile points, their orientation and repeated points;
  - `mvt_bindings.rs`: the calls into the `mvt` crate;
  - `tile_encoder.rs`: the layers of the vector tile.
- `app/` is the command-line program: archive I/O, concurrency, and the
  floating-point steps (contour tracing, hillshading, coordinate rounding).
