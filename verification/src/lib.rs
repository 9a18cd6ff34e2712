//! Discrete core of a terrain-tile converter: reads Terrarium-encoded elevation
//! tiles into a padded grid and lays out contour lines and hillshading bands as
//! Mapbox vector tile layers.

pub mod elevation_reader;
pub mod geometry;
pub mod grid;
pub mod mvt_bindings;
pub mod tile;
pub mod tile_encoder;
