//! The calls into the `mvt` crate, which encodes Mapbox vector tiles.
//!
//! `mvt` builds a tile step by step: a geometry encoder takes the points of a
//! geometry, a `Layer` takes features, a `Tile` takes layers, and the tile is
//! finally turned into bytes. What each builder holds is named below over
//! plain values; the two encodings themselves (the geometry commands and the
//! protobuf bytes of a tile) are named and not stated further.
//!
//! A feature is held as `(polygon, geometry, tags)`: whether its geometry is a
//! polygon (else a linestring), its encoded geometry, and its integer tags in
//! the order they were added. A layer is held as `(name, extent, features)`.

use vstd::prelude::*;

verus! {

/// An `mvt::GeomEncoder` over `i32` coordinates, made for a linestring or a
/// polygon. Verus refuses to declare `GeomEncoder` itself (its parameter is
/// bound by `mvt::CoordNum`), so it is held here, out of Verus's sight.
#[verifier::external_body]
pub struct GeometryBuilder {
    encoder: mvt::GeomEncoder<i32>,
}

#[verifier::external_type_specification]
#[verifier::external_body]
pub struct ExGeomData(mvt::GeomData);

#[verifier::external_type_specification]
#[verifier::external_body]
pub struct ExMvtTile(mvt::Tile);

#[verifier::external_type_specification]
#[verifier::external_body]
pub struct ExMvtLayer(mvt::Layer);

#[verifier::external_type_specification]
#[verifier::external_body]
pub struct ExMvtFeature(mvt::Feature);

#[verifier::external_type_specification]
#[verifier::external_body]
pub struct ExMvtError(mvt::Error);

/// The two geometry types that the tiles use.
#[derive(Clone, Copy, Debug, PartialEq, Eq, Structural)]
pub enum GeomKind {
    Linestring,
    Polygon,
}

/// The geometry commands (MoveTo, LineTo, ClosePath with zigzag-encoded
/// deltas) that `mvt` writes for a linestring or polygon made of `parts`, each
/// part being the points handed to the encoder before one `complete_geom`.
pub uninterp spec fn mvt_geometry(polygon: bool, parts: Seq<Seq<(i32, i32)>>) -> Seq<u32>;

/// The protobuf bytes that `mvt` writes for a tile made of `layers`.
pub uninterp spec fn mvt_tile_bytes(
    layers: Seq<(Seq<char>, u32, Seq<(bool, Seq<u32>, Seq<(Seq<char>, i64)>)>)>,
) -> Seq<u8>;

/// The points that a geometry builder received, one sequence per part; the
/// last part is the one being built.
pub uninterp spec fn builder_parts(b: GeometryBuilder) -> Seq<Seq<(i32, i32)>>;

/// The geometry type that a builder was made for: polygon, else linestring.
pub uninterp spec fn builder_polygon(b: GeometryBuilder) -> bool;

/// What an `mvt::GeomData` holds: its geometry type (polygon, else
/// linestring) and its encoded geometry.
pub uninterp spec fn geom_data_contents(g: mvt::GeomData) -> (bool, Seq<u32>);

/// What an `mvt::Layer` holds: name, extent and features.
pub uninterp spec fn layer_contents(l: mvt::Layer) -> (Seq<char>, u32, Seq<(bool, Seq<u32>, Seq<(Seq<char>, i64)>)>);

/// The layer that an `mvt::Feature` was made from, as it was then.
pub uninterp spec fn feature_layer(f: mvt::Feature) -> (Seq<char>, u32, Seq<(bool, Seq<u32>, Seq<(Seq<char>, i64)>)>);

/// The feature that an `mvt::Feature` holds: geometry type, geometry, tags.
pub uninterp spec fn feature_contents(f: mvt::Feature) -> (bool, Seq<u32>, Seq<(Seq<char>, i64)>);

/// The layers that an `mvt::Tile` holds, in the order they were added.
pub uninterp spec fn tile_layers(t: mvt::Tile) -> Seq<(Seq<char>, u32, Seq<(bool, Seq<u32>, Seq<(Seq<char>, i64)>)>)>;

/// The extent that an `mvt::Tile` was made with.
pub uninterp spec fn tile_extent(t: mvt::Tile) -> u32;

/// Calls `mvt::GeomEncoder::<i32>::new` with the geometry type `kind`. The
/// new builder has received no point: it holds one empty part.
#[verifier::external_body]
pub(crate) fn builder_new(kind: GeomKind) -> (b: GeometryBuilder)
    ensures
        builder_parts(b) == seq![Seq::<(i32, i32)>::empty()],
        builder_polygon(b) == (kind == GeomKind::Polygon),
{
    let tp = match kind {
        GeomKind::Linestring => mvt::GeomType::Linestring,
        GeomKind::Polygon => mvt::GeomType::Polygon,
    };
    GeometryBuilder { encoder: mvt::GeomEncoder::new(tp) }
}

/// Calls `mvt::GeomEncoder::<i32>::point`, which appends `(x, y)` to the
/// part being built. For coordinates below `i32::MAX` it never fails: they
/// convert to tile coordinates without loss, and the encoder's default
/// bounding box (minimum `i32::MAX`, maximum `i32::MIN`) puts every such
/// point below and left of it, so no segment is clipped.
#[verifier::external_body]
pub(crate) fn builder_point(b: GeometryBuilder, x: i32, y: i32) -> (r: Result<GeometryBuilder, mvt::Error>)
    requires
        builder_parts(b).len() > 0,
        x < i32::MAX,
        y < i32::MAX,
    ensures
        r is Ok,
        r matches Ok(nb) ==> builder_polygon(nb) == builder_polygon(b) && builder_parts(nb) == builder_parts(b).update(
            builder_parts(b).len() - 1,
            builder_parts(b).last().push((x, y)),
        ),
{
    match b.encoder.point(x, y) {
        Ok(encoder) => Ok(GeometryBuilder { encoder }),
        Err(e) => Err(e),
    }
}

/// Calls `mvt::GeomEncoder::<i32>::complete_geom`, which closes the part
/// being built and starts a new one. For linestrings and polygons it never
/// fails.
#[verifier::external_body]
pub(crate) fn builder_complete_geom(b: &mut GeometryBuilder) -> (r: Result<(), mvt::Error>)
    ensures
        r is Ok,
        builder_polygon(*final(b)) == builder_polygon(*old(b)),
        builder_parts(*final(b)) == builder_parts(*old(b)).push(Seq::<(i32, i32)>::empty()),
{
    b.encoder.complete_geom()
}

/// Calls `mvt::GeomEncoder::<i32>::encode`, which encodes the geometry. It
/// never fails.
#[verifier::external_body]
pub(crate) fn builder_encode(b: GeometryBuilder) -> (r: Result<mvt::GeomData, mvt::Error>)
    ensures
        r is Ok,
        r matches Ok(g) ==> geom_data_contents(g) == (builder_polygon(b), mvt_geometry(builder_polygon(b), builder_parts(b))),
{
    b.encoder.encode()
}

/// Calls `mvt::Tile::new`: a tile of the given extent and no layer.
#[verifier::external_body]
pub(crate) fn tile_new(extent: u32) -> (t: mvt::Tile)
    ensures
        tile_layers(t) == Seq::<(Seq<char>, u32, Seq<(bool, Seq<u32>, Seq<(Seq<char>, i64)>)>)>::empty(),
        tile_extent(t) == extent,
{
    mvt::Tile::new(extent)
}

/// Calls `mvt::Tile::create_layer`: an empty layer named `name` with the
/// tile's extent.
#[verifier::external_body]
pub(crate) fn tile_create_layer(t: &mvt::Tile, name: &str) -> (l: mvt::Layer)
    ensures
        layer_contents(l) == (name@, tile_extent(*t), Seq::<(bool, Seq<u32>, Seq<(Seq<char>, i64)>)>::empty()),
{
    t.create_layer(name)
}

/// Calls `mvt::Layer::into_feature`: a feature with geometry `g` and no tag,
/// which holds the layer.
#[verifier::external_body]
pub(crate) fn layer_into_feature(l: mvt::Layer, g: mvt::GeomData) -> (f: mvt::Feature)
    ensures
        feature_layer(f) == layer_contents(l),
        feature_contents(f) == (geom_data_contents(g).0, geom_data_contents(g).1, Seq::<(Seq<char>, i64)>::empty()),
{
    l.into_feature(g)
}

/// Calls `mvt::Feature::add_tag_int`, which adds the tag `key = val` to the
/// feature.
#[verifier::external_body]
pub(crate) fn feature_add_tag_int(f: &mut mvt::Feature, key: &str, val: i64)
    ensures
        feature_layer(*final(f)) == feature_layer(*old(f)),
        feature_contents(*final(f)) == (
            feature_contents(*old(f)).0,
            feature_contents(*old(f)).1,
            feature_contents(*old(f)).2.push((key@, val)),
        ),
{
    f.add_tag_int(key, val)
}

/// Calls `mvt::Feature::into_layer`, which appends the feature to its layer
/// and hands the layer back.
#[verifier::external_body]
pub(crate) fn feature_into_layer(f: mvt::Feature) -> (l: mvt::Layer)
    ensures
        layer_contents(l) == (feature_layer(f).0, feature_layer(f).1, feature_layer(f).2.push(feature_contents(f))),
{
    f.into_layer()
}

/// Calls `mvt::Tile::add_layer`, which appends the layer unless its extent
/// differs from the tile's or the tile already has a layer of that name. It
/// is stated that it succeeds on a layer of the tile's extent and of a new
/// name, and fails on a layer whose name the tile already has; a wrong extent
/// is not stated.
#[verifier::external_body]
pub(crate) fn tile_add_layer(t: &mut mvt::Tile, l: mvt::Layer) -> (r: Result<(), mvt::Error>)
    ensures
        tile_extent(*final(t)) == tile_extent(*old(t)),
        (layer_contents(l).1 == tile_extent(*old(t)) && forall|i: int|
            0 <= i < tile_layers(*old(t)).len() ==> #[trigger] tile_layers(*old(t))[i].0 != layer_contents(l).0) ==> r is Ok,
        (exists|i: int| 0 <= i < tile_layers(*old(t)).len() && #[trigger] tile_layers(*old(t))[i].0 == layer_contents(l).0) ==> r is Err,
        r is Ok ==> tile_layers(*final(t)) == tile_layers(*old(t)).push(layer_contents(l)),
        r is Err ==> tile_layers(*final(t)) == tile_layers(*old(t)),
{
    t.add_layer(l)
}

/// Calls `mvt::Tile::to_bytes`, which encodes the tile; it never fails.
#[verifier::external_body]
pub(crate) fn tile_to_bytes(t: &mvt::Tile) -> (r: Result<Vec<u8>, mvt::Error>)
    ensures
        r is Ok,
        r matches Ok(bytes) ==> bytes@ == mvt_tile_bytes(tile_layers(*t)),
{
    t.to_bytes()
}

} // verus!
