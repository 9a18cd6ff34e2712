//! Laying out contour lines and hillshading bands as the layers of a Mapbox
//! vector tile.

use vstd::prelude::*;
use crate::geometry::{
    Ring, Polygon, Contour, TilePoint, ring_path, dedup_consecutive, oriented_points, lemma_dedup_last, point_in_range,
    ring_in_range, polygon_in_range, contours_in_range,
};
use crate::mvt_bindings::{
    GeometryBuilder, GeomKind, builder_parts, builder_polygon, builder_new, builder_point,
    builder_complete_geom, builder_encode, mvt_geometry, mvt_tile_bytes, layer_contents,
    tile_layers, tile_extent, tile_new, tile_create_layer, layer_into_feature, feature_add_tag_int,
    feature_into_layer, tile_add_layer, tile_to_bytes, geom_data_contents,
};
use crate::tile::TileXyz;

verus! {

#[verifier::external_type_specification]
#[verifier::external_body]
pub struct ExIoError(std::io::Error);

/// What can go wrong while encoding and writing tiles.
#[derive(Debug)]
pub enum TileEncoderError {
    Mvt(mvt::Error),
    PmTiles(pmtiles::PmtError),
    Io(std::io::Error),
}

impl From<mvt::Error> for TileEncoderError {
    fn from(err: mvt::Error) -> (r: Self) {
        TileEncoderError::Mvt(err)
    }
}

impl vstd::std_specs::convert::FromSpecImpl<mvt::Error> for TileEncoderError {
    open spec fn obeys_from_spec() -> bool {
        true
    }

    open spec fn from_spec(err: mvt::Error) -> Self {
        TileEncoderError::Mvt(err)
    }
}

impl From<pmtiles::PmtError> for TileEncoderError {
    fn from(err: pmtiles::PmtError) -> (r: Self) {
        TileEncoderError::PmTiles(err)
    }
}

impl vstd::std_specs::convert::FromSpecImpl<pmtiles::PmtError> for TileEncoderError {
    open spec fn obeys_from_spec() -> bool {
        true
    }

    open spec fn from_spec(err: pmtiles::PmtError) -> Self {
        TileEncoderError::PmTiles(err)
    }
}

impl From<std::io::Error> for TileEncoderError {
    fn from(err: std::io::Error) -> (r: Self) {
        TileEncoderError::Io(err)
    }
}

impl vstd::std_specs::convert::FromSpecImpl<std::io::Error> for TileEncoderError {
    open spec fn obeys_from_spec() -> bool {
        true
    }

    open spec fn from_spec(err: std::io::Error) -> Self {
        TileEncoderError::Io(err)
    }
}

/// A feature as a tile holds it: polygon (else linestring), encoded geometry,
/// integer tags.
pub type FeatureRecord = (bool, Seq<u32>, Seq<(Seq<char>, i64)>);

/// A layer as a tile holds it: name, extent, features.
pub type LayerRecord = (Seq<char>, u32, Seq<FeatureRecord>);

/// A ring: its points and the sign of its signed area.
pub type RingView = (Seq<TilePoint>, bool);

/// A polygon: its exterior ring and its holes.
pub type PolygonView = (RingView, Seq<RingView>);

/// A contour: its elevation label and its polygons.
pub type ContourView = (i64, Seq<PolygonView>);

/// The contour line feature of one ring: a linestring drawn as an outer ring,
/// tagged with the elevation `ele`.
pub open spec fn line_feature(ring: RingView, ele: i64) -> FeatureRecord {
    (false, mvt_geometry(false, seq![ring_path(ring, true), Seq::empty()]), seq![("ele"@, ele)])
}

/// The contour line features of a polygon: its exterior ring, then each hole.
pub open spec fn polygon_line_features(p: PolygonView, ele: i64) -> Seq<FeatureRecord> {
    seq![line_feature(p.0, ele)] + p.1.map_values(|r: RingView| line_feature(r, ele))
}

/// The contour line features of the polygons of one contour.
pub open spec fn polygons_line_features(polys: Seq<PolygonView>, ele: i64) -> Seq<FeatureRecord>
    decreases polys.len(),
{
    if polys.len() == 0 {
        Seq::empty()
    } else {
        polygons_line_features(polys.drop_last(), ele) + polygon_line_features(polys.last(), ele)
    }
}

/// The features of a contour line layer: for each contour, for each of its
/// polygons, one linestring per ring.
pub open spec fn contour_layer_features(cs: Seq<ContourView>) -> Seq<FeatureRecord>
    decreases cs.len(),
{
    if cs.len() == 0 {
        Seq::empty()
    } else {
        contour_layer_features(cs.drop_last()) + polygons_line_features(cs.last().1, cs.last().0)
    }
}

/// The parts of a hillshading polygon: the exterior drawn as an outer ring,
/// each hole as an inner ring.
pub open spec fn band_parts(p: PolygonView) -> Seq<Seq<TilePoint>> {
    seq![ring_path(p.0, true)] + p.1.map_values(|r: RingView| ring_path(r, false)) + seq![Seq::<TilePoint>::empty()]
}

/// The hillshading feature of one polygon: an untagged polygon.
pub open spec fn band_feature(p: PolygonView) -> FeatureRecord {
    (true, mvt_geometry(true, band_parts(p)), Seq::empty())
}

/// The hillshading features of the polygons of one band.
pub open spec fn polygons_band_features(polys: Seq<PolygonView>) -> Seq<FeatureRecord>
    decreases polys.len(),
{
    if polys.len() == 0 {
        Seq::empty()
    } else {
        polygons_band_features(polys.drop_last()).push(band_feature(polys.last()))
    }
}

/// The features of the hillshading layer: one polygon per polygon of each band.
pub open spec fn band_layer_features(bands: Seq<ContourView>) -> Seq<FeatureRecord>
    decreases bands.len(),
{
    if bands.len() == 0 {
        Seq::empty()
    } else {
        band_layer_features(bands.drop_last()) + polygons_band_features(bands.last().1)
    }
}

/// The contours as plain values.
pub open spec fn contours_view(cs: Seq<Contour>) -> Seq<ContourView> {
    cs.map_values(|c: Contour| c@)
}

/// The layers of an encoded tile: metric contour lines, contour lines in feet,
/// hillshading; in this order, all of extent `extent`.
pub open spec fn tile_layer_records(
    extent: u32,
    contours_m: Seq<ContourView>,
    contours_ft: Seq<ContourView>,
    bands: Seq<ContourView>,
) -> Seq<LayerRecord> {
    seq![
        ("contours_m"@, extent, contour_layer_features(contours_m)),
        ("contours_ft"@, extent, contour_layer_features(contours_ft)),
        ("hillshading"@, extent, band_layer_features(bands)),
    ]
}

/// The name of the contour line layer: `contours_m` for metres, else
/// `contours_ft`.
pub open spec fn contour_layer_name(metric: bool) -> Seq<char> {
    if metric {
        "contours_m"@
    } else {
        "contours_ft"@
    }
}

/// How many tile units a grid pixel spans at zoom `z`: 2 below zoom 12, 8 from
/// zoom 12 on.
pub open spec fn spec_expansion_factor(z: u8) -> usize {
    if z < 12 {
        2
    } else {
        8
    }
}

/// Encodes the contour lines and hillshading of tiles of `tile_size` pixels
/// whose grids were padded by `padding` cells.
pub struct TileEncoder {
    tile_size: usize,
    padding: usize,
}

impl TileEncoder {
    #[verifier::type_invariant]
    spec fn inv(self) -> bool {
        self.tile_size * 8 <= usize::MAX
    }

    pub closed spec fn spec_tile_size(self) -> nat {
        self.tile_size as nat
    }

    pub closed spec fn spec_padding(self) -> nat {
        self.padding as nat
    }

    /// The extent of the tile at zoom `z`: `tile_size` times the expansion
    /// factor, cut to 32 bits.
    pub open spec fn spec_extent(self, z: u8) -> u32 {
        (self.spec_tile_size() * spec_expansion_factor(z)) as u32
    }

    pub fn new(tile_size: usize, padding: usize) -> (r: TileEncoder)
        requires
            tile_size * 8 <= usize::MAX,
        ensures
            r.spec_tile_size() == tile_size,
            r.spec_padding() == padding,
    {
        TileEncoder { tile_size, padding }
    }

    pub fn tile_size(&self) -> (r: usize)
        ensures
            r == self.spec_tile_size(),
    {
        self.tile_size
    }

    pub fn padding(&self) -> (r: usize)
        ensures
            r == self.spec_padding(),
    {
        self.padding
    }

    /// How many tile units a grid pixel spans at zoom `z`.
    pub fn expansion_factor(z: u8) -> (r: usize)
        ensures
            r == spec_expansion_factor(z),
    {
        if z < 12 {
            2
        } else {
            8
        }
    }

    /// The extent of the tile at zoom `z`.
    pub fn extent(&self, z: u8) -> (r: u32)
        ensures
            r == self.spec_extent(z),
    {
        proof {
            use_type_invariant(self);
        }
        let f = TileEncoder::expansion_factor(z);
        #[verifier::truncate]
        let e = (self.tile_size * f) as u32;
        e
    }

    /// Hands the points of `ring` to `builder`, oriented as an outer ring (or
    /// inner ring), repeats left out, and closes the part.
    fn add_linestring(&self, builder: GeometryBuilder, ring: &Ring, outer: bool) -> (r: Result<GeometryBuilder, TileEncoderError>)
        requires
            builder_parts(builder).len() > 0,
            ring_in_range(ring@),
        ensures
            r is Ok,
            r matches Ok(b) ==> builder_polygon(b) == builder_polygon(builder) && builder_parts(b) == builder_parts(builder).update(
                builder_parts(builder).len() - 1,
                builder_parts(builder).last() + ring_path(ring@, outer),
            ).push(Seq::<TilePoint>::empty()),
    {
        let ghost p0 = builder_parts(builder);
        let ghost o = oriented_points(ring@, outer);
        let n = ring.points.len();
        let reverse = outer != ring.area_nonnegative;
        let mut b = builder;
        let mut last: Option<TilePoint> = None;
        let mut j: usize = 0;
        assert(o.take(0) == Seq::<TilePoint>::empty());
        assert(p0.update(p0.len() - 1, p0.last() + Seq::<TilePoint>::empty()) == p0);
        while j < n
            invariant
                n == ring.points@.len(),
                n == o.len(),
                o == oriented_points(ring@, outer),
                reverse == (outer != ring.area_nonnegative),
                j <= n,
                p0.len() > 0,
                builder_polygon(b) == builder_polygon(builder),
                builder_parts(b) == p0.update(p0.len() - 1, p0.last() + dedup_consecutive(o.take(j as int))),
                ring_in_range(ring@),
                j == 0 ==> last is None,
                j > 0 ==> last == Some(o[j - 1]),
            decreases n - j,
        {
            let cur = if reverse { ring.points[n - 1 - j] } else { ring.points[j] };
            assert(cur == o[j as int]);
            assert(point_in_range(cur)) by {
                if reverse {
                    assert(point_in_range(ring.points@[n - 1 - j]));
                } else {
                    assert(point_in_range(ring.points@[j as int]));
                }
            }
            let ghost prev = dedup_consecutive(o.take(j as int));
            assert(o.take(j + 1).drop_last() == o.take(j as int));
            assert(o.take(j + 1).last() == o[j as int]);
            proof {
                if j > 0 {
                    lemma_dedup_last(o.take(j as int));
                    assert(o.take(j as int).last() == o[j - 1]);
                }
            }
            let repeat = match last {
                Some(l) => l.0 == cur.0 && l.1 == cur.1,
                None => false,
            };
            if !repeat {
                b = match builder_point(b, cur.0, cur.1) {
                    Ok(nb) => nb,
                    Err(e) => {
                        return Err(TileEncoderError::Mvt(e));
                    },
                };
                assert(p0.last() + prev.push(cur) == (p0.last() + prev).push(cur));
                assert(builder_parts(b) == p0.update(p0.len() - 1, p0.last() + dedup_consecutive(o.take(j + 1))));
                last = Some(cur);
            } else {
                assert(dedup_consecutive(o.take(j + 1)) == prev);
            }
            j = j + 1;
        }
        assert(o.take(n as int) == o);
        match builder_complete_geom(&mut b) {
            Ok(()) => {},
            Err(e) => {
                return Err(TileEncoderError::Mvt(e));
            },
        }
        Ok(b)
    }

    /// Appends to `layer` the contour line feature of `ring`, tagged with the
    /// elevation `ele`.
    fn add_line_feature(&self, layer: mvt::Layer, ring: &Ring, ele: i64) -> (r: Result<mvt::Layer, TileEncoderError>)
        requires
            ring_in_range(ring@),
        ensures
            r is Ok,
            r matches Ok(l) ==> layer_contents(l) == (layer_contents(layer).0, layer_contents(layer).1, layer_contents(
                layer,
            ).2.push(line_feature(ring@, ele))),
    {
        let b = builder_new(GeomKind::Linestring);
        let b = match self.add_linestring(b, ring, true) {
            Ok(b) => b,
            Err(e) => {
                return Err(e);
            },
        };
        assert(seq![Seq::<TilePoint>::empty()].update(0, Seq::<TilePoint>::empty() + ring_path(ring@, true)).push(
            Seq::<TilePoint>::empty(),
        ) == seq![ring_path(ring@, true), Seq::<TilePoint>::empty()]);
        let data = match builder_encode(b) {
            Ok(d) => d,
            Err(e) => {
                return Err(TileEncoderError::Mvt(e));
            },
        };
        let mut feature = layer_into_feature(layer, data);
        feature_add_tag_int(&mut feature, "ele", ele);
        let layer = feature_into_layer(feature);
        assert(Seq::<(Seq<char>, i64)>::empty().push(("ele"@, ele)) == seq![("ele"@, ele)]);
        Ok(layer)
    }

    /// Adds to `tile` the layer of contour lines `contours_m` when `metric`,
    /// else `contours_ft`: one linestring, tagged with its contour's elevation,
    /// per ring of each polygon of each contour. Fails, leaving the tile's
    /// layers as they were, when the tile already has a layer of that name.
    fn encode_contours(&self, tile: &mut mvt::Tile, contours: &Vec<Contour>, metric: bool) -> (r: Result<(), TileEncoderError>)
        requires
            contours_in_range(contours_view(contours@)),
        ensures
            tile_extent(*final(tile)) == tile_extent(*old(tile)),
            (forall|i: int| 0 <= i < tile_layers(*old(tile)).len() ==> #[trigger] tile_layers(*old(tile))[i].0 != contour_layer_name(metric))
                ==> r is Ok,
            (exists|i: int| 0 <= i < tile_layers(*old(tile)).len() && #[trigger] tile_layers(*old(tile))[i].0 == contour_layer_name(metric))
                ==> r is Err,
            r is Ok ==> tile_layers(*final(tile)) == tile_layers(*old(tile)).push(
                (contour_layer_name(metric), tile_extent(*old(tile)), contour_layer_features(contours_view(contours@))),
            ),
            r is Err ==> tile_layers(*final(tile)) == tile_layers(*old(tile)) && r matches Err(TileEncoderError::Mvt(_)),
    {
        let name = if metric { "contours_m" } else { "contours_ft" };
        let mut layer = tile_create_layer(tile, name);
        let ghost cv = contours_view(contours@);
        let ghost header = (name@, tile_extent(*tile));
        let mut i: usize = 0;
        assert(cv.take(0) == Seq::<ContourView>::empty());
        while i < contours.len()
            invariant
                i <= contours@.len(),
                cv == contours_view(contours@),
                contours_in_range(cv),
                layer_contents(layer) == (header.0, header.1, contour_layer_features(cv.take(i as int))),
            decreases contours@.len() - i,
        {
            let c = &contours[i];
            let ghost pv = c@.1;
            let ghost base = contour_layer_features(cv.take(i as int));
            assert(cv[i as int] == c@);
            assert forall|j: int| 0 <= j < pv.len() implies polygon_in_range(#[trigger] pv[j]) by {
                assert(polygon_in_range(cv[i as int].1[j]));
            }
            assert(pv.take(0) == Seq::<PolygonView>::empty());
            assert(base + polygons_line_features(pv.take(0), c.ele) == base);
            let mut k: usize = 0;
            while k < c.polygons.len()
                invariant
                    k <= c.polygons@.len(),
                    pv == c@.1,
                    forall|j: int| 0 <= j < pv.len() ==> polygon_in_range(#[trigger] pv[j]),
                    layer_contents(layer) == (header.0, header.1, base + polygons_line_features(pv.take(k as int), c.ele)),
                decreases c.polygons@.len() - k,
            {
                let p = &c.polygons[k];
                let ghost lv = base + polygons_line_features(pv.take(k as int), c.ele);
                assert(pv[k as int] == p@);
                assert(polygon_in_range(p@));
                layer = match self.add_line_feature(layer, &p.exterior, c.ele) {
                    Ok(l) => l,
                    Err(e) => {
                        return Err(e);
                    },
                };
                let ghost iv = p@.1;
                assert(iv.take(0).map_values(|r: RingView| line_feature(r, c.ele)) == Seq::<FeatureRecord>::empty());
                let mut m: usize = 0;
                while m < p.interiors.len()
                    invariant
                        m <= p.interiors@.len(),
                        iv == p@.1,
                        polygon_in_range(p@),
                        layer_contents(layer) == (header.0, header.1, lv + (seq![line_feature(p@.0, c.ele)] + iv.take(
                            m as int,
                        ).map_values(|r: RingView| line_feature(r, c.ele)))),
                    decreases p.interiors@.len() - m,
                {
                    assert(iv[m as int] == p.interiors@[m as int]@);
                    assert(ring_in_range(iv[m as int]));
                    layer = match self.add_line_feature(layer, &p.interiors[m], c.ele) {
                        Ok(l) => l,
                        Err(e) => {
                            return Err(e);
                        },
                    };
                    assert(iv.take(m + 1).map_values(|r: RingView| line_feature(r, c.ele)) == iv.take(m as int).map_values(
                        |r: RingView| line_feature(r, c.ele),
                    ).push(line_feature(iv[m as int], c.ele)));
                    m = m + 1;
                }
                assert(iv.take(m as int) == iv);
                assert(pv.take(k + 1).drop_last() == pv.take(k as int));
                assert(pv.take(k + 1).last() == p@);
                k = k + 1;
            }
            assert(pv.take(k as int) == pv);
            assert(cv.take(i + 1).drop_last() == cv.take(i as int));
            assert(cv.take(i + 1).last() == c@);
            i = i + 1;
        }
        assert(cv.take(i as int) == cv);
        match tile_add_layer(tile, layer) {
            Ok(()) => Ok(()),
            Err(e) => Err(TileEncoderError::Mvt(e)),
        }
    }


    /// Appends to `layer` the hillshading feature of `polygon`.
    fn add_band_feature(&self, layer: mvt::Layer, polygon: &Polygon) -> (r: Result<mvt::Layer, TileEncoderError>)
        requires
            polygon_in_range(polygon@),
        ensures
            r is Ok,
            r matches Ok(l) ==> layer_contents(l) == (layer_contents(layer).0, layer_contents(layer).1, layer_contents(
                layer,
            ).2.push(band_feature(polygon@))),
    {
        let ghost iv = polygon@.1;
        let ghost e: Seq<TilePoint> = Seq::empty();
        let mut b = builder_new(GeomKind::Polygon);
        b = match self.add_linestring(b, &polygon.exterior, true) {
            Ok(b) => b,
            Err(e) => {
                return Err(e);
            },
        };
        assert(seq![e].update(0, e + ring_path(polygon@.0, true)).push(e) == seq![ring_path(polygon@.0, true)]
            + iv.take(0).map_values(|r: RingView| ring_path(r, false)) + seq![e]);
        let mut m: usize = 0;
        while m < polygon.interiors.len()
            invariant
                m <= polygon.interiors@.len(),
                iv == polygon@.1,
                polygon_in_range(polygon@),
                e == Seq::<TilePoint>::empty(),
                builder_polygon(b),
                builder_parts(b) == seq![ring_path(polygon@.0, true)] + iv.take(m as int).map_values(
                    |r: RingView| ring_path(r, false),
                ) + seq![e],
            decreases polygon.interiors@.len() - m,
        {
            assert(iv[m as int] == polygon.interiors@[m as int]@);
            assert(ring_in_range(iv[m as int]));
            let ghost before = builder_parts(b);
            b = match self.add_linestring(b, &polygon.interiors[m], false) {
                Ok(b) => b,
                Err(e) => {
                    return Err(e);
                },
            };
            assert(iv.take(m + 1).map_values(|r: RingView| ring_path(r, false)) == iv.take(m as int).map_values(
                |r: RingView| ring_path(r, false),
            ).push(ring_path(iv[m as int], false)));
            assert(before.update(before.len() - 1, e + ring_path(iv[m as int], false)).push(e) == seq![
                ring_path(polygon@.0, true),
            ] + iv.take(m + 1).map_values(|r: RingView| ring_path(r, false)) + seq![e]);
            m = m + 1;
        }
        assert(iv.take(m as int) == iv);
        let data = match builder_encode(b) {
            Ok(d) => d,
            Err(e) => {
                return Err(TileEncoderError::Mvt(e));
            },
        };
        let feature = layer_into_feature(layer, data);
        Ok(feature_into_layer(feature))
    }

    /// Adds to `tile` the layer `hillshading`: one polygon per polygon of each
    /// band, its holes drawn as inner rings. Fails, leaving the tile's layers
    /// as they were, when the tile already has a layer of that name.
    fn encode_hillshading(&self, tile: &mut mvt::Tile, bands: &Vec<Contour>) -> (r: Result<(), TileEncoderError>)
        requires
            contours_in_range(contours_view(bands@)),
        ensures
            tile_extent(*final(tile)) == tile_extent(*old(tile)),
            (forall|i: int| 0 <= i < tile_layers(*old(tile)).len() ==> #[trigger] tile_layers(*old(tile))[i].0 != "hillshading"@)
                ==> r is Ok,
            (exists|i: int| 0 <= i < tile_layers(*old(tile)).len() && #[trigger] tile_layers(*old(tile))[i].0 == "hillshading"@)
                ==> r is Err,
            r is Ok ==> tile_layers(*final(tile)) == tile_layers(*old(tile)).push(
                ("hillshading"@, tile_extent(*old(tile)), band_layer_features(contours_view(bands@))),
            ),
            r is Err ==> tile_layers(*final(tile)) == tile_layers(*old(tile)) && r matches Err(TileEncoderError::Mvt(_)),
    {
        let mut layer = tile_create_layer(tile, "hillshading");
        let ghost cv = contours_view(bands@);
        let ghost header = ("hillshading"@, tile_extent(*tile));
        let mut i: usize = 0;
        assert(cv.take(0) == Seq::<ContourView>::empty());
        while i < bands.len()
            invariant
                i <= bands@.len(),
                cv == contours_view(bands@),
                contours_in_range(cv),
                layer_contents(layer) == (header.0, header.1, band_layer_features(cv.take(i as int))),
            decreases bands@.len() - i,
        {
            let band = &bands[i];
            let ghost pv = band@.1;
            let ghost base = band_layer_features(cv.take(i as int));
            assert(cv[i as int] == band@);
            assert forall|j: int| 0 <= j < pv.len() implies polygon_in_range(#[trigger] pv[j]) by {
                assert(polygon_in_range(cv[i as int].1[j]));
            }
            assert(pv.take(0) == Seq::<PolygonView>::empty());
            assert(base + polygons_band_features(pv.take(0)) == base);
            let mut k: usize = 0;
            while k < band.polygons.len()
                invariant
                    k <= band.polygons@.len(),
                    pv == band@.1,
                    forall|j: int| 0 <= j < pv.len() ==> polygon_in_range(#[trigger] pv[j]),
                    layer_contents(layer) == (header.0, header.1, base + polygons_band_features(pv.take(k as int))),
                decreases band.polygons@.len() - k,
            {
                let p = &band.polygons[k];
                assert(pv[k as int] == p@);
                assert(polygon_in_range(p@));
                layer = match self.add_band_feature(layer, p) {
                    Ok(l) => l,
                    Err(e) => {
                        return Err(e);
                    },
                };
                assert(pv.take(k + 1).drop_last() == pv.take(k as int));
                assert(pv.take(k + 1).last() == p@);
                assert(base + polygons_band_features(pv.take(k + 1)) == (base + polygons_band_features(pv.take(k as int))).push(
                    band_feature(p@),
                ));
                k = k + 1;
            }
            assert(pv.take(k as int) == pv);
            assert(cv.take(i + 1).drop_last() == cv.take(i as int));
            assert(cv.take(i + 1).last() == band@);
            i = i + 1;
        }
        assert(cv.take(i as int) == cv);
        match tile_add_layer(tile, layer) {
            Ok(()) => Ok(()),
            Err(e) => Err(TileEncoderError::Mvt(e)),
        }
    }

    /// Encodes the vector tile of `tile`: its metric contour lines, its contour
    /// lines in feet and its hillshading bands, as the layers `contours_m`,
    /// `contours_ft` and `hillshading`, in a tile whose extent is `tile_size`
    /// times the expansion factor of the tile's zoom.
    pub fn encode(
        &self,
        tile: TileXyz,
        contours_m: &Vec<Contour>,
        contours_ft: &Vec<Contour>,
        bands: &Vec<Contour>,
    ) -> (r: Result<Vec<u8>, TileEncoderError>)
        requires
            contours_in_range(contours_view(contours_m@)),
            contours_in_range(contours_view(contours_ft@)),
            contours_in_range(contours_view(bands@)),
        ensures
            r is Ok,
            r matches Ok(bytes) ==> bytes@ == mvt_tile_bytes(
                tile_layer_records(
                    self.spec_extent(tile.z),
                    contours_view(contours_m@),
                    contours_view(contours_ft@),
                    contours_view(bands@),
                ),
            ),
    {
        proof {
            reveal_strlit("contours_m");
            reveal_strlit("contours_ft");
            reveal_strlit("hillshading");
            assert("contours_m"@.len() == 10);
            assert("contours_ft"@.len() == 11);
            assert("hillshading"@[0] == 'h' && "contours_m"@[0] == 'c' && "contours_ft"@[0] == 'c');
        }
        let extent = self.extent(tile.z);
        let mut mvt_tile = tile_new(extent);
        match self.encode_contours(&mut mvt_tile, contours_m, true) {
            Ok(()) => {},
            Err(e) => {
                return Err(e);
            },
        }
        assert(tile_layers(mvt_tile).len() == 1 && tile_layers(mvt_tile)[0].0 == "contours_m"@);
        match self.encode_contours(&mut mvt_tile, contours_ft, false) {
            Ok(()) => {},
            Err(e) => {
                return Err(e);
            },
        }
        assert(tile_layers(mvt_tile).len() == 2 && tile_layers(mvt_tile)[1].0 == "contours_ft"@);
        match self.encode_hillshading(&mut mvt_tile, bands) {
            Ok(()) => {},
            Err(e) => {
                return Err(e);
            },
        }
        assert(tile_layers(mvt_tile) == tile_layer_records(
            extent,
            contours_view(contours_m@),
            contours_view(contours_ft@),
            contours_view(bands@),
        ));
        match tile_to_bytes(&mvt_tile) {
            Ok(data) => Ok(data),
            Err(e) => Err(TileEncoderError::Mvt(e)),
        }
    }

}

/// Mapping over a nonempty sequence and flattening takes the last element's
/// image after the rest.
proof fn lemma_map_flatten_last<A, B>(s: Seq<A>, f: spec_fn(A) -> Seq<B>)
    requires
        s.len() > 0,
    ensures
        s.map_values(f).flatten() == s.drop_last().map_values(f).flatten() + f(s.last()),
{
    assert(s.map_values(f) == s.drop_last().map_values(f).push(f(s.last())));
    s.drop_last().map_values(f).lemma_flatten_push(f(s.last()));
}

/// The hillshading features of one band are its polygons' features, one each.
proof fn lemma_band_features_map(polys: Seq<PolygonView>)
    ensures
        polygons_band_features(polys) == polys.map_values(|p: PolygonView| band_feature(p)),
    decreases polys.len(),
{
    if polys.len() > 0 {
        lemma_band_features_map(polys.drop_last());
        assert(polys.map_values(|p: PolygonView| band_feature(p)) == polys.drop_last().map_values(
            |p: PolygonView| band_feature(p),
        ).push(band_feature(polys.last())));
    }
}

/// The hillshading layer concatenates the features of the bands.
proof fn lemma_band_layer_flatten(bands: Seq<ContourView>)
    ensures
        band_layer_features(bands) == bands.map_values(|c: ContourView| polygons_band_features(c.1)).flatten(),
    decreases bands.len(),
{
    if bands.len() > 0 {
        lemma_band_layer_flatten(bands.drop_last());
        lemma_map_flatten_last(bands, |c: ContourView| polygons_band_features(c.1));
    }
}

/// The hillshading layer holds, band after band, one untagged polygon feature
/// for each polygon of the band, in order: its exterior drawn as an outer
/// ring, then each hole as an inner ring.
pub proof fn lemma_hillshading_feature_per_polygon(bands: Seq<ContourView>)
    ensures
        band_layer_features(bands) == bands.map_values(
            |c: ContourView|
                c.1.map_values(
                    |p: PolygonView|
                        (
                            true,
                            mvt_geometry(
                                true,
                                seq![ring_path(p.0, true)] + p.1.map_values(|r: RingView| ring_path(r, false))
                                    + seq![Seq::<TilePoint>::empty()],
                            ),
                            Seq::<(Seq<char>, i64)>::empty(),
                        ),
                ),
        ).flatten(),
{
    let g = |p: PolygonView|
        (
            true,
            mvt_geometry(
                true,
                seq![ring_path(p.0, true)] + p.1.map_values(|r: RingView| ring_path(r, false)) + seq![
                    Seq::<TilePoint>::empty(),
                ],
            ),
            Seq::<(Seq<char>, i64)>::empty(),
        );
    let lhs = bands.map_values(|c: ContourView| polygons_band_features(c.1));
    let rhs = bands.map_values(|c: ContourView| c.1.map_values(g));
    lemma_band_layer_flatten(bands);
    assert forall|i: int| 0 <= i < bands.len() implies lhs[i] == rhs[i] by {
        lemma_band_features_map(bands[i].1);
        assert forall|j: int| 0 <= j < bands[i].1.len() implies band_feature(bands[i].1[j]) == g(bands[i].1[j]) by {}
        assert(bands[i].1.map_values(|p: PolygonView| band_feature(p)) =~= bands[i].1.map_values(g));
    }
    assert(lhs =~= rhs);
}

/// The line features of a polygon are those of its exterior, then of each hole.
proof fn lemma_polygon_line_features_map(p: PolygonView, ele: i64)
    ensures
        polygon_line_features(p, ele) == (seq![p.0] + p.1).map_values(|r: RingView| line_feature(r, ele)),
{
    assert(polygon_line_features(p, ele) =~= (seq![p.0] + p.1).map_values(|r: RingView| line_feature(r, ele)));
}

/// The line features of a contour's polygons are concatenated in order.
proof fn lemma_polygons_line_flatten(polys: Seq<PolygonView>, ele: i64)
    ensures
        polygons_line_features(polys, ele) == polys.map_values(|p: PolygonView| polygon_line_features(p, ele)).flatten(),
    decreases polys.len(),
{
    if polys.len() > 0 {
        lemma_polygons_line_flatten(polys.drop_last(), ele);
        lemma_map_flatten_last(polys, |p: PolygonView| polygon_line_features(p, ele));
    }
}

/// A contour line layer concatenates the features of the contours.
proof fn lemma_contour_layer_flatten(cs: Seq<ContourView>)
    ensures
        contour_layer_features(cs) == cs.map_values(|c: ContourView| polygons_line_features(c.1, c.0)).flatten(),
    decreases cs.len(),
{
    if cs.len() > 0 {
        lemma_contour_layer_flatten(cs.drop_last());
        lemma_map_flatten_last(cs, |c: ContourView| polygons_line_features(c.1, c.0));
    }
}

/// A contour line layer holds, contour after contour and polygon after
/// polygon, one linestring feature for each ring (the exterior, then each
/// hole), drawn closed as an outer ring and tagged `ele` with exactly the
/// contour's own elevation, negative ones included.
pub proof fn lemma_contour_lines_tagged_with_elevation(cs: Seq<ContourView>)
    ensures
        contour_layer_features(cs) == cs.map_values(
            |c: ContourView|
                c.1.map_values(
                    |p: PolygonView|
                        (seq![p.0] + p.1).map_values(
                            |r: RingView|
                                (
                                    false,
                                    mvt_geometry(false, seq![ring_path(r, true), Seq::<TilePoint>::empty()]),
                                    seq![("ele"@, c.0)],
                                ),
                        ),
                ).flatten(),
        ).flatten(),
{
    let h = |c: ContourView|
        c.1.map_values(
            |p: PolygonView|
                (seq![p.0] + p.1).map_values(
                    |r: RingView|
                        (
                            false,
                            mvt_geometry(false, seq![ring_path(r, true), Seq::<TilePoint>::empty()]),
                            seq![("ele"@, c.0)],
                        ),
                ),
        ).flatten();
    let lhs = cs.map_values(|c: ContourView| polygons_line_features(c.1, c.0));
    let rhs = cs.map_values(h);
    lemma_contour_layer_flatten(cs);
    assert forall|i: int| 0 <= i < cs.len() implies lhs[i] == rhs[i] by {
        let c = cs[i];
        lemma_polygons_line_flatten(c.1, c.0);
        let a = c.1.map_values(|p: PolygonView| polygon_line_features(p, c.0));
        let b = c.1.map_values(
            |p: PolygonView|
                (seq![p.0] + p.1).map_values(
                    |r: RingView|
                        (
                            false,
                            mvt_geometry(false, seq![ring_path(r, true), Seq::<TilePoint>::empty()]),
                            seq![("ele"@, c.0)],
                        ),
                ),
        );
        assert forall|j: int| 0 <= j < c.1.len() implies a[j] == b[j] by {
            let p = c.1[j];
            lemma_polygon_line_features_map(p, c.0);
            assert((seq![p.0] + p.1).map_values(|r: RingView| line_feature(r, c.0)) =~= b[j]);
        }
        assert(a =~= b);
        assert(h(c) == b.flatten());
    }
    assert(lhs =~= rhs);
}

/// Every zoom level has the extent `tile_size * 2` below zoom 12 and
/// `tile_size * 8` from zoom 12 on (cut to 32 bits), the factor by which grid
/// coordinates are scaled.
pub proof fn lemma_extent_by_zoom(enc: TileEncoder, z: u8)
    ensures
        z < 12 ==> spec_expansion_factor(z) == 2 && enc.spec_extent(z) == (enc.spec_tile_size() * 2) as u32,
        z >= 12 ==> spec_expansion_factor(z) == 8 && enc.spec_extent(z) == (enc.spec_tile_size() * 8) as u32,
        enc.spec_extent(z) == (enc.spec_tile_size() * spec_expansion_factor(z)) as u32,
{
}

} // verus!
