use mvt::{GeomEncoder, GeomType, Tile};
use vector_terrain::geometry::{Contour, Polygon, Ring};
use vector_terrain::tile::TileXyz;
use vector_terrain::tile_encoder::TileEncoder;

fn signed_area(points: &[(i32, i32)]) -> f64 {
    let mut a = 0.0;
    for w in points.windows(2) {
        a += (w[1].0 as f64 - w[0].0 as f64) * (w[1].1 as f64 + w[0].1 as f64);
    }
    a
}

fn ring(points: &[(i32, i32)]) -> Ring {
    Ring { points: points.to_vec(), area_nonnegative: signed_area(points) >= 0.0 }
}

/// The encoder steps of the contour tool, written directly against `mvt`.
fn reference_linestring(mut enc: GeomEncoder<f64>, points: &[(i32, i32)], outer: bool) -> GeomEncoder<f64> {
    let pts: Vec<(i32, i32)> = if outer == (signed_area(points) >= 0.0) {
        points.to_vec()
    } else {
        points.iter().rev().cloned().collect()
    };
    let mut last: Option<(i32, i32)> = None;
    for p in pts {
        if last == Some(p) {
            continue;
        }
        enc = enc.point(p.0 as f64, p.1 as f64).unwrap();
        last = Some(p);
    }
    enc.complete_geom().unwrap();
    enc
}

type RawPolygon = (Vec<(i32, i32)>, Vec<Vec<(i32, i32)>>);

fn reference_tile(extent: u32, m: &[(i64, Vec<RawPolygon>)], ft: &[(i64, Vec<RawPolygon>)], bands: &[Vec<RawPolygon>]) -> Vec<u8> {
    let mut tile = Tile::new(extent);
    for (name, cs) in [("contours_m", m), ("contours_ft", ft)] {
        let mut layer = tile.create_layer(name);
        for (ele, polys) in cs {
            for (ext, ints) in polys {
                for r in std::iter::once(ext).chain(ints.iter()) {
                    let b = reference_linestring(GeomEncoder::new(GeomType::Linestring), r, true);
                    let mut f = layer.into_feature(b.encode().unwrap());
                    f.add_tag_int("ele", *ele);
                    layer = f.into_layer();
                }
            }
        }
        tile.add_layer(layer).unwrap();
    }
    let mut layer = tile.create_layer("hillshading");
    for polys in bands {
        for (ext, ints) in polys {
            let mut b = reference_linestring(GeomEncoder::new(GeomType::Polygon), ext, true);
            for r in ints {
                b = reference_linestring(b, r, false);
            }
            layer = layer.into_feature(b.encode().unwrap()).into_layer();
        }
    }
    tile.add_layer(layer).unwrap();
    tile.to_bytes().unwrap()
}

fn to_contours(cs: &[(i64, Vec<RawPolygon>)]) -> Vec<Contour> {
    cs.iter()
        .map(|(ele, polys)| Contour {
            ele: *ele,
            polygons: polys
                .iter()
                .map(|(e, ints)| Polygon { exterior: ring(e), interiors: ints.iter().map(|r| ring(r)).collect() })
                .collect(),
        })
        .collect()
}

fn square(x0: i32, y0: i32, s: i32, clockwise: bool) -> Vec<(i32, i32)> {
    let mut v = vec![(x0, y0), (x0 + s, y0), (x0 + s, y0), (x0 + s, y0 + s), (x0, y0 + s), (x0, y0)];
    if clockwise {
        v.reverse();
    }
    v
}

#[test]
fn expansion_factor_by_zoom() {
    assert_eq!(TileEncoder::expansion_factor(0), 2);
    assert_eq!(TileEncoder::expansion_factor(11), 2);
    assert_eq!(TileEncoder::expansion_factor(12), 8);
    assert_eq!(TileEncoder::expansion_factor(14), 8);
    let enc = TileEncoder::new(512, 16);
    assert_eq!(enc.extent(11), 1024);
    assert_eq!(enc.extent(12), 4096);
    assert_eq!(enc.tile_size(), 512);
    assert_eq!(enc.padding(), 16);
}

#[test]
fn empty_tile_has_three_empty_layers() {
    let enc = TileEncoder::new(512, 16);
    let bytes = enc.encode(TileXyz { z: 12, x: 1, y: 2 }, &vec![], &vec![], &vec![]).unwrap();
    assert_eq!(bytes, reference_tile(4096, &[], &[], &[]));
    let other = enc.encode(TileXyz { z: 11, x: 1, y: 2 }, &vec![], &vec![], &vec![]).unwrap();
    assert_eq!(other, reference_tile(1024, &[], &[], &[]));
    assert_ne!(bytes, other);
}

#[test]
fn contours_and_bands_match_the_mvt_steps() {
    let m = vec![
        (100i64, vec![(square(0, 0, 10, false), vec![square(2, 2, 3, false), square(6, 6, 2, true)])]),
        (125i64, vec![(square(20, 20, 5, true), vec![]), (square(40, 0, 4, false), vec![])]),
    ];
    let ft = vec![(400i64, vec![(square(1, 1, 7, true), vec![])])];
    let bands = vec![
        vec![(square(0, 0, 30, true), vec![square(5, 5, 5, true), square(15, 15, 5, false)])],
        vec![(square(50, 50, 8, false), vec![])],
    ];
    let enc = TileEncoder::new(512, 16);
    let bytes = enc
        .encode(TileXyz { z: 13, x: 100, y: 200 }, &to_contours(&m), &to_contours(&ft), &to_contours(
            &bands.iter().map(|b| (0i64, b.clone())).collect::<Vec<_>>(),
        ))
        .unwrap();
    assert_eq!(bytes, reference_tile(4096, &m, &ft, &bands));
}

#[test]
fn repeated_points_are_drawn_once() {
    // The same ring, with and without repeated neighbours, gives the same tile.
    let with = vec![(10i64, vec![(vec![(0, 0), (0, 0), (5, 0), (5, 5), (5, 5), (5, 5), (0, 0)], vec![])])];
    let without = vec![(10i64, vec![(vec![(0, 0), (5, 0), (5, 5), (0, 0)], vec![])])];
    let enc = TileEncoder::new(512, 16);
    let t = TileXyz { z: 12, x: 0, y: 0 };
    let a = enc.encode(t, &to_contours(&with), &vec![], &vec![]).unwrap();
    let b = enc.encode(t, &to_contours(&without), &vec![], &vec![]).unwrap();
    assert_eq!(a, b);
}

#[test]
fn ring_orientation_follows_signed_area() {
    // An outer ring is drawn in the order that gives a nonnegative signed area,
    // whichever order it comes in.
    let ccw = square(0, 0, 4, false);
    let cw = square(0, 0, 4, true);
    let enc = TileEncoder::new(512, 16);
    let t = TileXyz { z: 12, x: 0, y: 0 };
    let a = enc.encode(t, &to_contours(&[(1, vec![(ccw.clone(), vec![])])]), &vec![], &vec![]).unwrap();
    let b = enc.encode(t, &to_contours(&[(1, vec![(cw.clone(), vec![])])]), &vec![], &vec![]).unwrap();
    assert_eq!(a, b);
    // Ignoring the sign would draw the clockwise ring the other way.
    let flipped = Contour {
        ele: 1,
        polygons: vec![Polygon {
            exterior: Ring { points: ccw.clone(), area_nonnegative: signed_area(&ccw) < 0.0 },
            interiors: vec![],
        }],
    };
    let c = enc.encode(t, &vec![flipped], &vec![], &vec![]).unwrap();
    assert_ne!(a, c);
}

#[test]
fn a_ring_given_backwards_is_drawn_the_same() {
    let pts = square(0, 0, 6, false);
    let rev: Vec<(i32, i32)> = pts.iter().rev().cloned().collect();
    let sign = signed_area(&pts) >= 0.0;
    let enc = TileEncoder::new(512, 16);
    let t = TileXyz { z: 12, x: 0, y: 0 };
    let one = |points: Vec<(i32, i32)>, area_nonnegative: bool| {
        vec![Contour {
            ele: 5,
            polygons: vec![Polygon { exterior: Ring { points, area_nonnegative }, interiors: vec![] }],
        }]
    };
    let a = enc.encode(t, &one(pts.clone(), sign), &vec![], &one(pts.clone(), sign)).unwrap();
    let b = enc.encode(t, &one(rev.clone(), !sign), &vec![], &one(rev, !sign)).unwrap();
    assert_eq!(a, b);
}
