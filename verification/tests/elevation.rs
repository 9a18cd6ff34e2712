use vector_terrain::elevation_reader::{terrarium_elevation, ElevationReader, ElevationReaderError};
use vector_terrain::grid::ElevationGrid;
use vector_terrain::tile::{Neighbor, TileXyz};

fn cells(g: &ElevationGrid) -> Vec<i32> {
    g.cells().clone()
}

/// A 4x4 tile whose pixel at row r, column c decodes to elevation 10 * r + c (in 1/256 m).
fn tile_pixels() -> Vec<u8> {
    let mut px = Vec::new();
    for r in 0..4i32 {
        for c in 0..4i32 {
            let v = (10 * r + c + 8388608) as u32;
            px.push((v >> 16) as u8);
            px.push((v >> 8) as u8);
            px.push(v as u8);
        }
    }
    px
}

#[test]
fn terrarium_decodes_exact_sub_metre_steps() {
    assert_eq!(terrarium_elevation(128, 0, 0), 0);
    assert_eq!(terrarium_elevation(0, 0, 0), -8388608);
    assert_eq!(terrarium_elevation(255, 255, 255), 8388607);
    // 1 * 256 + 134 + 160/256 - 32768 metres, times 256.
    assert_eq!(terrarium_elevation(1, 134, 160), 65536 + 134 * 256 + 160 - 8388608);
    assert_eq!(terrarium_elevation(128, 1, 128) as f64 / 256.0, 1.5);
}

#[test]
fn tile_coordinates_follow_pmtiles() {
    assert_eq!(TileXyz::new(18, 235085, 122323), Some(TileXyz { z: 18, x: 235085, y: 122323 }));
    assert_eq!(TileXyz::new(32, 1, 3), None);
    assert_eq!(TileXyz::new(2, 4, 0), None);
    assert_eq!(TileXyz::new(2, 0, 4), None);
    assert_eq!(TileXyz::from_tile_id(0), Some(TileXyz { z: 0, x: 0, y: 0 }));
    for id in [1u64, 2, 3, 4, 5, 20, 21, 1000, 123456789] {
        let c: pmtiles::TileCoord = pmtiles::TileId::new(id).unwrap().into();
        assert_eq!(TileXyz::from_tile_id(id), Some(TileXyz { z: c.z(), x: c.x(), y: c.y() }));
    }
    assert_eq!(TileXyz::from_tile_id(6148914691236517205), None);
    assert!(TileXyz::from_tile_id(6148914691236517204).is_some());
}

#[test]
fn neighbours_of_the_root_tile_is_itself() {
    let t = TileXyz { z: 0, x: 0, y: 0 };
    assert_eq!(t.neighbors(), vec![Neighbor { dx: 0, dy: 0, tile: t }]);
}

#[test]
fn neighbours_of_a_corner_tile() {
    let t = TileXyz { z: 1, x: 0, y: 0 };
    let n = t.neighbors();
    let offs: Vec<(i32, i32)> = n.iter().map(|n| (n.dx, n.dy)).collect();
    assert_eq!(offs, vec![(0, 0), (0, 1), (1, 0), (1, 1)]);
    assert_eq!(n[3].tile, TileXyz { z: 1, x: 1, y: 1 });
}

#[test]
fn neighbours_of_an_interior_tile() {
    let t = TileXyz { z: 3, x: 4, y: 5 };
    let n = t.neighbors();
    assert_eq!(n.len(), 9);
    let mut k = 0;
    for dx in -1i32..=1 {
        for dy in -1i32..=1 {
            assert_eq!(n[k], Neighbor { dx, dy, tile: TileXyz { z: 3, x: (4 + dx) as u32, y: (5 + dy) as u32 } });
            k += 1;
        }
    }
}

#[test]
fn grid_get_and_set() {
    let mut g = ElevationGrid::zeros(3, 2);
    assert_eq!(g.width(), 3);
    assert_eq!(g.height(), 2);
    assert_eq!(cells(&g), vec![0; 6]);
    assert_eq!(g.set(2, 1, 7), Ok(()));
    assert_eq!(g.get(2, 1), Some(7));
    assert_eq!(cells(&g), vec![0, 0, 0, 0, 0, 7]);
    assert_eq!(g.set(3, 0, 1), Err(()));
    assert_eq!(g.set(0, 2, 1), Err(()));
    assert_eq!(g.get(3, 0), None);
}

#[test]
fn centre_tile_lands_inside_the_padding() {
    let reader = ElevationReader::new(4, 1, 0, 20);
    let mut g = ElevationGrid::zeros(6, 6);
    reader.fill_pixels(&mut g, &tile_pixels(), 0, 0).unwrap();
    // Source pixel (x, y) reads byte triple x * 4 + y and lands on cell (x + 1, y + 1).
    for x in 0..4u64 {
        for y in 0..4u64 {
            assert_eq!(g.get(x + 1, y + 1), Some((10 * x + y) as i32));
        }
    }
    assert_eq!(g.get(0, 0), Some(0));
    assert_eq!(g.get(5, 5), Some(0));
}

#[test]
fn neighbour_strips_fill_the_border() {
    let reader = ElevationReader::new(4, 1, 0, 20);
    let mut g = ElevationGrid::zeros(6, 6);
    let px = tile_pixels();
    // dx = -1: the last row of the source (x = 3) goes to cell x = 0.
    reader.fill_pixels(&mut g, &px, 0, -1).unwrap();
    for y in 0..4u64 {
        assert_eq!(g.get(0, y + 1), Some((30 + y) as i32));
    }
    // dx = 1: the first row of the source (x = 0) goes to cell x = 5.
    reader.fill_pixels(&mut g, &px, 0, 1).unwrap();
    for y in 0..4u64 {
        assert_eq!(g.get(5, y + 1), Some(y as i32));
    }
    // dy = -1, dx = -1: source pixel (3, 3) goes to the corner cell (0, 0).
    reader.fill_pixels(&mut g, &px, -1, -1).unwrap();
    assert_eq!(g.get(0, 0), Some(33));
    // dy = 1, dx = 1: source pixel (0, 0) goes to the corner cell (5, 5).
    reader.fill_pixels(&mut g, &px, 1, 1).unwrap();
    assert_eq!(g.get(5, 5), Some(0));
    reader.fill_pixels(&mut g, &px, 1, -1).unwrap();
    assert_eq!(g.get(0, 5), Some(30));
}

#[test]
fn all_nine_tiles_cover_the_grid_once() {
    let reader = ElevationReader::new(4, 1, 0, 20);
    let mut counts = vec![0; 36];
    for dx in -1i32..=1 {
        for dy in -1i32..=1 {
            // Mark the cells one neighbour writes with a distinct value.
            let mut g = ElevationGrid::zeros(6, 6);
            let mut px = Vec::new();
            for _ in 0..16 {
                px.extend_from_slice(&[128, 0, 1]);
            }
            reader.fill_pixels(&mut g, &px, dy, dx).unwrap();
            for (i, v) in cells(&g).iter().enumerate() {
                counts[i] += *v;
            }
        }
    }
    assert_eq!(counts, vec![1; 36]);
}

#[test]
fn short_pixels_stop_the_walk_where_they_run_out() {
    let reader = ElevationReader::new(4, 1, 0, 20);
    let mut g = ElevationGrid::zeros(6, 6);
    let px = tile_pixels();
    // 47 bytes hold 15 whole pixels: source pixels 0..15 (x-major) are written, pixel 15 is not.
    let r = reader.fill_pixels(&mut g, &px[..47], 0, 0);
    match r {
        Err(ElevationReaderError::WebP(s)) => assert_eq!(s, "Decoded WebP image is too small"),
        other => panic!("unexpected {:?}", other),
    }
    for x in 0..4u64 {
        for y in 0..4u64 {
            let expected = if x * 4 + y < 15 { (10 * x + y) as i32 } else { 0 };
            assert_eq!(g.get(x + 1, y + 1), Some(expected));
        }
    }
    // The strip of dx = 1 reads row 0 only: 12 bytes are enough.
    assert!(reader.fill_pixels(&mut g, &px[..12], 0, 1).is_ok());
}

#[test]
fn strip_partly_outside_the_grid_keeps_what_was_written() {
    // Tile size 3, padding 1, a grid 5 wide and 3 high: row 2 of the source lands on
    // grid row 3, outside; the walk stops at source pixel (0, 2).
    let reader = ElevationReader::new(3, 1, 0, 20);
    let mut g = ElevationGrid::zeros(5, 3);
    let mut px = Vec::new();
    for _ in 0..9 {
        px.extend_from_slice(&[128, 0, 7]);
    }
    match reader.fill_pixels(&mut g, &px, 0, 0) {
        Err(ElevationReaderError::Oxigdal(s)) => assert_eq!(s, "Failed to set pixel"),
        other => panic!("unexpected {:?}", other),
    }
    assert_eq!(g.get(1, 1), Some(7));
    assert_eq!(g.get(1, 2), Some(7));
    assert_eq!(g.get(2, 1), Some(0));
    assert_eq!(cells(&g).iter().filter(|v| **v == 7).count(), 2);
}

#[test]
fn strip_outside_the_grid_is_refused() {
    let reader = ElevationReader::new(4, 1, 0, 20);
    let mut g = ElevationGrid::zeros(5, 6);
    match reader.fill_pixels(&mut g, &tile_pixels(), 0, 1) {
        Err(ElevationReaderError::Oxigdal(s)) => assert_eq!(s, "Failed to set pixel"),
        other => panic!("unexpected {:?}", other),
    }
    assert_eq!(cells(&g), vec![0; 30]);
}

#[test]
fn missing_centre_tile_is_an_error() {
    let reader = ElevationReader::new(4, 1, 0, 20);
    let mut g = ElevationGrid::zeros(6, 6);
    let t = TileXyz { z: 3, x: 2, y: 1 };
    match reader.fill(&mut g, t, None, 0, 0) {
        Err(ElevationReaderError::Oxigdal(s)) => {
            assert_eq!(s, format!("Tile not found: {:?}", pmtiles::TileCoord::new(3, 2, 1).unwrap()));
            assert_eq!(s, "Tile not found: TileCoord { z: 3, x: 2, y: 1 }");
        }
        other => panic!("unexpected {:?}", other),
    }
}

#[test]
fn missing_neighbour_reads_as_sea_level() {
    let reader = ElevationReader::new(4, 1, 0, 20);
    let mut g = ElevationGrid::zeros(6, 6);
    let mut px = Vec::new();
    for _ in 0..16 {
        px.extend_from_slice(&[128, 1, 0]);
    }
    reader.fill_pixels(&mut g, &px, 0, 0).unwrap();
    for dx in -1i32..=1 {
        for dy in -1i32..=1 {
            if dx != 0 || dy != 0 {
                reader.fill_pixels(&mut g, &px, dy, dx).unwrap();
            }
        }
    }
    assert_eq!(cells(&g), vec![256; 36]);
    let t = TileXyz { z: 3, x: 2, y: 1 };
    reader.fill(&mut g, t, None, 0, 1).unwrap();
    for y in 0..6u64 {
        assert_eq!(g.get(5, y), Some(if y == 0 || y == 5 { 256 } else { 0 }));
    }
}

#[test]
fn undecodable_bytes_are_a_webp_error() {
    let reader = ElevationReader::new(4, 1, 0, 20);
    let mut g = ElevationGrid::zeros(6, 6);
    let t = TileXyz { z: 3, x: 2, y: 1 };
    match reader.fill(&mut g, t, Some(&b"not a webp image"[..]), 0, 0) {
        Err(ElevationReaderError::WebP(s)) => assert_eq!(s, "Failed to decode WebP image"),
        other => panic!("unexpected {:?}", other),
    }
}

#[test]
fn webp_tile_is_decoded_and_read() {
    let px = tile_pixels();
    let bytes = webp::Encoder::from_rgb(&px, 4, 4).encode_lossless().to_vec();
    let reader = ElevationReader::new(4, 1, 0, 20);
    let mut g = ElevationGrid::zeros(6, 6);
    let t = TileXyz { z: 3, x: 2, y: 1 };
    reader.fill(&mut g, t, Some(&bytes[..]), 0, 0).unwrap();
    for x in 0..4u64 {
        for y in 0..4u64 {
            assert_eq!(g.get(x + 1, y + 1), Some((10 * x + y) as i32));
        }
    }
}

#[test]
fn tiles_outside_the_zoom_range_are_left_out() {
    let reader = ElevationReader::new(4, 1, 1, 1);
    let ids: Vec<u64> = (0..7).collect();
    let tiles = reader.iter_tiles(&ids);
    assert_eq!(tiles.len(), 4);
    for (k, id) in (1..5u64).enumerate() {
        let c: pmtiles::TileCoord = pmtiles::TileId::new(id).unwrap().into();
        assert_eq!(tiles[k], TileXyz { z: c.z(), x: c.x(), y: c.y() });
    }
    let all = ElevationReader::new(4, 1, 0, 31).iter_tiles(&ids);
    assert_eq!(all.len(), 7);
    assert_eq!(all[0], TileXyz { z: 0, x: 0, y: 0 });
}

#[test]
fn nine_fills_in_any_order_give_the_same_grid() {
    let reader = ElevationReader::new(4, 1, 0, 20);
    let mut offsets = Vec::new();
    for dx in -1i32..=1 {
        for dy in -1i32..=1 {
            offsets.push((dy, dx));
        }
    }
    let pixels_of = |dy: i32, dx: i32| -> Vec<u8> {
        let mut px = Vec::new();
        for k in 0..16u8 {
            px.extend_from_slice(&[128, (dy + 1) as u8 * 3 + (dx + 1) as u8, k]);
        }
        px
    };
    let mut forward = ElevationGrid::zeros(6, 6);
    for (dy, dx) in offsets.iter() {
        reader.fill_pixels(&mut forward, &pixels_of(*dy, *dx), *dy, *dx).unwrap();
    }
    let mut backward = ElevationGrid::zeros(6, 6);
    for (dy, dx) in offsets.iter().rev() {
        reader.fill_pixels(&mut backward, &pixels_of(*dy, *dx), *dy, *dx).unwrap();
    }
    assert_eq!(cells(&forward), cells(&backward));
}

#[test]
fn neighbours_at_the_edge_of_the_deepest_zoom() {
    let x = (1u32 << 31) - 1;
    let t = TileXyz { z: 31, x, y: 0 };
    let n = t.neighbors();
    let offs: Vec<(i32, i32)> = n.iter().map(|n| (n.dx, n.dy)).collect();
    assert_eq!(offs, vec![(-1, 0), (-1, 1), (0, 0), (0, 1)]);
}
