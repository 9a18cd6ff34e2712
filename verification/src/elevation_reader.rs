//! Reading Terrarium-encoded elevation tiles into a padded grid.
//!
//! A tile of `tile_size` x `tile_size` pixels is read together with a strip of
//! `padding` pixels from each of its eight neighbours, so that the grid has
//! `tile_size + 2 * padding` cells on each side.

use vstd::prelude::*;
use crate::grid::ElevationGrid;
use crate::tile::{TileXyz, valid_tile, hilbert_tile, MAX_TILE_ID};

verus! {

#[verifier::external_type_specification]
#[verifier::external_body]
pub struct ExPmtError(pmtiles::PmtError);

/// What can go wrong while reading elevation.
#[derive(Debug)]
pub enum ElevationReaderError {
    PmTiles(pmtiles::PmtError),
    WebP(String),
    Oxigdal(String),
}

impl From<pmtiles::PmtError> for ElevationReaderError {
    fn from(err: pmtiles::PmtError) -> (r: Self) {
        ElevationReaderError::PmTiles(err)
    }
}

impl vstd::std_specs::convert::FromSpecImpl<pmtiles::PmtError> for ElevationReaderError {
    open spec fn obeys_from_spec() -> bool {
        true
    }

    open spec fn from_spec(err: pmtiles::PmtError) -> Self {
        ElevationReaderError::PmTiles(err)
    }
}

/// The pixels that libwebp decodes from the bytes `data`, or `None` where it
/// refuses them.
pub uninterp spec fn webp_decoded(data: Seq<u8>) -> Option<Seq<u8>>;

/// The `Debug` text of `pmtiles::TileCoord` for the tile `(z, x, y)`.
pub uninterp spec fn tile_coord_debug_text(z: u8, x: u32, y: u32) -> Seq<char>;

/// Calls `webp::Decoder::new(data).decode()` and copies the decoded pixels.
/// The pixels are named `webp_decoded` and not stated further.
#[verifier::external_body]
fn webp_decode(data: &[u8]) -> (r: Option<Vec<u8>>)
    ensures
        r matches Some(v) ==> webp_decoded(data@) == Some(v@),
        r is None ==> webp_decoded(data@) is None,
{
    match webp::Decoder::new(data).decode() {
        Some(img) => Some(img.to_vec()),
        None => None,
    }
}

/// Formats with `{:?}` the `pmtiles::TileCoord` that `pmtiles::TileCoord::new`
/// builds for an address that it accepts; the text is named
/// `tile_coord_debug_text`.
#[verifier::external_body]
fn tile_coord_debug(z: u8, x: u32, y: u32) -> (r: String)
    requires
        valid_tile(z as int, x as int, y as int),
    ensures
        r@ == tile_coord_debug_text(z, x, y),
{
    match pmtiles::TileCoord::new(z, x, y) {
        Ok(c) => format!("{:?}", c),
        Err(e) => format!("{:?}", e),
    }
}

/// The bytes behind an optional slice.
pub open spec fn option_bytes(p: Option<&[u8]>) -> Option<Seq<u8>> {
    match p {
        Some(b) => Some(b@),
        None => None,
    }
}

/// The elevation, in 1/256 m, of a Terrarium pixel: `r * 256 + g + b / 256 - 32768` metres.
pub open spec fn spec_terrarium(r: u8, g: u8, b: u8) -> int {
    r * 65536 + g * 256 + b - 8388608
}

/// The elevation, in 1/256 m, of a Terrarium pixel.
pub fn terrarium_elevation(r: u8, g: u8, b: u8) -> (e: i32)
    ensures
        e == spec_terrarium(r, g, b),
        -8388608 <= e < 8388608,
{
    (r as i32) * 65536 + (g as i32) * 256 + (b as i32) - 8388608
}

/// The elevation of pixel `i` of an image of three bytes per pixel.
pub open spec fn pixel_elevation(pixels: Seq<u8>, i: int) -> int {
    spec_terrarium(pixels[3 * i], pixels[3 * i + 1], pixels[3 * i + 2])
}

/// The decoding is one to one: two pixels with the same elevation have the
/// same colour.
pub proof fn lemma_terrarium_injective(r1: u8, g1: u8, b1: u8, r2: u8, g2: u8, b2: u8)
    requires
        spec_terrarium(r1, g1, b1) == spec_terrarium(r2, g2, b2),
    ensures
        r1 == r2 && g1 == g2 && b1 == b2,
{
}

/// Reads elevation tiles of `tile_size` x `tile_size` pixels into grids with
/// `padding` extra cells on each side, keeping the tiles of zoom levels
/// `min_zoom` to `max_zoom`.
pub struct ElevationReader {
    tile_size: usize,
    padding: usize,
    offset: usize,
    min_zoom: u8,
    max_zoom: u8,
}

/// `3 * tile_size * tile_size`, the bytes of a decoded tile, fits in `isize`.
pub open spec fn tile_size_fits(tile_size: int) -> bool {
    3 * tile_size * tile_size <= isize::MAX
}

/// Consequences of `tile_size_fits` that the index arithmetic uses.
pub proof fn lemma_tile_size_fits(t: int)
    requires
        0 <= t,
        tile_size_fits(t),
    ensures
        3 * t <= isize::MAX,
        t * t <= isize::MAX,
        3 * (t * t) <= isize::MAX,
{
    assert(3 * t <= 3 * t * t) by (nonlinear_arith)
        requires
            0 <= t,
    ;
    assert(3 * (t * t) == 3 * t * t) by (nonlinear_arith);
}

impl ElevationReader {
    #[verifier::type_invariant]
    spec fn inv(self) -> bool {
        &&& self.padding <= self.tile_size
        &&& self.offset == self.tile_size - self.padding
        &&& tile_size_fits(self.tile_size as int)
    }

    pub closed spec fn spec_tile_size(self) -> nat {
        self.tile_size as nat
    }

    pub closed spec fn spec_padding(self) -> nat {
        self.padding as nat
    }

    pub closed spec fn spec_min_zoom(self) -> u8 {
        self.min_zoom
    }

    pub closed spec fn spec_max_zoom(self) -> u8 {
        self.max_zoom
    }

    /// `tile_size - padding`: where the strip that a neighbour on the low side
    /// contributes starts.
    pub open spec fn spec_offset(self) -> int {
        self.spec_tile_size() - self.spec_padding()
    }

    /// First source pixel read along an axis for the neighbour at offset `d`.
    pub open spec fn axis_start(self, d: int) -> int {
        if d >= 0 {
            0
        } else {
            self.spec_offset()
        }
    }

    /// One past the last source pixel read along an axis for offset `d`.
    pub open spec fn axis_end(self, d: int) -> int {
        if d <= 0 {
            self.spec_tile_size() as int
        } else {
            self.spec_padding() as int
        }
    }

    /// What is added to a source pixel's coordinate to get its grid cell.
    pub open spec fn axis_shift(self, d: int) -> int {
        if d == -1 {
            -self.spec_offset()
        } else if d == 0 {
            self.spec_padding() as int
        } else {
            (self.spec_padding() + self.spec_tile_size()) as int
        }
    }

    /// The grid coordinate `c` receives a pixel of the neighbour at offset `d`.
    pub open spec fn axis_covers(self, d: int, c: int) -> bool {
        self.axis_start(d) <= c - self.axis_shift(d) < self.axis_end(d)
    }

    /// `(x, y)` is a source pixel that the neighbour at `(dy, dx)` reads.
    pub open spec fn in_source(self, dy: int, dx: int, x: int, y: int) -> bool {
        &&& self.axis_start(dx) <= x < self.axis_end(dx)
        &&& self.axis_start(dy) <= y < self.axis_end(dy)
    }

    /// Source pixel `(x1, y1)` comes before `(x2, y2)` in the walk over a
    /// strip: `x` in the outer loop, `y` in the inner one.
    pub open spec fn source_before(x1: int, y1: int, x2: int, y2: int) -> bool {
        x1 < x2 || (x1 == x2 && y1 < y2)
    }

    /// The three bytes of source pixel `(x, y)` are there to be read.
    pub open spec fn pixel_readable(self, pixels: Option<Seq<u8>>, x: int, y: int) -> bool {
        match pixels {
            Some(p) => 3 * (x * self.spec_tile_size() + y) + 2 < p.len(),
            None => true,
        }
    }

    /// Source pixel `(x, y)` of the neighbour at `(dy, dx)` is read and lands
    /// inside `grid`.
    pub open spec fn pixel_ok(self, grid: ElevationGrid, pixels: Option<Seq<u8>>, dy: int, dx: int, x: int, y: int) -> bool {
        &&& self.pixel_readable(pixels, x, y)
        &&& grid.in_bounds(x + self.axis_shift(dx), y + self.axis_shift(dy))
    }

    /// The pixel of the source tile that lands on cell `(cx, cy)`: its row is
    /// the `x` coordinate and its column the `y` coordinate.
    pub open spec fn source_index(self, dy: int, dx: int, cx: int, cy: int) -> int {
        (cx - self.axis_shift(dx)) * self.spec_tile_size() + (cy - self.axis_shift(dy))
    }

    /// The grid after the neighbour at `(dy, dx)` wrote its strip into `old`:
    /// the pixel elevations of `pixels`, or elevation 0 where there is no tile.
    pub open spec fn region_written(
        self,
        old: ElevationGrid,
        new: ElevationGrid,
        pixels: Option<Seq<u8>>,
        dy: int,
        dx: int,
    ) -> bool {
        &&& new.spec_width() == old.spec_width()
        &&& new.spec_height() == old.spec_height()
        &&& forall|cx: int, cy: int| #[trigger] new.in_bounds(cx, cy) ==> new.cell(cx, cy) == if self.axis_covers(dx, cx)
            && self.axis_covers(dy, cy) {
            match pixels {
                Some(p) => pixel_elevation(p, self.source_index(dy, dx, cx, cy)),
                None => 0,
            }
        } else {
            old.cell(cx, cy) as int
        }
    }

    /// The grid after the neighbour at `(dy, dx)` wrote into `old` the source
    /// pixels that come before `(x, y)` in the walk over its strip.
    pub open spec fn region_written_before(
        self,
        old: ElevationGrid,
        new: ElevationGrid,
        pixels: Option<Seq<u8>>,
        dy: int,
        dx: int,
        x: int,
        y: int,
    ) -> bool {
        &&& new.spec_width() == old.spec_width()
        &&& new.spec_height() == old.spec_height()
        &&& forall|cx: int, cy: int| #[trigger] new.in_bounds(cx, cy) ==> new.cell(cx, cy) == if self.written_before(
            dy,
            dx,
            cx,
            cy,
            x,
            y,
        ) {
            self.region_value(pixels, dy, dx, cx, cy)
        } else {
            old.cell(cx, cy) as int
        }
    }

    /// What writing the strip of the neighbour at `(dy, dx)` into `old` gives,
    /// pixel by pixel in the order of the walk: success when every pixel is
    /// read and lands inside the grid, and then the whole strip written; else
    /// the walk stops at the first pixel that is not, with the pixels before
    /// it written and the others not, and the error says which check failed
    /// (the read comes first).
    pub open spec fn fill_outcome(
        self,
        old: ElevationGrid,
        new: ElevationGrid,
        pixels: Option<Seq<u8>>,
        dy: int,
        dx: int,
        r: Result<(), ElevationReaderError>,
    ) -> bool {
        &&& r is Ok <==> forall|x: int, y: int| self.in_source(dy, dx, x, y) ==> #[trigger] self.pixel_ok(old, pixels, dy, dx, x, y)
        &&& r is Ok ==> self.region_written(old, new, pixels, dy, dx)
        &&& r is Err ==> exists|x: int, y: int| {
            &&& self.in_source(dy, dx, x, y)
            &&& !#[trigger] self.pixel_ok(old, pixels, dy, dx, x, y)
            &&& forall|x2: int, y2: int| self.in_source(dy, dx, x2, y2) && Self::source_before(x2, y2, x, y) ==> #[trigger] self.pixel_ok(
                old,
                pixels,
                dy,
                dx,
                x2,
                y2,
            )
            &&& self.region_written_before(old, new, pixels, dy, dx, x, y)
            &&& if !self.pixel_readable(pixels, x, y) {
                r matches Err(ElevationReaderError::WebP(s)) && s@ == "Decoded WebP image is too small"@
            } else {
                r matches Err(ElevationReaderError::Oxigdal(s)) && s@ == "Failed to set pixel"@
            }
        }
    }

    /// A reader for tiles of `tile_size` pixels, grids padded by `padding`
    /// cells, and zoom levels `min_zoom` to `max_zoom`.
    pub fn new(tile_size: usize, padding: usize, min_zoom: u8, max_zoom: u8) -> (r: ElevationReader)
        requires
            padding <= tile_size,
            tile_size_fits(tile_size as int),
        ensures
            r.spec_tile_size() == tile_size,
            r.spec_padding() == padding,
            r.spec_min_zoom() == min_zoom,
            r.spec_max_zoom() == max_zoom,
    {
        ElevationReader { tile_size, padding, offset: tile_size - padding, min_zoom, max_zoom }
    }

    pub fn tile_size(&self) -> (r: usize)
        ensures
            r == self.spec_tile_size(),
    {
        self.tile_size
    }

    pub fn padding(&self) -> (r: usize)
        ensures
            r == self.spec_padding(),
    {
        self.padding
    }

    /// The value that the neighbour at `(dy, dx)` writes on cell `(cx, cy)`.
    pub open spec fn region_value(self, pixels: Option<Seq<u8>>, dy: int, dx: int, cx: int, cy: int) -> int {
        match pixels {
            Some(p) => pixel_elevation(p, self.source_index(dy, dx, cx, cy)),
            None => 0,
        }
    }

    /// Cell `(cx, cy)` is written before source pixel `(x, y)` in the row by
    /// row walk over the region.
    pub open spec fn written_before(self, dy: int, dx: int, cx: int, cy: int, x: int, y: int) -> bool {
        &&& self.axis_covers(dx, cx)
        &&& self.axis_covers(dy, cy)
        &&& Self::source_before(cx - self.axis_shift(dx), cy - self.axis_shift(dy), x, y)
    }

    /// The source pixel range along an axis for the neighbour at offset `d`.
    fn axis_bounds(&self, d: i32) -> (r: (usize, usize))
        ensures
            r.0 == self.axis_start(d as int),
            r.1 == self.axis_end(d as int),
            r.1 <= self.spec_tile_size(),
    {
        proof {
            use_type_invariant(self);
        }
        let start = if d >= 0 { 0 } else { self.offset };
        let end = if d <= 0 { self.tile_size } else { self.padding };
        (start, end)
    }

    /// The grid coordinate of source coordinate `c` along an axis.
    fn axis_dest(&self, d: i32, c: usize) -> (r: u64)
        requires
            self.axis_start(d as int) <= c < self.axis_end(d as int),
        ensures
            r == c + self.axis_shift(d as int),
    {
        proof {
            use_type_invariant(self);
            lemma_tile_size_fits(self.tile_size as int);
        }
        if d == -1 {
            (c - self.offset) as u64
        } else if d == 0 {
            (c + self.padding) as u64
        } else {
            (c + self.padding + self.tile_size) as u64
        }
    }

    /// The walk over a strip that stops at source pixel `(x, y)` has the
    /// outcome that `fill_outcome` describes.
    proof fn lemma_stop_outcome(
        self,
        old: ElevationGrid,
        new: ElevationGrid,
        pixels: Option<Seq<u8>>,
        dy: int,
        dx: int,
        x: int,
        y: int,
        r: Result<(), ElevationReaderError>,
    )
        requires
            self.in_source(dy, dx, x, y),
            !self.pixel_ok(old, pixels, dy, dx, x, y),
            forall|x2: int, y2: int| self.in_source(dy, dx, x2, y2) && Self::source_before(x2, y2, x, y) ==> #[trigger] self.pixel_ok(
                old,
                pixels,
                dy,
                dx,
                x2,
                y2,
            ),
            self.region_written_before(old, new, pixels, dy, dx, x, y),
            if !self.pixel_readable(pixels, x, y) {
                r matches Err(ElevationReaderError::WebP(s)) && s@ == "Decoded WebP image is too small"@
            } else {
                r matches Err(ElevationReaderError::Oxigdal(s)) && s@ == "Failed to set pixel"@
            },
        ensures
            self.fill_outcome(old, new, pixels, dy, dx, r),
    {
        assert(r is Err);
        if forall|x2: int, y2: int| self.in_source(dy, dx, x2, y2) ==> #[trigger] self.pixel_ok(old, pixels, dy, dx, x2, y2) {
            assert(self.pixel_ok(old, pixels, dy, dx, x, y));
        }
    }

    /// Writes the strip of the neighbour at `(dy, dx)` into `grid`, pixel by
    /// pixel: the pixel elevations of `pixels`, or elevation 0 without pixels.
    /// Stops at the first pixel that cannot be read or lands outside the
    /// grid, keeping what was written before it.
    fn write_region(&self, grid: &mut ElevationGrid, pixels: Option<&[u8]>, dy: i32, dx: i32) -> (r: Result<(), ElevationReaderError>)
        requires
            old(grid).wf(),
        ensures
            final(grid).wf(),
            self.fill_outcome(*old(grid), *final(grid), option_bytes(pixels), dy as int, dx as int, r),
    {
        proof {
            use_type_invariant(self);
            lemma_tile_size_fits(self.tile_size as int);
        }
        let ghost pv = option_bytes(pixels);
        let ghost g0 = *grid;
        let (xs, xe) = self.axis_bounds(dx);
        let (ys, ye) = self.axis_bounds(dy);
        let t = self.tile_size;
        let mut x = xs;
        while x < xe
            invariant
                grid.wf(),
                xs <= x,
                xs == self.axis_start(dx as int),
                xe == self.axis_end(dx as int),
                ys == self.axis_start(dy as int),
                ye == self.axis_end(dy as int),
                t == self.spec_tile_size(),
                xe <= t,
                ye <= t,
                tile_size_fits(t as int),
                pv == option_bytes(pixels),
                g0 == *old(grid),
                forall|x2: int, y2: int| self.in_source(dy as int, dx as int, x2, y2) && Self::source_before(x2, y2, x as int, ys as int)
                    ==> #[trigger] self.pixel_ok(g0, pv, dy as int, dx as int, x2, y2),
                self.region_written_before(g0, *grid, pv, dy as int, dx as int, x as int, ys as int),
            decreases xe - x,
        {
            let mut y = ys;
            while y < ye
                invariant
                    grid.wf(),
                    xs <= x < xe,
                    ys <= y,
                    xs == self.axis_start(dx as int),
                    xe == self.axis_end(dx as int),
                    ys == self.axis_start(dy as int),
                    ye == self.axis_end(dy as int),
                    t == self.spec_tile_size(),
                    xe <= t,
                    ye <= t,
                    tile_size_fits(t as int),
                    pv == option_bytes(pixels),
                    g0 == *old(grid),
                    forall|x2: int, y2: int| self.in_source(dy as int, dx as int, x2, y2) && Self::source_before(x2, y2, x as int, y as int)
                        ==> #[trigger] self.pixel_ok(g0, pv, dy as int, dx as int, x2, y2),
                    self.region_written_before(g0, *grid, pv, dy as int, dx as int, x as int, y as int),
                decreases ye - y,
            {
                proof {
                    assert(x * t + y < t * t) by (nonlinear_arith)
                        requires
                            x < xe <= t,
                            y < ye <= t,
                    ;
                    assert(x * t <= x * t + y);
                    lemma_tile_size_fits(t as int);
                }
                assert(self.in_source(dy as int, dx as int, x as int, y as int));
                let i: usize = x * t + y;
                let v: i32 = match pixels {
                    Some(p) => {
                        if 3 * i + 2 >= p.len() {
                            let r = Err(ElevationReaderError::WebP("Decoded WebP image is too small".to_owned()));
                            proof {
                                assert(!self.pixel_readable(pv, x as int, y as int));
                                self.lemma_stop_outcome(g0, *grid, pv, dy as int, dx as int, x as int, y as int, r);
                            }
                            return r;
                        }
                        terrarium_elevation(p[3 * i], p[3 * i + 1], p[3 * i + 2])
                    },
                    None => 0,
                };
                assert(self.pixel_readable(pv, x as int, y as int));
                let cx = self.axis_dest(dx, x);
                let cy = self.axis_dest(dy, y);
                let ghost before = *grid;
                match grid.set(cx, cy, v) {
                    Ok(()) => {},
                    Err(()) => {
                        let r = Err(ElevationReaderError::Oxigdal("Failed to set pixel".to_owned()));
                        proof {
                            assert(!self.pixel_ok(g0, pv, dy as int, dx as int, x as int, y as int));
                            assert(self.region_written_before(g0, before, pv, dy as int, dx as int, x as int, y as int));
                            assert(grid.spec_cells() == before.spec_cells());
                            assert(grid.spec_width() == before.spec_width());
                            assert(grid.spec_height() == before.spec_height());
                            assert forall|a: int, b: int| #[trigger] grid.in_bounds(a, b) implies grid.cell(a, b) == if self.written_before(
                                dy as int, dx as int, a, b, x as int, y as int) {
                                self.region_value(pv, dy as int, dx as int, a, b)
                            } else {
                                g0.cell(a, b) as int
                            } by {
                                assert(before.in_bounds(a, b));
                                assert(grid.cell(a, b) == before.cell(a, b));
                            }
                            self.lemma_stop_outcome(g0, *grid, pv, dy as int, dx as int, x as int, y as int, r);
                        }
                        return r;
                    },
                }
                proof {
                    assert(self.pixel_ok(g0, pv, dy as int, dx as int, x as int, y as int));
                    assert forall|a: int, b: int| #[trigger] grid.in_bounds(a, b) implies grid.cell(a, b) == if self.written_before(
                        dy as int, dx as int, a, b, x as int, y + 1) {
                        self.region_value(pv, dy as int, dx as int, a, b)
                    } else {
                        g0.cell(a, b) as int
                    } by {
                        assert(before.in_bounds(a, b));
                        if a == cx && b == cy {
                            assert(self.source_index(dy as int, dx as int, a, b) == x * t + y);
                        }
                    }
                    assert forall|x2: int, y2: int| self.in_source(dy as int, dx as int, x2, y2) && Self::source_before(x2, y2, x as int, y + 1)
                        implies #[trigger] self.pixel_ok(g0, pv, dy as int, dx as int, x2, y2) by {
                        if !(x2 == x && y2 == y) {
                            assert(Self::source_before(x2, y2, x as int, y as int));
                        }
                    }
                }
                y = y + 1;
            }
            proof {
                assert forall|a: int, b: int| #[trigger] grid.in_bounds(a, b) implies grid.cell(a, b) == if self.written_before(
                    dy as int, dx as int, a, b, x + 1, ys as int) {
                    self.region_value(pv, dy as int, dx as int, a, b)
                } else {
                    g0.cell(a, b) as int
                } by {
                    if self.written_before(dy as int, dx as int, a, b, x as int, y as int) {
                    }
                }
                assert forall|x2: int, y2: int| self.in_source(dy as int, dx as int, x2, y2) && Self::source_before(x2, y2, x + 1, ys as int)
                    implies #[trigger] self.pixel_ok(g0, pv, dy as int, dx as int, x2, y2) by {
                    assert(Self::source_before(x2, y2, x as int, y as int));
                }
            }
            x = x + 1;
        }
        proof {
            assert forall|a: int, b: int| #[trigger] grid.in_bounds(a, b) implies grid.cell(a, b) == if self.axis_covers(dx as int, a)
                && self.axis_covers(dy as int, b) {
                self.region_value(pv, dy as int, dx as int, a, b)
            } else {
                g0.cell(a, b) as int
            } by {
                if self.axis_covers(dx as int, a) && self.axis_covers(dy as int, b) {
                    assert(self.written_before(dy as int, dx as int, a, b, x as int, ys as int));
                }
            }
            assert forall|x2: int, y2: int| self.in_source(dy as int, dx as int, x2, y2) implies #[trigger] self.pixel_ok(
                g0,
                pv,
                dy as int,
                dx as int,
                x2,
                y2,
            ) by {
                assert(Self::source_before(x2, y2, x as int, ys as int));
            }
        }
        Ok(())
    }

    /// Writes into `grid` the strip that the neighbour at offset `(dy, dx)`
    /// contributes, read from its decoded pixels (three bytes per pixel, row
    /// by row). Offset `-1` takes the last `padding` pixels of an axis and
    /// puts them before the tile, `0` takes the whole axis, `1` the first
    /// `padding` pixels, put after the tile.
    ///
    /// The strip is written pixel by pixel; the first pixel that `pixels` is
    /// too short for, or that lands outside the grid, stops the walk with an
    /// error, and the pixels written before it stay.
    pub fn fill_pixels(&self, grid: &mut ElevationGrid, pixels: &[u8], dy: i32, dx: i32) -> (r: Result<(), ElevationReaderError>)
        requires
            old(grid).wf(),
        ensures
            final(grid).wf(),
            self.fill_outcome(*old(grid), *final(grid), Some(pixels@), dy as int, dx as int, r),
    {
        self.write_region(grid, Some(pixels), dy, dx)
    }

    /// Reads the tile `tile`, found at offset `(dy, dx)` from the tile being
    /// built, into `grid`. `tile_bytes` holds the tile's WebP bytes, or `None`
    /// where the archive has no such tile.
    ///
    /// A missing tile is an error for the centre tile; for a neighbour its
    /// strip is set to elevation 0.
    pub fn fill(
        &self,
        grid: &mut ElevationGrid,
        tile: TileXyz,
        tile_bytes: Option<&[u8]>,
        dy: i32,
        dx: i32,
    ) -> (r: Result<(), ElevationReaderError>)
        requires
            old(grid).wf(),
            valid_tile(tile.z as int, tile.x as int, tile.y as int),
        ensures
            final(grid).wf(),
            tile_bytes is None ==> {
                if dx == 0 && dy == 0 {
                    &&& r matches Err(ElevationReaderError::Oxigdal(s)) && s@ == "Tile not found: "@ + tile_coord_debug_text(
                        tile.z,
                        tile.x,
                        tile.y,
                    )
                    &&& *final(grid) == *old(grid)
                } else {
                    self.fill_outcome(*old(grid), *final(grid), None, dy as int, dx as int, r)
                }
            },
            tile_bytes matches Some(b) ==> match webp_decoded(b@) {
                None => {
                    &&& r matches Err(ElevationReaderError::WebP(s)) && s@ == "Failed to decode WebP image"@
                    &&& *final(grid) == *old(grid)
                },
                Some(p) => self.fill_outcome(*old(grid), *final(grid), Some(p), dy as int, dx as int, r),
            },
    {
        match tile_bytes {
            None => {
                if dx == 0 && dy == 0 {
                    let mut msg = "Tile not found: ".to_owned();
                    let text = tile_coord_debug(tile.z, tile.x, tile.y);
                    msg.append(text.as_str());
                    return Err(ElevationReaderError::Oxigdal(msg));
                }
                self.write_region(grid, None, dy, dx)
            },
            Some(bytes) => {
                match webp_decode(bytes) {
                    None => Err(ElevationReaderError::WebP("Failed to decode WebP image".to_owned())),
                    Some(pixels) => self.write_region(grid, Some(pixels.as_slice()), dy, dx),
                }
            },
        }
    }

    /// The tile at zoom `z` is kept.
    pub open spec fn accepts_zoom(self, z: u8) -> bool {
        self.spec_min_zoom() <= z <= self.spec_max_zoom()
    }

    /// The tiles of the ids `ids` that lie within the zoom range, in order.
    pub open spec fn spec_tiles(self, ids: Seq<u64>) -> Seq<TileXyz>
        decreases ids.len(),
    {
        if ids.len() == 0 {
            Seq::empty()
        } else {
            let prev = self.spec_tiles(ids.drop_last());
            let (z, x, y) = hilbert_tile(ids.last());
            if self.accepts_zoom(z) {
                prev.push(TileXyz { z, x, y })
            } else {
                prev
            }
        }
    }

    /// The tiles of a run of PMTiles ids, those outside the zoom range left
    /// out.
    pub fn iter_tiles(&self, tile_ids: &[u64]) -> (r: Vec<TileXyz>)
        requires
            forall|i: int| 0 <= i < tile_ids@.len() ==> tile_ids@[i] <= MAX_TILE_ID,
        ensures
            r@ == self.spec_tiles(tile_ids@),
    {
        let mut r: Vec<TileXyz> = Vec::new();
        let mut i: usize = 0;
        while i < tile_ids.len()
            invariant
                i <= tile_ids@.len(),
                forall|k: int| 0 <= k < tile_ids@.len() ==> tile_ids@[k] <= MAX_TILE_ID,
                r@ == self.spec_tiles(tile_ids@.take(i as int)),
            decreases tile_ids@.len() - i,
        {
            assert(tile_ids@.take(i + 1).drop_last() == tile_ids@.take(i as int));
            match TileXyz::from_tile_id(tile_ids[i]) {
                Some(t) => {
                    if self.min_zoom <= t.z && t.z <= self.max_zoom {
                        r.push(t);
                    }
                },
                None => {},
            }
            i = i + 1;
        }
        assert(tile_ids@.take(tile_ids@.len() as int) == tile_ids@);
        r
    }

}

/// Along each axis of a grid of `tile_size + 2 * padding` cells, the offsets
/// -1, 0 and 1 cover every cell exactly once, and each strip fits in the
/// grid: the nine tiles around a tile fill its padded grid with no gap and no
/// overlap.
pub proof fn lemma_strips_partition_axis(reader: ElevationReader, c: int)
    requires
        reader.spec_padding() <= reader.spec_tile_size(),
        0 <= reader.spec_padding(),
        0 <= c < reader.spec_tile_size() + 2 * reader.spec_padding(),
    ensures
        (if reader.axis_covers(-1, c) { 1int } else { 0 }) + (if reader.axis_covers(0, c) { 1int } else { 0 }) + (if reader.axis_covers(1, c) { 1int } else { 0 }) == 1,
        forall|d: int| -1 <= d <= 1 && reader.axis_start(d) < reader.axis_end(d) ==> reader.axis_end(d) - 1 + reader.axis_shift(d)
            < reader.spec_tile_size() + 2 * reader.spec_padding(),
{
}

/// The pixel that lands on cell `c` is the one at the same place on the
/// ground: if the tile being built is the `k`-th along an axis, its grid
/// starts `padding` pixels before the tile, and the neighbour at offset `d`
/// is the `(k + d)`-th tile.
pub proof fn lemma_strips_align(reader: ElevationReader, d: int, k: int, c: int)
    requires
        -1 <= d <= 1,
        reader.axis_covers(d, c),
    ensures
        (k + d) * reader.spec_tile_size() + (c - reader.axis_shift(d)) == k * reader.spec_tile_size() - reader.spec_padding() + c,
{
    let t = reader.spec_tile_size();
    assert((k + d) * t == k * t + d * t) by (nonlinear_arith);
    if d == -1 {
        assert(d * t == -t) by (nonlinear_arith)
            requires
                d == -1,
        ;
    } else if d == 0 {
        assert(d * t == 0);
    } else {
        assert(d * t == t) by (nonlinear_arith)
            requires
                d == 1,
        ;
    }
}

/// In the padded grid, each cell is written by exactly one of the nine
/// neighbours.
pub proof fn lemma_strips_partition_grid(reader: ElevationReader, cx: int, cy: int)
    requires
        reader.spec_padding() <= reader.spec_tile_size(),
        0 <= reader.spec_padding(),
        0 <= cx < reader.spec_tile_size() + 2 * reader.spec_padding(),
        0 <= cy < reader.spec_tile_size() + 2 * reader.spec_padding(),
    ensures
        exists|dy: int, dx: int| -1 <= dy <= 1 && -1 <= dx <= 1 && #[trigger] reader.axis_covers(dx, cx) && #[trigger] reader.axis_covers(dy, cy),
        forall|dy1: int, dx1: int, dy2: int, dx2: int|
            -1 <= dy1 <= 1 && -1 <= dx1 <= 1 && -1 <= dy2 <= 1 && -1 <= dx2 <= 1 && reader.axis_covers(dx1, cx) && reader.axis_covers(
                dy1, cy) && reader.axis_covers(dx2, cx) && reader.axis_covers(dy2, cy) ==> dx1 == dx2 && dy1 == dy2,
{
    lemma_strips_partition_axis(reader, cx);
    lemma_strips_partition_axis(reader, cy);
    let dx = if reader.axis_covers(-1, cx) { -1int } else if reader.axis_covers(0, cx) { 0int } else { 1int };
    let dy = if reader.axis_covers(-1, cy) { -1int } else if reader.axis_covers(0, cy) { 0int } else { 1int };
    assert(reader.axis_covers(dx, cx) && reader.axis_covers(dy, cy));
}

/// Along an axis, no two of the offsets -1, 0 and 1 cover the same cell.
pub proof fn lemma_axis_covers_unique(reader: ElevationReader, d1: int, d2: int, c: int)
    requires
        -1 <= d1 <= 1,
        -1 <= d2 <= 1,
        reader.axis_covers(d1, c),
        reader.axis_covers(d2, c),
    ensures
        d1 == d2,
{
}

/// After fills of the strips of distinct neighbours, one after the other, each
/// cell holds the value of the one strip that covers it, or else its value
/// before the fills.
pub proof fn lemma_fills_closed_form(
    reader: ElevationReader,
    gs: Seq<ElevationGrid>,
    ds: Seq<(int, int)>,
    ps: Seq<Option<Seq<u8>>>,
)
    requires
        gs.len() == ds.len() + 1,
        ps.len() == ds.len(),
        forall|k: int| 0 <= k < ds.len() ==> -1 <= #[trigger] ds[k].0 <= 1 && -1 <= ds[k].1 <= 1,
        forall|k1: int, k2: int| 0 <= k1 < ds.len() && 0 <= k2 < ds.len() && k1 != k2 ==> #[trigger] ds[k1] != #[trigger] ds[k2],
        forall|k: int| 0 <= k < ds.len() ==> #[trigger] reader.region_written(gs[k], gs[k + 1], ps[k], ds[k].0, ds[k].1),
    ensures
        gs.last().spec_width() == gs[0].spec_width(),
        gs.last().spec_height() == gs[0].spec_height(),
        forall|k: int, cx: int, cy: int|
            0 <= k < ds.len() && #[trigger] gs.last().in_bounds(cx, cy) && reader.axis_covers(ds[k].1, cx) && reader.axis_covers(ds[k].0, cy)
                ==> gs.last().cell(cx, cy) == #[trigger] reader.region_value(ps[k], ds[k].0, ds[k].1, cx, cy),
        forall|cx: int, cy: int|
            #[trigger] gs.last().in_bounds(cx, cy) && (forall|k: int| 0 <= k < ds.len() ==> !(reader.axis_covers(#[trigger] ds[k].1, cx)
                && reader.axis_covers(ds[k].0, cy))) ==> gs.last().cell(cx, cy) == gs[0].cell(cx, cy),
    decreases ds.len(),
{
    let n = ds.len();
    if n > 0 {
        let gs1 = gs.drop_last();
        let ds1 = ds.drop_last();
        let ps1 = ps.drop_last();
        assert forall|k: int| 0 <= k < ds1.len() implies #[trigger] reader.region_written(gs1[k], gs1[k + 1], ps1[k], ds1[k].0, ds1[k].1) by {
            assert(reader.region_written(gs[k], gs[k + 1], ps[k], ds[k].0, ds[k].1));
        }
        assert forall|k1: int, k2: int| 0 <= k1 < ds1.len() && 0 <= k2 < ds1.len() && k1 != k2 implies #[trigger] ds1[k1] != #[trigger] ds1[k2] by {
            assert(ds[k1] != ds[k2]);
        }
        assert forall|k: int| 0 <= k < ds1.len() implies -1 <= #[trigger] ds1[k].0 <= 1 && -1 <= ds1[k].1 <= 1 by {
            assert(-1 <= ds[k].0 <= 1 && -1 <= ds[k].1 <= 1);
        }
        lemma_fills_closed_form(reader, gs1, ds1, ps1);
        let prev = gs[n - 1];
        let last = gs[n as int];
        assert(gs1.last() == prev);
        assert(reader.region_written(prev, last, ps[n - 1], ds[n - 1].0, ds[n - 1].1));
        assert(-1 <= ds[n - 1].0 <= 1 && -1 <= ds[n - 1].1 <= 1);
        assert forall|k: int, cx: int, cy: int|
            0 <= k < ds.len() && #[trigger] last.in_bounds(cx, cy) && reader.axis_covers(ds[k].1, cx) && reader.axis_covers(ds[k].0, cy)
            implies last.cell(cx, cy) == #[trigger] reader.region_value(ps[k], ds[k].0, ds[k].1, cx, cy) by {
            assert(prev.in_bounds(cx, cy));
            if k < n - 1 {
                assert(ds1[k] == ds[k] && ps1[k] == ps[k]);
                assert(-1 <= ds[k].0 <= 1 && -1 <= ds[k].1 <= 1);
                if reader.axis_covers(ds[n - 1].1, cx) && reader.axis_covers(ds[n - 1].0, cy) {
                    lemma_axis_covers_unique(reader, ds[k].1, ds[n - 1].1, cx);
                    lemma_axis_covers_unique(reader, ds[k].0, ds[n - 1].0, cy);
                    assert(ds[k] != ds[n - 1]);
                }
            }
        }
        assert forall|cx: int, cy: int|
            #[trigger] last.in_bounds(cx, cy) && (forall|k: int| 0 <= k < ds.len() ==> !(reader.axis_covers(#[trigger] ds[k].1, cx)
                && reader.axis_covers(ds[k].0, cy))) implies last.cell(cx, cy) == gs[0].cell(cx, cy) by {
            assert(prev.in_bounds(cx, cy));
            assert(!(reader.axis_covers(ds[n - 1].1, cx) && reader.axis_covers(ds[n - 1].0, cy)));
            assert forall|k: int| 0 <= k < ds1.len() implies !(reader.axis_covers(#[trigger] ds1[k].1, cx) && reader.axis_covers(ds1[k].0, cy)) by {
                assert(ds1[k] == ds[k]);
                assert(!(reader.axis_covers(ds[k].1, cx) && reader.axis_covers(ds[k].0, cy)));
            }
        }
    }
}

/// The nine strips of a padded grid may be filled in any order: two runs of
/// successful fills, from the same grid, over the same neighbours with the
/// same pixels but in different orders, end with the same grid.
pub proof fn lemma_fills_any_order(
    reader: ElevationReader,
    gs: Seq<ElevationGrid>,
    ds: Seq<(int, int)>,
    ps: Seq<Option<Seq<u8>>>,
    hs: Seq<ElevationGrid>,
    es: Seq<(int, int)>,
    qs: Seq<Option<Seq<u8>>>,
)
    requires
        gs.len() == ds.len() + 1,
        ps.len() == ds.len(),
        forall|k: int| 0 <= k < ds.len() ==> -1 <= #[trigger] ds[k].0 <= 1 && -1 <= ds[k].1 <= 1,
        forall|k1: int, k2: int| 0 <= k1 < ds.len() && 0 <= k2 < ds.len() && k1 != k2 ==> #[trigger] ds[k1] != #[trigger] ds[k2],
        forall|k: int| 0 <= k < ds.len() ==> #[trigger] reader.region_written(gs[k], gs[k + 1], ps[k], ds[k].0, ds[k].1),
        hs.len() == es.len() + 1,
        qs.len() == es.len(),
        forall|k: int| 0 <= k < es.len() ==> -1 <= #[trigger] es[k].0 <= 1 && -1 <= es[k].1 <= 1,
        forall|k1: int, k2: int| 0 <= k1 < es.len() && 0 <= k2 < es.len() && k1 != k2 ==> #[trigger] es[k1] != #[trigger] es[k2],
        forall|k: int| 0 <= k < es.len() ==> #[trigger] reader.region_written(hs[k], hs[k + 1], qs[k], es[k].0, es[k].1),
        hs[0] == gs[0],
        forall|k: int| 0 <= k < ds.len() ==> exists|j: int| 0 <= j < es.len() && #[trigger] es[j] == #[trigger] ds[k] && qs[j] == ps[k],
        forall|j: int| 0 <= j < es.len() ==> exists|k: int| 0 <= k < ds.len() && #[trigger] ds[k] == #[trigger] es[j] && ps[k] == qs[j],
    ensures
        hs.last().spec_width() == gs.last().spec_width(),
        hs.last().spec_height() == gs.last().spec_height(),
        forall|cx: int, cy: int| #[trigger] gs.last().in_bounds(cx, cy) ==> gs.last().cell(cx, cy) == hs.last().cell(cx, cy),
{
    lemma_fills_closed_form(reader, gs, ds, ps);
    lemma_fills_closed_form(reader, hs, es, qs);
    assert forall|cx: int, cy: int| #[trigger] gs.last().in_bounds(cx, cy) implies gs.last().cell(cx, cy) == hs.last().cell(cx, cy) by {
        assert(hs.last().in_bounds(cx, cy));
        if exists|k: int| 0 <= k < ds.len() && reader.axis_covers(#[trigger] ds[k].1, cx) && reader.axis_covers(ds[k].0, cy) {
            let k = choose|k: int| 0 <= k < ds.len() && reader.axis_covers(#[trigger] ds[k].1, cx) && reader.axis_covers(ds[k].0, cy);
            let j = choose|j: int| 0 <= j < es.len() && #[trigger] es[j] == #[trigger] ds[k] && qs[j] == ps[k];
            assert(gs.last().cell(cx, cy) == reader.region_value(ps[k], ds[k].0, ds[k].1, cx, cy));
            assert(hs.last().cell(cx, cy) == reader.region_value(qs[j], es[j].0, es[j].1, cx, cy));
        } else {
            assert forall|j: int| 0 <= j < es.len() implies !(reader.axis_covers(#[trigger] es[j].1, cx) && reader.axis_covers(es[j].0, cy)) by {
                let k = choose|k: int| 0 <= k < ds.len() && #[trigger] ds[k] == #[trigger] es[j] && ps[k] == qs[j];
                assert(!(reader.axis_covers(ds[k].1, cx) && reader.axis_covers(ds[k].0, cy)));
            }
        }
    }
}

/// Only tiles of the zoom range come out, each the tile of one of the ids, in
/// the order of the ids.
pub proof fn lemma_tiles_in_zoom_range(reader: ElevationReader, ids: Seq<u64>)
    ensures
        reader.spec_tiles(ids).len() <= ids.len(),
        forall|i: int| 0 <= i < reader.spec_tiles(ids).len() ==> #[trigger] reader.accepts_zoom(reader.spec_tiles(ids)[i].z),
        forall|i: int| #![trigger reader.spec_tiles(ids)[i]] 0 <= i < reader.spec_tiles(ids).len() ==> exists|j: int| 0 <= j < ids.len() && #[trigger] hilbert_tile(ids[j]) == (
            reader.spec_tiles(ids)[i].z,
            reader.spec_tiles(ids)[i].x,
            reader.spec_tiles(ids)[i].y,
        ),
    decreases ids.len(),
{
    if ids.len() > 0 {
        let prev = ids.drop_last();
        lemma_tiles_in_zoom_range(reader, prev);
        let r = reader.spec_tiles(ids);
        let rp = reader.spec_tiles(prev);
        assert forall|i: int| #![trigger r[i]] 0 <= i < r.len() implies exists|j: int| 0 <= j < ids.len() && #[trigger] hilbert_tile(ids[j]) == (
            r[i].z,
            r[i].x,
            r[i].y,
        ) by {
            if i < rp.len() {
                assert(r[i] == rp[i]);
                let j = choose|j: int| 0 <= j < prev.len() && #[trigger] hilbert_tile(prev[j]) == (rp[i].z, rp[i].x, rp[i].y);
                assert(ids[j] == prev[j]);
            } else {
                assert(hilbert_tile(ids[ids.len() - 1]) == (r[i].z, r[i].x, r[i].y));
            }
        }
        assert forall|i: int| 0 <= i < r.len() implies #[trigger] reader.accepts_zoom(r[i].z) by {
            if i < rp.len() {
                assert(r[i] == rp[i]);
            }
        }
    }
}

/// The tiles listed are exactly those of the ids whose zoom lies in
/// `min_zoom..=max_zoom`, both ends included, in the order of the ids: no
/// tile of the range is left out.
pub proof fn lemma_tiles_exactly_zoom_range(reader: ElevationReader, ids: Seq<u64>)
    ensures
        reader.spec_tiles(ids) == ids.map_values(
            |id: u64| TileXyz { z: hilbert_tile(id).0, x: hilbert_tile(id).1, y: hilbert_tile(id).2 },
        ).filter(|t: TileXyz| reader.spec_min_zoom() <= t.z && t.z <= reader.spec_max_zoom()),
    decreases ids.len(),
{
    let f = |id: u64| TileXyz { z: hilbert_tile(id).0, x: hilbert_tile(id).1, y: hilbert_tile(id).2 };
    let keep = |t: TileXyz| reader.spec_min_zoom() <= t.z && t.z <= reader.spec_max_zoom();
    if ids.len() == 0 {
        reveal(Seq::filter);
        assert(ids.map_values(f) =~= Seq::<TileXyz>::empty());
    } else {
        lemma_tiles_exactly_zoom_range(reader, ids.drop_last());
        assert(ids.map_values(f) == ids.drop_last().map_values(f).push(f(ids.last())));
        ids.drop_last().map_values(f).lemma_filter_push(f(ids.last()), keep);
    }
}

/// Every id whose tile has a zoom from `min_zoom` to `max_zoom`, both
/// included, has its tile listed.
pub proof fn lemma_tiles_complete(reader: ElevationReader, ids: Seq<u64>, j: int)
    requires
        0 <= j < ids.len(),
        reader.spec_min_zoom() <= hilbert_tile(ids[j]).0 <= reader.spec_max_zoom(),
    ensures
        reader.spec_tiles(ids).contains(
            TileXyz { z: hilbert_tile(ids[j]).0, x: hilbert_tile(ids[j]).1, y: hilbert_tile(ids[j]).2 },
        ),
{
    let f = |id: u64| TileXyz { z: hilbert_tile(id).0, x: hilbert_tile(id).1, y: hilbert_tile(id).2 };
    let keep = |t: TileXyz| reader.spec_min_zoom() <= t.z && t.z <= reader.spec_max_zoom();
    lemma_tiles_exactly_zoom_range(reader, ids);
    ids.map_values(f).lemma_filter_contains(keep, j);
}

/// One more unit of green raises the elevation by one metre (256 units).
pub proof fn lemma_terrarium_green_step(r: u8, g: u8, b: u8)
    requires
        g < 255,
    ensures
        spec_terrarium(r, (g + 1) as u8, b) == spec_terrarium(r, g, b) + 256,
{
}

/// One more unit of blue raises the elevation by 1/256 m (one unit).
pub proof fn lemma_terrarium_blue_step(r: u8, g: u8, b: u8)
    requires
        b < 255,
    ensures
        spec_terrarium(r, g, (b + 1) as u8) == spec_terrarium(r, g, b) + 1,
{
}

/// One more unit of red raises the elevation by 256 m (65536 units).
pub proof fn lemma_terrarium_red_step(r: u8, g: u8, b: u8)
    requires
        r < 255,
    ensures
        spec_terrarium((r + 1) as u8, g, b) == spec_terrarium(r, g, b) + 65536,
{
}

/// Sea level is the colour (128, 0, 0); the lowest colour (0, 0, 0) is
/// -32768 m, and the elevation in metres is `r * 256 + g + b / 256 - 32768`.
pub proof fn lemma_terrarium_scale(r: u8, g: u8, b: u8)
    ensures
        spec_terrarium(128, 0, 0) == 0,
        spec_terrarium(0, 0, 0) == -32768 * 256,
        spec_terrarium(r, g, b) == 256 * (r * 256 + g - 32768) + b,
{
}

/// Read as the 24-bit number `r g b`, a brighter colour is a higher
/// elevation: the decoding is strictly increasing in that number.
pub proof fn lemma_terrarium_monotone(r1: u8, g1: u8, b1: u8, r2: u8, g2: u8, b2: u8)
    requires
        r1 * 65536 + g1 * 256 + b1 < r2 * 65536 + g2 * 256 + b2,
    ensures
        spec_terrarium(r1, g1, b1) < spec_terrarium(r2, g2, b2),
{
}

} // verus!
