//! Tile addresses in the PMTiles pyramid and the neighbourhood of a tile.

use vstd::prelude::*;
use vstd::arithmetic::power2::pow2;

verus! {

/// A tile address: zoom level and column/row in the zoom level's grid.
#[derive(Clone, Copy, Debug, PartialEq, Eq, Structural)]
pub struct TileXyz {
    pub z: u8,
    pub x: u32,
    pub y: u32,
}

/// Largest zoom level that PMTiles accepts.
pub const MAX_ZOOM: u8 = 31;

/// Largest tile id that PMTiles accepts.
pub const MAX_TILE_ID: u64 = 6148914691236517204;

/// A tile address that PMTiles accepts: the zoom is at most 31 and both
/// coordinates are below `2^z`.
pub open spec fn valid_tile(z: int, x: int, y: int) -> bool {
    &&& 0 <= z <= MAX_ZOOM
    &&& 0 <= x < pow2(z as nat)
    &&& 0 <= y < pow2(z as nat)
}

/// The tile that PMTiles places at position `id` of its Hilbert-curve order
/// of the whole pyramid.
pub uninterp spec fn hilbert_tile(id: u64) -> (u8, u32, u32);

/// Calls `pmtiles::TileCoord::new`, which accepts `(z, x, y)` exactly when
/// `z <= MAX_ZOOM`, `x < 1 << z` and `y < 1 << z`, and hands the coordinate back.
#[verifier::external_body]
fn pmtiles_tile_coord(z: u8, x: u32, y: u32) -> (r: Option<(u8, u32, u32)>)
    ensures
        r is Some <==> valid_tile(z as int, x as int, y as int),
        r matches Some(t) ==> t == (z, x, y),
{
    match pmtiles::TileCoord::new(z, x, y) {
        Ok(c) => Some((c.z(), c.x(), c.y())),
        Err(_) => None,
    }
}

/// Calls `pmtiles::TileId::new` and converts the id into a `pmtiles::TileCoord`.
/// `TileId::new` accepts exactly the ids up to `MAX_TILE_ID`; the conversion
/// (a Hilbert-curve decoding) is named `hilbert_tile` and not stated further.
#[verifier::external_body]
fn pmtiles_tile_of_id(id: u64) -> (r: Option<(u8, u32, u32)>)
    ensures
        r is Some <==> id <= MAX_TILE_ID,
        r matches Some(t) ==> t == hilbert_tile(id),
{
    match pmtiles::TileId::new(id) {
        Ok(t) => {
            let c = pmtiles::TileCoord::from(t);
            Some((c.z(), c.x(), c.y()))
        },
        Err(_) => None,
    }
}

impl TileXyz {
    /// The address `(z, x, y)` if PMTiles accepts it.
    pub fn new(z: u8, x: u32, y: u32) -> (r: Option<TileXyz>)
        ensures
            r is Some <==> valid_tile(z as int, x as int, y as int),
            r matches Some(t) ==> t == (TileXyz { z, x, y }),
    {
        match pmtiles_tile_coord(z, x, y) {
            Some((z, x, y)) => Some(TileXyz { z, x, y }),
            None => None,
        }
    }

    /// The tile at position `id` of the PMTiles order, if `id` is a valid id.
    pub fn from_tile_id(id: u64) -> (r: Option<TileXyz>)
        ensures
            r is Some <==> id <= MAX_TILE_ID,
            r matches Some(t) ==> (t.z, t.x, t.y) == hilbert_tile(id),
    {
        match pmtiles_tile_of_id(id) {
            Some((z, x, y)) => Some(TileXyz { z, x, y }),
            None => None,
        }
    }
}

/// A tile next to (or equal to) a given tile, with its offset from it.
#[derive(Clone, Copy, Debug, PartialEq, Eq, Structural)]
pub struct Neighbor {
    pub dx: i32,
    pub dy: i32,
    pub tile: TileXyz,
}

/// The neighbour of `t` at offset `(dx, dy)`, if its coordinates are not
/// negative and PMTiles accepts it.
pub open spec fn neighbor_at(t: TileXyz, dx: int, dy: int) -> Option<Neighbor> {
    if t.x + dx < 0 || t.y + dy < 0 || !valid_tile(t.z as int, t.x + dx, t.y + dy) {
        None
    } else {
        Some(Neighbor { dx: dx as i32, dy: dy as i32, tile: TileXyz { z: t.z, x: (t.x + dx) as u32, y: (t.y + dy) as u32 } })
    }
}

/// The offset visited at step `k` of the 3x3 walk: `dx` runs over -1, 0, 1 in
/// the outer loop and `dy` over -1, 0, 1 in the inner one.
pub open spec fn walk_offset(k: int) -> (int, int) {
    (k / 3 - 1, k % 3 - 1)
}

/// The neighbours met in the first `k` steps of the 3x3 walk, in order.
pub open spec fn neighbors_upto(t: TileXyz, k: nat) -> Seq<Neighbor>
    decreases k,
{
    if k == 0 {
        Seq::empty()
    } else {
        let prev = neighbors_upto(t, (k - 1) as nat);
        let (dx, dy) = walk_offset(k - 1);
        match neighbor_at(t, dx, dy) {
            Some(n) => prev.push(n),
            None => prev,
        }
    }
}

/// All the tiles whose elevation goes into the padded grid of `t`: `t` itself
/// and the eight tiles around it, those off the pyramid left out.
pub open spec fn spec_neighbors(t: TileXyz) -> Seq<Neighbor> {
    neighbors_upto(t, 9)
}

impl TileXyz {
    /// The tiles around this one (itself included), in the order in which
    /// their elevation is read: offsets `dx` in the outer loop, `dy` inner.
    pub fn neighbors(&self) -> (r: Vec<Neighbor>)
        ensures
            r@ == spec_neighbors(*self),
    {
        let mut r: Vec<Neighbor> = Vec::new();
        let mut dx: i32 = -1;
        while dx <= 1
            invariant
                -1 <= dx <= 2,
                r@ == neighbors_upto(*self, (3 * (dx + 1)) as nat),
            decreases 2 - dx,
        {
            let mut dy: i32 = -1;
            while dy <= 1
                invariant
                    -1 <= dx <= 1,
                    -1 <= dy <= 2,
                    r@ == neighbors_upto(*self, (3 * (dx + 1) + dy + 1) as nat),
                decreases 2 - dy,
            {
                let k: i32 = 3 * (dx + 1) + dy + 1;
                assert(walk_offset(k as int) == (dx as int, dy as int));
                let nx: i64 = self.x as i64 + dx as i64;
                let ny: i64 = self.y as i64 + dy as i64;
                if nx >= 0 && ny >= 0 && nx <= u32::MAX as i64 && ny <= u32::MAX as i64 {
                    match TileXyz::new(self.z, nx as u32, ny as u32) {
                        Some(t) => {
                            r.push(Neighbor { dx, dy, tile: t });
                        },
                        None => {},
                    }
                } else {
                    proof {
                        if nx >= 0 && ny >= 0 && valid_tile(self.z as int, nx as int, ny as int) {
                            lemma_valid_tile_bound(self.z as int, nx as int, ny as int);
                        }
                    }
                }
                dy = dy + 1;
            }
            dx = dx + 1;
        }
        r
    }
}

/// PMTiles coordinates stay below `2^31`.
pub proof fn lemma_valid_tile_bound(z: int, x: int, y: int)
    requires
        valid_tile(z, x, y),
    ensures
        x < 0x8000_0000,
        y < 0x8000_0000,
{
    vstd::arithmetic::power2::lemma2_to64();
    if z < 31 {
        vstd::arithmetic::power2::lemma_pow2_strictly_increases(z as nat, 31);
    }
}

/// Every tile in the walk lies at its offset from `t`, with offsets in
/// -1..=1, and PMTiles accepts it.
pub proof fn lemma_neighbors_sound(t: TileXyz, k: nat)
    requires
        k <= 9,
    ensures
        forall|i: int| #![trigger neighbors_upto(t, k)[i]] 0 <= i < neighbors_upto(t, k).len() ==> {
            let n = neighbors_upto(t, k)[i];
            &&& -1 <= n.dx <= 1
            &&& -1 <= n.dy <= 1
            &&& n.tile.z == t.z
            &&& n.tile.x == t.x + n.dx
            &&& n.tile.y == t.y + n.dy
            &&& valid_tile(n.tile.z as int, n.tile.x as int, n.tile.y as int)
        },
        neighbors_upto(t, k).len() <= k,
    decreases k,
{
    if k > 0 {
        lemma_neighbors_sound(t, (k - 1) as nat);
        let (dx, dy) = walk_offset(k - 1);
        assert(-1 <= dx <= 1 && -1 <= dy <= 1);
        let prev = neighbors_upto(t, (k - 1) as nat);
        let cur = neighbors_upto(t, k);
        assert forall|i: int| 0 <= i < prev.len() implies cur[i] == prev[i] by {
        }
        if t.x + dx >= 0 && t.y + dy >= 0 && valid_tile(t.z as int, t.x + dx, t.y + dy) {
            lemma_valid_tile_bound(t.z as int, t.x + dx, t.y + dy);
        }
    }
}

/// The walk visits the 3x3 offsets once each, in order: a later walk extends
/// an earlier one.
pub proof fn lemma_neighbors_prefix(t: TileXyz, k1: nat, k2: nat)
    requires
        k1 <= k2,
    ensures
        neighbors_upto(t, k1).len() <= neighbors_upto(t, k2).len(),
        forall|i: int| 0 <= i < neighbors_upto(t, k1).len() ==> neighbors_upto(t, k2)[i] == neighbors_upto(t, k1)[i],
    decreases k2,
{
    if k1 < k2 {
        lemma_neighbors_prefix(t, k1, (k2 - 1) as nat);
    }
}

/// A tile that PMTiles accepts is itself among its neighbours, at offset
/// `(0, 0)`.
pub proof fn lemma_neighbors_include_tile(t: TileXyz)
    requires
        valid_tile(t.z as int, t.x as int, t.y as int),
    ensures
        spec_neighbors(t).contains(Neighbor { dx: 0, dy: 0, tile: t }),
{
    assert(walk_offset(4) == (0int, 0int));
    let s5 = neighbors_upto(t, 5);
    assert(s5.last() == Neighbor { dx: 0, dy: 0, tile: t });
    lemma_neighbors_prefix(t, 5, 9);
    assert(spec_neighbors(t)[s5.len() - 1] == Neighbor { dx: 0, dy: 0, tile: t });
}

/// A tile away from the edges of its zoom level has all nine neighbours.
pub proof fn lemma_neighbors_interior(t: TileXyz, k: nat)
    requires
        k <= 9,
        t.z <= MAX_ZOOM,
        1 <= t.x,
        t.x + 1 < pow2(t.z as nat),
        1 <= t.y,
        t.y + 1 < pow2(t.z as nat),
    ensures
        neighbors_upto(t, k).len() == k,
    decreases k,
{
    if k > 0 {
        lemma_neighbors_interior(t, (k - 1) as nat);
        let (dx, dy) = walk_offset(k - 1);
        assert(-1 <= dx <= 1 && -1 <= dy <= 1);
    }
}

} // verus!
