//! Contour lines and bands as rings of tile points.
//!
//! A ring is a closed line of points in tile coordinates (already shifted by
//! the padding, scaled to the tile extent and rounded), together with the sign
//! of its signed area as measured on the unrounded line.

use vstd::prelude::*;

verus! {

/// A point in tile coordinates.
pub type TilePoint = (i32, i32);

/// A closed line of tile points.
pub struct Ring {
    pub points: Vec<TilePoint>,
    /// The signed area of the unrounded line, the sum over its segments of
    /// `(x1 - x0) * (y1 + y0)`, is at least 0.
    pub area_nonnegative: bool,
}

impl View for Ring {
    type V = (Seq<TilePoint>, bool);

    open spec fn view(&self) -> (Seq<TilePoint>, bool) {
        (self.points@, self.area_nonnegative)
    }
}

/// A polygon: an exterior ring and its holes.
pub struct Polygon {
    pub exterior: Ring,
    pub interiors: Vec<Ring>,
}

impl View for Polygon {
    type V = ((Seq<TilePoint>, bool), Seq<(Seq<TilePoint>, bool)>);

    open spec fn view(&self) -> ((Seq<TilePoint>, bool), Seq<(Seq<TilePoint>, bool)>) {
        (self.exterior@, self.interiors@.map_values(|r: Ring| r@))
    }
}

/// A contour line (or band) at one level: the polygons that trace it, and the
/// elevation label that its features carry.
pub struct Contour {
    pub ele: i64,
    pub polygons: Vec<Polygon>,
}

impl View for Contour {
    type V = (i64, Seq<((Seq<TilePoint>, bool), Seq<(Seq<TilePoint>, bool)>)>);

    open spec fn view(&self) -> (i64, Seq<((Seq<TilePoint>, bool), Seq<(Seq<TilePoint>, bool)>)>) {
        (self.ele, self.polygons@.map_values(|p: Polygon| p@))
    }
}

/// Both coordinates of a point are below `i32::MAX`, the values that `mvt`'s
/// integer encoder takes without clipping.
pub open spec fn point_in_range(p: TilePoint) -> bool {
    p.0 < i32::MAX && p.1 < i32::MAX
}

/// Every point of a ring is in range.
pub open spec fn ring_in_range(ring: (Seq<TilePoint>, bool)) -> bool {
    forall|i: int| 0 <= i < ring.0.len() ==> point_in_range(#[trigger] ring.0[i])
}

/// Every ring of a polygon is in range.
pub open spec fn polygon_in_range(p: ((Seq<TilePoint>, bool), Seq<(Seq<TilePoint>, bool)>)) -> bool {
    &&& ring_in_range(p.0)
    &&& forall|i: int| 0 <= i < p.1.len() ==> ring_in_range(#[trigger] p.1[i])
}

/// Every ring of every polygon of every contour is in range.
pub open spec fn contours_in_range(cs: Seq<(i64, Seq<((Seq<TilePoint>, bool), Seq<(Seq<TilePoint>, bool)>)>)>) -> bool {
    forall|i: int, j: int| 0 <= i < cs.len() && 0 <= j < cs[i].1.len() ==> polygon_in_range(#[trigger] cs[i].1[j])
}

/// `s` with every point that repeats the one just before it left out.
pub open spec fn dedup_consecutive(s: Seq<TilePoint>) -> Seq<TilePoint>
    decreases s.len(),
{
    if s.len() == 0 {
        s
    } else {
        let prev = dedup_consecutive(s.drop_last());
        if prev.len() > 0 && prev.last() == s.last() {
            prev
        } else {
            prev.push(s.last())
        }
    }
}

/// The points of a ring in the order in which they are drawn: as given when
/// an outer ring has a nonnegative signed area (or an inner ring a negative
/// one), else reversed.
pub open spec fn oriented_points(ring: (Seq<TilePoint>, bool), outer: bool) -> Seq<TilePoint> {
    if outer == ring.1 {
        ring.0
    } else {
        ring.0.reverse()
    }
}

/// The points that are drawn for a ring: oriented, repeats left out.
pub open spec fn ring_path(ring: (Seq<TilePoint>, bool), outer: bool) -> Seq<TilePoint> {
    dedup_consecutive(oriented_points(ring, outer))
}

/// No point of `s` repeats the one just before it.
pub open spec fn no_repeated_neighbours(s: Seq<TilePoint>) -> bool {
    forall|i: int, j: int| 0 <= i && j == i + 1 && j < s.len() ==> #[trigger] s[i] != #[trigger] s[j]
}

/// Leaving out repeats keeps the last point and never empties a sequence.
pub proof fn lemma_dedup_last(s: Seq<TilePoint>)
    requires
        s.len() > 0,
    ensures
        dedup_consecutive(s).len() > 0,
        dedup_consecutive(s).last() == s.last(),
    decreases s.len(),
{
}

/// No point of a drawn path repeats the one just before it.
pub proof fn lemma_dedup_no_repeats(s: Seq<TilePoint>)
    ensures
        no_repeated_neighbours(dedup_consecutive(s)),
    decreases s.len(),
{
    if s.len() > 0 {
        lemma_dedup_no_repeats(s.drop_last());
        let prev = dedup_consecutive(s.drop_last());
        let d = dedup_consecutive(s);
        assert forall|i: int, j: int| 0 <= i && j == i + 1 && j < d.len() implies #[trigger] d[i] != #[trigger] d[j] by {
            if j < prev.len() {
                assert(d[i] == prev[i] && d[j] == prev[j]);
            } else if prev.len() > 0 {
                lemma_dedup_last(s.drop_last());
            }
        }
    }
}

/// Leaving out repeats keeps exactly the points of the sequence.
pub proof fn lemma_dedup_same_points(s: Seq<TilePoint>)
    ensures
        forall|p: TilePoint| dedup_consecutive(s).contains(p) <==> s.contains(p),
    decreases s.len(),
{
    if s.len() > 0 {
        lemma_dedup_same_points(s.drop_last());
        let prev = dedup_consecutive(s.drop_last());
        let d = dedup_consecutive(s);
        assert forall|p: TilePoint| d.contains(p) <==> s.contains(p) by {
            if s.contains(p) {
                let k = choose|k: int| 0 <= k < s.len() && s[k] == p;
                if k < s.len() - 1 {
                    assert(s.drop_last()[k] == p);
                    assert(s.drop_last().contains(p));
                    assert(prev.contains(p));
                    let j = choose|j: int| 0 <= j < prev.len() && prev[j] == p;
                    if d != prev {
                        assert(d[j] == p);
                    }
                } else {
                    lemma_dedup_last(s);
                    assert(d[d.len() - 1] == p);
                }
            }
            if d.contains(p) {
                let j = choose|j: int| 0 <= j < d.len() && d[j] == p;
                if j < prev.len() {
                    assert(d[j] == prev[j]);
                    assert(prev[j] == p);
                    assert(prev.contains(p));
                    assert(s.drop_last().contains(p));
                    let k = choose|k: int| 0 <= k < s.drop_last().len() && s.drop_last()[k] == p;
                    assert(s[k] == p);
                } else {
                    assert(s[s.len() - 1] == p);
                }
            }
        }
    }
}

/// A sequence with no repeated neighbours is drawn as it is.
pub proof fn lemma_dedup_of_distinct_neighbours(s: Seq<TilePoint>)
    requires
        no_repeated_neighbours(s),
    ensures
        dedup_consecutive(s) == s,
    decreases s.len(),
{
    if s.len() > 0 {
        let t = s.drop_last();
        assert forall|i: int, j: int| 0 <= i && j == i + 1 && j < t.len() implies #[trigger] t[i] != #[trigger] t[j] by {
            assert(t[i] == s[i] && t[j] == s[j]);
        }
        lemma_dedup_of_distinct_neighbours(t);
        if t.len() > 0 {
            assert(t.last() == s[s.len() - 2]);
            assert(s[s.len() - 2] != s[s.len() - 1]);
        }
        assert(t.push(s.last()) == s);
    }
}

/// Leaving out repeats twice is the same as once.
pub proof fn lemma_dedup_idempotent(s: Seq<TilePoint>)
    ensures
        dedup_consecutive(dedup_consecutive(s)) == dedup_consecutive(s),
{
    lemma_dedup_no_repeats(s);
    lemma_dedup_of_distinct_neighbours(dedup_consecutive(s));
}

/// Leaving out repeats, seen from the front: a first point is dropped when
/// the next one repeats it.
pub proof fn lemma_dedup_prepend(a: TilePoint, s: Seq<TilePoint>)
    ensures
        dedup_consecutive(seq![a] + s) == if s.len() > 0 && s[0] == a {
            dedup_consecutive(s)
        } else {
            seq![a] + dedup_consecutive(s)
        },
    decreases s.len(),
{
    let u = seq![a] + s;
    if s.len() == 0 {
        assert(u == seq![a]);
        assert(u.drop_last() == Seq::<TilePoint>::empty());
        assert(seq![a] + Seq::<TilePoint>::empty() == seq![a]);
        assert(dedup_consecutive(s) == s);
        assert(dedup_consecutive(u.drop_last()) == Seq::<TilePoint>::empty());
        assert(dedup_consecutive(u) == seq![a]);
        assert(seq![a] + dedup_consecutive(s) == seq![a]);
    } else {
        let t = s.drop_last();
        lemma_dedup_prepend(a, t);
        assert(u.drop_last() == seq![a] + t);
        assert(u.last() == s.last());
        let q = dedup_consecutive(t);
        let p = dedup_consecutive(seq![a] + t);
        assert(dedup_consecutive(s) == if q.len() > 0 && q.last() == s.last() { q } else { q.push(s.last()) });
        assert(dedup_consecutive(u) == if p.len() > 0 && p.last() == s.last() { p } else { p.push(s.last()) });
        if t.len() == 0 {
            assert(q == Seq::<TilePoint>::empty());
            assert(p == seq![a]);
            assert(s == seq![s[0]]);
            assert(s.last() == s[0]);
            assert(dedup_consecutive(s) == seq![s[0]]);
            if s[0] != a {
                assert(seq![a].push(s.last()) == seq![a] + seq![s.last()]);
            }
        } else {
            assert(t[0] == s[0]);
            lemma_dedup_last(t);
            if s[0] == a {
                assert(p == q);
            } else {
                assert(p == seq![a] + q);
                assert((seq![a] + q).last() == q.last());
                assert((seq![a] + q).push(s.last()) == seq![a] + q.push(s.last()));
            }
        }
    }
}

/// A ring drawn the other way round draws the same points in reverse order:
/// leaving out repeats commutes with reversing.
pub proof fn lemma_dedup_reverse(s: Seq<TilePoint>)
    ensures
        dedup_consecutive(s.reverse()) == dedup_consecutive(s).reverse(),
    decreases s.len(),
{
    if s.len() == 0 {
        assert(s.reverse() == s);
    } else {
        let t = s.drop_last();
        let a = s.last();
        lemma_dedup_reverse(t);
        assert(s.reverse() == seq![a] + t.reverse());
        lemma_dedup_prepend(a, t.reverse());
        let q = dedup_consecutive(t);
        if t.len() > 0 {
            lemma_dedup_last(t);
            assert(t.reverse()[0] == t.last());
        }
        if !(q.len() > 0 && q.last() == a) {
            assert(q.push(a).reverse() == seq![a] + q.reverse());
        }
    }
}

/// An inner ring is drawn as the same ring taken as outer, reversed: the two
/// roles wind opposite ways.
pub proof fn lemma_ring_path_flip(ring: (Seq<TilePoint>, bool), outer: bool)
    ensures
        ring_path(ring, !outer) == ring_path(ring, outer).reverse(),
{
    let pts = ring.0;
    assert(pts.reverse().reverse() == pts);
    if outer == ring.1 {
        lemma_dedup_reverse(pts);
    } else {
        lemma_dedup_reverse(pts.reverse());
        assert(dedup_consecutive(pts.reverse()).reverse().reverse() == dedup_consecutive(pts.reverse()));
    }
}

/// The order in which a ring comes does not matter: the ring reversed, whose
/// signed area then has the opposite sign, is drawn the same way.
pub proof fn lemma_ring_path_input_order(ring: (Seq<TilePoint>, bool), outer: bool)
    ensures
        ring_path((ring.0.reverse(), !ring.1), outer) == ring_path(ring, outer),
{
    assert(ring.0.reverse().reverse() == ring.0);
}

} // verus!
