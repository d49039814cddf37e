//! Well-Known Binary encoding of two-dimensional geometries.

use vstd::bytes::*;
use vstd::prelude::*;

use crate::ieee::Real;

verus! {

/// A point: x and y.
pub type Point = (Real, Real);

/// Four bytes of a number, least significant first.
pub open spec fn le32(n: u32) -> Seq<u8> {
    spec_u32_to_le_bytes(n)
}

/// Eight bytes of a number, least significant first.
pub open spec fn le64(n: u64) -> Seq<u8> {
    spec_u64_to_le_bytes(n)
}

/// The sixteen bytes of a point.
pub open spec fn point_bytes(p: Point) -> Seq<u8> {
    le64(p.0.bits) + le64(p.1.bits)
}

/// The bytes of the first `n` points.
pub open spec fn points_bytes(points: Seq<Point>, n: int) -> Seq<u8>
    decreases n,
{
    if n <= 0 {
        Seq::empty()
    } else {
        points_bytes(points, n - 1) + point_bytes(points[n - 1])
    }
}

/// The points with the first one repeated at the end.
pub open spec fn closed_ring(points: Seq<Point>) -> Seq<Point> {
    if points.len() == 0 {
        points
    } else {
        points.push(points[0])
    }
}

/// A closed ring as a line string: byte order, type 2, number of points, points.
pub open spec fn linear_ring_bytes(points: Seq<Point>) -> Seq<u8> {
    let ring = closed_ring(points);
    seq![1u8] + le32(2) + le32(ring.len() as u32) + points_bytes(ring, ring.len() as int)
}

/// One ring of a polygon: number of points, points.
pub open spec fn ring_bytes(ring: Seq<Point>) -> Seq<u8> {
    le32(ring.len() as u32) + points_bytes(ring, ring.len() as int)
}

/// The bytes of the first `n` rings.
pub open spec fn rings_bytes(rings: Seq<Seq<Point>>, n: int) -> Seq<u8>
    decreases n,
{
    if n <= 0 {
        Seq::empty()
    } else {
        rings_bytes(rings, n - 1) + ring_bytes(rings[n - 1])
    }
}

/// A polygon: byte order, type 3, number of rings, rings.
pub open spec fn polygon_bytes(rings: Seq<Seq<Point>>) -> Seq<u8> {
    seq![1u8] + le32(3) + le32(rings.len() as u32) + rings_bytes(rings, rings.len() as int)
}

fn push_u32(out: &mut Vec<u8>, n: u32)
    ensures
        final(out)@ == old(out)@ + le32(n),
{
    let mut bytes = u32_to_le_bytes(n);
    out.append(&mut bytes);
}

fn push_u64(out: &mut Vec<u8>, n: u64)
    ensures
        final(out)@ == old(out)@ + le64(n),
{
    let mut bytes = u64_to_le_bytes(n);
    out.append(&mut bytes);
}

fn push_points(out: &mut Vec<u8>, points: &[Point])
    ensures
        final(out)@ == old(out)@ + points_bytes(points@, points@.len() as int),
{
    let mut i: usize = 0;
    assert(out@ =~= old(out)@ + points_bytes(points@, 0));
    while i < points.len()
        invariant
            i <= points@.len(),
            out@ == old(out)@ + points_bytes(points@, i as int),
        decreases points@.len() - i,
    {
        push_u64(out, points[i].0.bits);
        push_u64(out, points[i].1.bits);
        i = i + 1;
        assert(out@ =~= old(out)@ + points_bytes(points@, i as int));
    }
}

/// Encode a closed ring; the first point is repeated to close it.
pub fn linear_ring(points: &[Point]) -> (r: Vec<u8>)
    requires
        points@.len() < u32::MAX,
    ensures
        r@ == linear_ring_bytes(points@),
{
    let mut closed: Vec<Point> = Vec::new();
    let mut i: usize = 0;
    while i < points.len()
        invariant
            i <= points@.len(),
            closed@ == points@.take(i as int),
        decreases points@.len() - i,
    {
        closed.push(points[i]);
        i = i + 1;
        assert(closed@ =~= points@.take(i as int));
    }
    if points.len() > 0 {
        closed.push(points[0]);
    }
    assert(closed@ =~= closed_ring(points@));
    let mut out: Vec<u8> = Vec::new();
    out.push(1);
    push_u32(&mut out, 2);
    push_u32(&mut out, closed.len() as u32);
    push_points(&mut out, closed.as_slice());
    assert(out@ =~= linear_ring_bytes(points@));
    out
}

/// The points held by a vector of rings.
pub open spec fn ring_views(rings: Seq<Vec<Point>>) -> Seq<Seq<Point>> {
    rings.map_values(|r: Vec<Point>| r@)
}

/// Encode a polygon: its exterior ring and its holes, as given.
pub fn polygon(rings: &[Vec<Point>]) -> (r: Vec<u8>)
    requires
        rings@.len() <= u32::MAX,
        forall|i: int| 0 <= i < rings@.len() ==> (#[trigger] rings@[i])@.len() <= u32::MAX,
    ensures
        r@ == polygon_bytes(ring_views(rings@)),
{
    let ghost views = ring_views(rings@);
    let mut out: Vec<u8> = Vec::new();
    out.push(1);
    push_u32(&mut out, 3);
    push_u32(&mut out, rings.len() as u32);
    let ghost head = out@;
    let mut i: usize = 0;
    assert(out@ =~= head + rings_bytes(views, 0));
    while i < rings.len()
        invariant
            i <= rings@.len(),
            views == ring_views(rings@),
            forall|j: int| 0 <= j < rings@.len() ==> (#[trigger] rings@[j])@.len() <= u32::MAX,
            out@ == head + rings_bytes(views, i as int),
        decreases rings@.len() - i,
    {
        assert(views[i as int] == rings@[i as int]@);
        push_u32(&mut out, rings[i].len() as u32);
        push_points(&mut out, rings[i].as_slice());
        i = i + 1;
        assert(out@ =~= head + rings_bytes(views, i as int));
    }
    assert(out@ =~= polygon_bytes(views));
    out
}

/// The line string around a box in well-known binary form: little-endian, type
/// two, five points, which go around the box and end where they start.
pub open spec fn box_ring(x_min: Real, x_max: Real, y_min: Real, y_max: Real) -> Seq<u8> {
    let x0 = spec_u64_to_le_bytes(x_min.bits);
    let x1 = spec_u64_to_le_bytes(x_max.bits);
    let y0 = spec_u64_to_le_bytes(y_min.bits);
    let y1 = spec_u64_to_le_bytes(y_max.bits);
    seq![1u8] + spec_u32_to_le_bytes(2) + spec_u32_to_le_bytes(5) + (x0 + y0) + (x0 + y1) + (x1 + y1) + (x1 + y0) + (x0
        + y0)
}

/// The ring through the corners of a box goes around the box.
pub proof fn lemma_box_ring(x_min: Real, x_max: Real, y_min: Real, y_max: Real)
    ensures
        linear_ring_bytes(
            seq![(x_min, y_min), (x_min, y_max), (x_max, y_max), (x_max, y_min)],
        ) == box_ring(x_min, x_max, y_min, y_max),
{
    let points = seq![(x_min, y_min), (x_min, y_max), (x_max, y_max), (x_max, y_min)];
    let ring = closed_ring(points);
    reveal_with_fuel(points_bytes, 6);
    assert(ring =~= seq![(x_min, y_min), (x_min, y_max), (x_max, y_max), (x_max, y_min), (x_min, y_min)]);
    assert(linear_ring_bytes(points) =~= box_ring(x_min, x_max, y_min, y_max));
}

proof fn lemma_points_length(points: Seq<Point>, n: int)
    requires
        0 <= n <= points.len(),
    ensures
        points_bytes(points, n).len() == 16 * n,
    decreases n,
{
    if n > 0 {
        lemma_points_length(points, n - 1);
        lemma_auto_spec_u64_to_from_le_bytes();
    }
}

proof fn lemma_points_prefix(points: Seq<Point>, k: int, n: int)
    requires
        0 <= k <= n <= points.len(),
    ensures
        points_bytes(points, n).len() == 16 * n,
        points_bytes(points, n).take(16 * k) == points_bytes(points, k),
    decreases n,
{
    lemma_points_length(points, n);
    lemma_points_length(points, k);
    if k < n {
        lemma_points_prefix(points, k, n - 1);
        assert(points_bytes(points, n).take(16 * k) =~= points_bytes(points, n - 1).take(16 * k));
    } else {
        assert(points_bytes(points, n).take(16 * k) =~= points_bytes(points, k));
    }
}

/// Each point takes sixteen bytes, in the order of the points: its x, then its
/// y, with the least significant byte first.
pub proof fn points_stand_at_their_places(points: Seq<Point>, k: int)
    requires
        0 <= k < points.len(),
    ensures
        ({
            let bytes = points_bytes(points, points.len() as int);
            &&& bytes.len() == 16 * points.len()
            &&& spec_u64_from_le_bytes(bytes.subrange(16 * k, 16 * k + 8)) == points[k].0.bits
            &&& spec_u64_from_le_bytes(bytes.subrange(16 * k + 8, 16 * k + 16)) == points[k].1.bits
        }),
{
    let n = points.len() as int;
    let bytes = points_bytes(points, n);
    lemma_points_prefix(points, k, n);
    lemma_points_prefix(points, k + 1, n);
    lemma_points_length(points, k);
    lemma_auto_spec_u64_to_from_le_bytes();
    let part = points_bytes(points, k + 1);
    assert(bytes.take(16 * (k + 1)) == part);
    let x = spec_u64_to_le_bytes(points[k].0.bits);
    let y = spec_u64_to_le_bytes(points[k].1.bits);
    assert(part == points_bytes(points, k) + (x + y));
    assert(bytes.subrange(16 * k, 16 * k + 8) =~= part.subrange(16 * k, 16 * k + 8));
    assert(part.subrange(16 * k, 16 * k + 8) =~= x);
    assert(bytes.subrange(16 * k + 8, 16 * k + 16) =~= part.subrange(16 * k + 8, 16 * k + 16));
    assert(part.subrange(16 * k + 8, 16 * k + 16) =~= y);
}

/// A polygon with one ring: little-endian, type three, one ring, the number of
/// its points, and its points as they are.
pub proof fn polygons_show_their_ring(ring: Seq<Point>)
    requires
        ring.len() <= u32::MAX,
    ensures
        ({
            let bytes = polygon_bytes(seq![ring]);
            &&& bytes.len() == 13 + 16 * ring.len()
            &&& bytes[0] == 1
            &&& spec_u32_from_le_bytes(bytes.subrange(1, 5)) == 3
            &&& spec_u32_from_le_bytes(bytes.subrange(5, 9)) == 1
            &&& spec_u32_from_le_bytes(bytes.subrange(9, 13)) == ring.len()
            &&& bytes.skip(13) == points_bytes(ring, ring.len() as int)
        }),
{
    let rings = seq![ring];
    let bytes = polygon_bytes(rings);
    reveal_with_fuel(rings_bytes, 2);
    lemma_points_length(ring, ring.len() as int);
    lemma_auto_spec_u32_to_from_le_bytes();
    assert(bytes =~= seq![1u8] + spec_u32_to_le_bytes(3) + spec_u32_to_le_bytes(1) + spec_u32_to_le_bytes(
        ring.len() as u32,
    ) + points_bytes(ring, ring.len() as int));
    assert(bytes.subrange(1, 5) =~= spec_u32_to_le_bytes(3));
    assert(bytes.subrange(5, 9) =~= spec_u32_to_le_bytes(1));
    assert(bytes.subrange(9, 13) =~= spec_u32_to_le_bytes(ring.len() as u32));
    assert(bytes.skip(13) =~= points_bytes(ring, ring.len() as int));
}

/// A closed ring ends where it starts.
pub proof fn a_closed_ring_ends_where_it_starts(points: Seq<Point>)
    requires
        points.len() > 0,
    ensures
        closed_ring(points).len() == points.len() + 1,
        closed_ring(points).drop_last() == points,
        closed_ring(points).last() == points[0],
{
    assert(closed_ring(points).drop_last() =~= points);
}

} // verus!
